//! Package identities, versions and identity patterns.
//!
//! Every executable type has a mathematical model, reached with
//! `deep_view()`, in which strings are sequences of characters. Contracts
//! are stated over the models.

use vstd::prelude::*;

verus! {

/// The model of a name: a feature, a dependency, a package or a location.
pub type Name = Seq<char>;

/// A released version number.
#[derive(Clone, Copy, Debug, PartialEq, Eq, Hash, Structural)]
pub struct Version {
    pub major: u64,
    pub minor: u64,
    pub patch: u64,
}

impl DeepView for Version {
    type V = Version;

    open spec fn deep_view(&self) -> Version {
        *self
    }
}

impl Version {
    /// Strict precedence of versions: lexicographic on the three numbers.
    pub open spec fn spec_lt(self, other: Version) -> bool {
        self.major < other.major || (self.major == other.major && (self.minor < other.minor || (
        self.minor == other.minor && self.patch < other.patch)))
    }

    pub fn new(major: u64, minor: u64, patch: u64) -> (v: Version)
        ensures
            v == (Version { major, minor, patch }),
    {
        Version { major, minor, patch }
    }

    pub fn lt(&self, other: &Version) -> (r: bool)
        ensures
            r == self.spec_lt(*other),
    {
        self.major < other.major || (self.major == other.major && (self.minor < other.minor || (
        self.minor == other.minor && self.patch < other.patch)))
    }

    pub fn same(&self, other: &Version) -> (r: bool)
        ensures
            r == (*self == *other),
    {
        self.major == other.major && self.minor == other.minor && self.patch == other.patch
    }
}

/// A toolchain version of which the minor and patch numbers may be left out.
/// An absent number precedes every number.
#[derive(Clone, Copy, Debug, PartialEq, Eq, Hash)]
pub struct PartialVersion {
    pub major: u64,
    pub minor: Option<u64>,
    pub patch: Option<u64>,
}

impl DeepView for PartialVersion {
    type V = PartialVersion;

    open spec fn deep_view(&self) -> PartialVersion {
        *self
    }
}

/// Precedence of optional numbers: none before some, numbers by size.
pub open spec fn component_lt(a: Option<u64>, b: Option<u64>) -> bool {
    match (a, b) {
        (None, Some(_)) => true,
        (Some(x), Some(y)) => x < y,
        _ => false,
    }
}

impl PartialVersion {
    /// `self` precedes or equals `other`, lexicographically.
    pub open spec fn spec_le(self, other: PartialVersion) -> bool {
        self.major < other.major || (self.major == other.major && (component_lt(
            self.minor,
            other.minor,
        ) || (self.minor == other.minor && (component_lt(self.patch, other.patch) || self.patch
            == other.patch))))
    }

    pub fn new(major: u64, minor: Option<u64>, patch: Option<u64>) -> (v: PartialVersion)
        ensures
            v == (PartialVersion { major, minor, patch }),
    {
        PartialVersion { major, minor, patch }
    }

    pub fn le(&self, other: &PartialVersion) -> (r: bool)
        ensures
            r == self.spec_le(*other),
    {
        if self.major != other.major {
            return self.major < other.major;
        }
        match (self.minor, other.minor) {
            (None, Some(_)) => { return true; },
            (Some(_), None) => { return false; },
            (Some(x), Some(y)) => {
                if x != y {
                    return x < y;
                }
            },
            (None, None) => {},
        }
        match (self.patch, other.patch) {
            (None, Some(_)) => true,
            (Some(_), None) => false,
            (Some(x), Some(y)) => x <= y,
            (None, None) => true,
        }
    }
}

/// Whether a package that needs at least toolchain `needed` may be offered
/// when the caller's toolchain limit is `limit`. No limit admits everything;
/// a package that states no need is always admitted.
pub open spec fn toolchain_admits(
    limit: Option<PartialVersion>,
    needed: Option<PartialVersion>,
) -> bool {
    match (limit, needed) {
        (Some(l), Some(n)) => n.spec_le(l),
        _ => true,
    }
}

pub fn check_toolchain(limit: &Option<PartialVersion>, needed: &Option<PartialVersion>) -> (r:
    bool)
    ensures
        r == toolchain_admits(*limit, *needed),
{
    match (limit, needed) {
        (Some(l), Some(n)) => n.le(l),
        _ => true,
    }
}

/// Where a package comes from.
#[derive(Debug, PartialEq, Eq, Hash)]
pub struct SourceId {
    pub url: String,
}

impl DeepView for SourceId {
    type V = Name;

    open spec fn deep_view(&self) -> Name {
        self.url@
    }
}

impl Clone for SourceId {
    fn clone(&self) -> (r: Self)
        ensures
            r.deep_view() == self.deep_view(),
    {
        SourceId { url: self.url.clone() }
    }
}

impl SourceId {
    pub fn new(url: &str) -> (r: SourceId)
        ensures
            r.deep_view() == url@,
    {
        SourceId { url: String::from_str(url) }
    }

    pub fn same(&self, other: &SourceId) -> (r: bool)
        ensures
            r == (self.deep_view() == other.deep_view()),
    {
        self.url == other.url
    }
}

/// The identity of one package: its name, its version and its source.
#[derive(Debug, PartialEq, Eq, Hash)]
pub struct PackageId {
    pub name: String,
    pub version: Version,
    pub source_id: SourceId,
}

/// The model of a [`PackageId`].
pub struct PackageIdModel {
    pub name: Name,
    pub version: Version,
    pub source: Name,
}

impl DeepView for PackageId {
    type V = PackageIdModel;

    open spec fn deep_view(&self) -> PackageIdModel {
        PackageIdModel {
            name: self.name@,
            version: self.version,
            source: self.source_id.deep_view(),
        }
    }
}

impl Clone for PackageId {
    fn clone(&self) -> (r: Self)
        ensures
            r.deep_view() == self.deep_view(),
    {
        PackageId {
            name: self.name.clone(),
            version: self.version,
            source_id: self.source_id.clone(),
        }
    }
}

impl PackageId {
    pub fn new(name: &str, version: Version, source_id: SourceId) -> (r: PackageId)
        ensures
            r.deep_view() == (PackageIdModel {
                name: name@,
                version,
                source: source_id.deep_view(),
            }),
    {
        PackageId { name: String::from_str(name), version, source_id }
    }

    pub fn name(&self) -> (r: &String)
        ensures
            r@ == self.deep_view().name,
    {
        &self.name
    }

    pub fn version(&self) -> (r: Version)
        ensures
            r == self.deep_view().version,
    {
        self.version
    }

    pub fn source_id(&self) -> (r: &SourceId)
        ensures
            r.deep_view() == self.deep_view().source,
    {
        &self.source_id
    }

    pub fn same(&self, other: &PackageId) -> (r: bool)
        ensures
            r == (self.deep_view() == other.deep_view()),
    {
        self.name == other.name && self.version.same(&other.version) && self.source_id.same(
            &other.source_id,
        )
    }
}

/// Equality of optional package identities, by model.
pub fn same_parent(a: &Option<PackageId>, b: &Option<PackageId>) -> (r: bool)
    ensures
        r == (a.deep_view() == b.deep_view()),
{
    match (a, b) {
        (None, None) => true,
        (Some(x), Some(y)) => x.same(y),
        _ => false,
    }
}

pub fn clone_parent(a: &Option<PackageId>) -> (r: Option<PackageId>)
    ensures
        r.deep_view() == a.deep_view(),
{
    match a {
        None => None,
        Some(x) => Some(x.clone()),
    }
}

/// A pattern over package identities: a name, and optionally a version and
/// a source that the package must have.
#[derive(Debug, PartialEq, Eq, Hash)]
pub struct PackageIdSpec {
    pub name: String,
    pub version: Option<Version>,
    pub url: Option<String>,
}

/// The model of a [`PackageIdSpec`].
pub struct PackageIdSpecModel {
    pub name: Name,
    pub version: Option<Version>,
    pub url: Option<Name>,
}

impl PackageIdSpecModel {
    /// The pattern matches a package of the same name whose version and
    /// source are those the pattern states, as far as it states any.
    pub open spec fn matches(self, id: PackageIdModel) -> bool {
        &&& self.name == id.name
        &&& (self.version matches Some(v) ==> v == id.version)
        &&& (self.url matches Some(u) ==> u == id.source)
    }
}

impl DeepView for PackageIdSpec {
    type V = PackageIdSpecModel;

    open spec fn deep_view(&self) -> PackageIdSpecModel {
        PackageIdSpecModel {
            name: self.name@,
            version: self.version,
            url: match self.url {
                Some(u) => Some(u@),
                None => None,
            },
        }
    }
}

impl Clone for PackageIdSpec {
    fn clone(&self) -> (r: Self)
        ensures
            r.deep_view() == self.deep_view(),
    {
        PackageIdSpec {
            name: self.name.clone(),
            version: self.version,
            url: match &self.url {
                Some(u) => Some(u.clone()),
                None => None,
            },
        }
    }
}

impl PackageIdSpec {
    pub fn new(name: &str, version: Option<Version>, url: Option<String>) -> (r: PackageIdSpec)
        ensures
            r.deep_view().name == name@,
            r.version == version,
            r.url == url,
    {
        PackageIdSpec { name: String::from_str(name), version, url }
    }

    pub fn matches(&self, id: &PackageId) -> (r: bool)
        ensures
            r == self.deep_view().matches(id.deep_view()),
    {
        if !(self.name == id.name) {
            return false;
        }
        let version_ok = match &self.version {
            Some(v) => v.same(&id.version),
            None => true,
        };
        let url_ok = match &self.url {
            Some(u) => *u == id.source_id.url,
            None => true,
        };
        version_ok && url_ok
    }
}

/// A deep copy of a list of names.
pub fn clone_names(v: &Vec<String>) -> (r: Vec<String>)
    ensures
        r.deep_view() == v.deep_view(),
{
    let mut out: Vec<String> = Vec::new();
    let mut i: usize = 0;
    while i < v.len()
        invariant
            i <= v.len(),
            out.len() == i,
            forall|j: int| 0 <= j < i ==> out[j]@ == v[j]@,
        decreases v.len() - i,
    {
        out.push(v[i].clone());
        i += 1;
    }
    assert(out.deep_view() =~= v.deep_view());
    out
}

/// Equality of two lists of names, by model.
pub fn same_names(a: &Vec<String>, b: &Vec<String>) -> (r: bool)
    ensures
        r == (a.deep_view() == b.deep_view()),
{
    if a.len() != b.len() {
        assert(a.deep_view().len() != b.deep_view().len());
        return false;
    }
    let mut i: usize = 0;
    while i < a.len()
        invariant
            i <= a.len(),
            a.len() == b.len(),
            forall|j: int| 0 <= j < i ==> a[j]@ == b[j]@,
        decreases a.len() - i,
    {
        if !(a[i] == b[i]) {
            assert(a.deep_view()[i as int] != b.deep_view()[i as int]);
            return false;
        }
        i += 1;
    }
    assert(a.deep_view() =~= b.deep_view());
    true
}

/// Whether `names` holds `name`.
pub fn has_name(names: &Vec<String>, name: &String) -> (r: bool)
    ensures
        r == names.deep_view().contains(name@),
{
    let mut i: usize = 0;
    while i < names.len()
        invariant
            i <= names.len(),
            forall|j: int| 0 <= j < i ==> names[j]@ != name@,
        decreases names.len() - i,
    {
        if names[i] == *name {
            assert(names.deep_view()[i as int] == name@);
            return true;
        }
        i += 1;
    }
    assert forall|j: int| 0 <= j < names.deep_view().len() implies names.deep_view()[j]
        != name@ by {}
    false
}

} // verus!
