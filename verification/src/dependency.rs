//! A dependency: the constraint that one package declares on another.

use crate::package::{clone_names, same_names, Name, SourceId};
use vstd::prelude::*;

verus! {

/// What a dependency is needed for.
#[derive(Clone, Copy, Debug, PartialEq, Eq, Hash, Structural)]
pub enum DepKind {
    Normal,
    Development,
    Build,
}

/// A constraint declared by a package. The version requirement is carried
/// as written: the registry evaluates it, this library only compares it.
#[derive(Debug, PartialEq, Eq, Hash)]
pub struct Dependency {
    pub package_name: String,
    pub name_in_toml: String,
    pub version_req: String,
    pub source_id: SourceId,
    pub kind: DepKind,
    pub optional: bool,
    pub default_features: bool,
    pub features: Vec<String>,
}

/// The model of a [`Dependency`].
pub struct DependencyModel {
    pub package_name: Name,
    pub name_in_toml: Name,
    pub version_req: Name,
    pub source: Name,
    pub kind: DepKind,
    pub optional: bool,
    pub default_features: bool,
    pub features: Seq<Name>,
}

impl DependencyModel {
    /// A dependency is transitive unless it serves development only.
    pub open spec fn is_transitive(self) -> bool {
        self.kind != DepKind::Development
    }
}

impl DeepView for Dependency {
    type V = DependencyModel;

    open spec fn deep_view(&self) -> DependencyModel {
        DependencyModel {
            package_name: self.package_name@,
            name_in_toml: self.name_in_toml@,
            version_req: self.version_req@,
            source: self.source_id.deep_view(),
            kind: self.kind,
            optional: self.optional,
            default_features: self.default_features,
            features: self.features.deep_view(),
        }
    }
}

impl Clone for Dependency {
    fn clone(&self) -> (r: Self)
        ensures
            r.deep_view() == self.deep_view(),
    {
        Dependency {
            package_name: self.package_name.clone(),
            name_in_toml: self.name_in_toml.clone(),
            version_req: self.version_req.clone(),
            source_id: self.source_id.clone(),
            kind: self.kind,
            optional: self.optional,
            default_features: self.default_features,
            features: clone_names(&self.features),
        }
    }
}

impl Dependency {
    /// A normal, required dependency on `name`, declared under that name,
    /// with default features and no others.
    pub fn new(name: &str, version_req: &str, source_id: SourceId) -> (r: Dependency)
        ensures
            r.deep_view() == (DependencyModel {
                package_name: name@,
                name_in_toml: name@,
                version_req: version_req@,
                source: source_id.deep_view(),
                kind: DepKind::Normal,
                optional: false,
                default_features: true,
                features: Seq::empty(),
            }),
    {
        let r = Dependency {
            package_name: String::from_str(name),
            name_in_toml: String::from_str(name),
            version_req: String::from_str(version_req),
            source_id,
            kind: DepKind::Normal,
            optional: false,
            default_features: true,
            features: Vec::new(),
        };
        assert(r.features.deep_view() =~= Seq::empty());
        r
    }

    pub fn set_optional(self, optional: bool) -> (r: Dependency)
        ensures
            r.deep_view() == (DependencyModel { optional, ..self.deep_view() }),
    {
        let mut r = self;
        r.optional = optional;
        r
    }

    pub fn set_kind(self, kind: DepKind) -> (r: Dependency)
        ensures
            r.deep_view() == (DependencyModel { kind, ..self.deep_view() }),
    {
        let mut r = self;
        r.kind = kind;
        r
    }

    pub fn set_default_features(self, default_features: bool) -> (r: Dependency)
        ensures
            r.deep_view() == (DependencyModel { default_features, ..self.deep_view() }),
    {
        let mut r = self;
        r.default_features = default_features;
        r
    }

    pub fn set_features(self, features: Vec<String>) -> (r: Dependency)
        ensures
            r.deep_view() == (DependencyModel {
                features: features.deep_view(),
                ..self.deep_view()
            }),
    {
        let mut r = self;
        r.features = features;
        r
    }

    pub fn set_name_in_toml(self, name: &str) -> (r: Dependency)
        ensures
            r.deep_view() == (DependencyModel { name_in_toml: name@, ..self.deep_view() }),
    {
        let mut r = self;
        r.name_in_toml = String::from_str(name);
        r
    }

    pub fn package_name(&self) -> (r: &String)
        ensures
            r@ == self.deep_view().package_name,
    {
        &self.package_name
    }

    pub fn name_in_toml(&self) -> (r: &String)
        ensures
            r@ == self.deep_view().name_in_toml,
    {
        &self.name_in_toml
    }

    pub fn version_req(&self) -> (r: &String)
        ensures
            r@ == self.deep_view().version_req,
    {
        &self.version_req
    }

    pub fn source_id(&self) -> (r: &SourceId)
        ensures
            r.deep_view() == self.deep_view().source,
    {
        &self.source_id
    }

    pub fn is_optional(&self) -> (r: bool)
        ensures
            r == self.deep_view().optional,
    {
        self.optional
    }

    pub fn is_transitive(&self) -> (r: bool)
        ensures
            r == self.deep_view().is_transitive(),
    {
        match self.kind {
            DepKind::Development => false,
            _ => true,
        }
    }

    pub fn uses_default_features(&self) -> (r: bool)
        ensures
            r == self.deep_view().default_features,
    {
        self.default_features
    }

    pub fn features(&self) -> (r: &Vec<String>)
        ensures
            r.deep_view() == self.deep_view().features,
    {
        &self.features
    }

    /// Equality by model.
    pub fn same(&self, other: &Dependency) -> (r: bool)
        ensures
            r == (self.deep_view() == other.deep_view()),
    {
        let kinds = match (self.kind, other.kind) {
            (DepKind::Normal, DepKind::Normal) => true,
            (DepKind::Development, DepKind::Development) => true,
            (DepKind::Build, DepKind::Build) => true,
            _ => false,
        };
        kinds && self.package_name == other.package_name && self.name_in_toml
            == other.name_in_toml && self.version_req == other.version_req
            && self.source_id.same(&other.source_id) && self.optional == other.optional
            && self.default_features == other.default_features && same_names(
            &self.features,
            &other.features,
        )
    }
}

} // verus!
