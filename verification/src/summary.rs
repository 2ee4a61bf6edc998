//! A summary: what a registry publishes about one version of a package.

use crate::dependency::{Dependency, DependencyModel};
use crate::package::{Name, PackageId, PackageIdModel, PartialVersion, SourceId, Version};
use vstd::prelude::*;

verus! {

/// One entry in the definition of a feature.
#[derive(Debug, PartialEq, Eq, Hash)]
pub enum FeatureValue {
    /// Another feature of the same package.
    Feature(String),
    /// An optional dependency, enabled without any feature of it.
    Dep { dep_name: String },
    /// A feature of a dependency. A weak one does not enable the dependency.
    DepFeature { dep_name: String, dep_feature: String, weak: bool },
}

/// The model of a [`FeatureValue`].
pub enum FeatureValueModel {
    Feature(Name),
    Dep { dep_name: Name },
    DepFeature { dep_name: Name, dep_feature: Name, weak: bool },
}

impl DeepView for FeatureValue {
    type V = FeatureValueModel;

    open spec fn deep_view(&self) -> FeatureValueModel {
        match self {
            FeatureValue::Feature(f) => FeatureValueModel::Feature(f@),
            FeatureValue::Dep { dep_name } => FeatureValueModel::Dep { dep_name: dep_name@ },
            FeatureValue::DepFeature { dep_name, dep_feature, weak } => {
                FeatureValueModel::DepFeature {
                    dep_name: dep_name@,
                    dep_feature: dep_feature@,
                    weak: *weak,
                }
            },
        }
    }
}

impl Clone for FeatureValue {
    fn clone(&self) -> (r: Self)
        ensures
            r.deep_view() == self.deep_view(),
    {
        match self {
            FeatureValue::Feature(f) => FeatureValue::Feature(f.clone()),
            FeatureValue::Dep { dep_name } => FeatureValue::Dep { dep_name: dep_name.clone() },
            FeatureValue::DepFeature { dep_name, dep_feature, weak } => FeatureValue::DepFeature {
                dep_name: dep_name.clone(),
                dep_feature: dep_feature.clone(),
                weak: *weak,
            },
        }
    }
}

impl FeatureValue {
    pub fn feature(name: &str) -> (r: FeatureValue)
        ensures
            r.deep_view() == FeatureValueModel::Feature(name@),
    {
        FeatureValue::Feature(String::from_str(name))
    }

    pub fn dep(dep_name: &str) -> (r: FeatureValue)
        ensures
            r.deep_view() == (FeatureValueModel::Dep { dep_name: dep_name@ }),
    {
        FeatureValue::Dep { dep_name: String::from_str(dep_name) }
    }

    pub fn dep_feature(dep_name: &str, dep_feature: &str, weak: bool) -> (r: FeatureValue)
        ensures
            r.deep_view() == (FeatureValueModel::DepFeature {
                dep_name: dep_name@,
                dep_feature: dep_feature@,
                weak,
            }),
    {
        FeatureValue::DepFeature {
            dep_name: String::from_str(dep_name),
            dep_feature: String::from_str(dep_feature),
            weak,
        }
    }

    /// Equality by model.
    pub fn same(&self, other: &FeatureValue) -> (r: bool)
        ensures
            r == (self.deep_view() == other.deep_view()),
    {
        match (self, other) {
            (FeatureValue::Feature(a), FeatureValue::Feature(b)) => *a == *b,
            (FeatureValue::Dep { dep_name: a }, FeatureValue::Dep { dep_name: b }) => *a == *b,
            (
                FeatureValue::DepFeature { dep_name: a, dep_feature: fa, weak: wa },
                FeatureValue::DepFeature { dep_name: b, dep_feature: fb, weak: wb },
            ) => *a == *b && *fa == *fb && *wa == *wb,
            _ => false,
        }
    }
}

/// A deep copy of a list of feature values.
pub fn clone_values(v: &Vec<FeatureValue>) -> (r: Vec<FeatureValue>)
    ensures
        r.deep_view() == v.deep_view(),
{
    let mut out: Vec<FeatureValue> = Vec::new();
    let mut i: usize = 0;
    while i < v.len()
        invariant
            i <= v.len(),
            out.len() == i,
            forall|j: int| 0 <= j < i ==> out[j].deep_view() == v[j].deep_view(),
        decreases v.len() - i,
    {
        out.push(v[i].clone());
        i += 1;
    }
    assert(out.deep_view() =~= v.deep_view());
    out
}

/// Equality of two lists of feature values, by model.
pub fn same_values(a: &Vec<FeatureValue>, b: &Vec<FeatureValue>) -> (r: bool)
    ensures
        r == (a.deep_view() == b.deep_view()),
{
    if a.len() != b.len() {
        assert(a.deep_view().len() != b.deep_view().len());
        return false;
    }
    let mut i: usize = 0;
    while i < a.len()
        invariant
            i <= a.len(),
            a.len() == b.len(),
            forall|j: int| 0 <= j < i ==> a[j].deep_view() == b[j].deep_view(),
        decreases a.len() - i,
    {
        if !a[i].same(&b[i]) {
            assert(a.deep_view()[i as int] != b.deep_view()[i as int]);
            return false;
        }
        i += 1;
    }
    assert(a.deep_view() =~= b.deep_view());
    true
}

/// The published record of one package version. The feature table lists
/// each feature with its definition; where a name occurs twice, the first
/// entry counts.
#[derive(Clone, Debug, PartialEq, Eq)]
pub struct Summary {
    pub package_id: PackageId,
    pub dependencies: Vec<Dependency>,
    pub features: Vec<(String, Vec<FeatureValue>)>,
    pub rust_version: Option<PartialVersion>,
}

/// The model of a [`Summary`].
pub struct SummaryModel {
    pub package_id: PackageIdModel,
    pub dependencies: Seq<DependencyModel>,
    pub features: Seq<(Name, Seq<FeatureValueModel>)>,
    pub rust_version: Option<PartialVersion>,
}

impl SummaryModel {
    /// The place of the first entry for `name` in the feature table, or the
    /// table's length if there is none.
    pub open spec fn feature_index(self, name: Name) -> int {
        first_entry(self.features, name, 0)
    }

    /// Whether the feature table defines `name`.
    pub open spec fn defines(self, name: Name) -> bool {
        exists|i: int| 0 <= i < self.features.len() && (#[trigger] self.features[i]).0 == name
    }

    /// The definition of `name`: the values of its first entry.
    pub open spec fn definition(self, name: Name) -> Seq<FeatureValueModel> {
        self.features[self.feature_index(name)].1
    }

    /// Whether some dependency is declared under `name`.
    pub open spec fn has_dependency(self, name: Name) -> bool {
        exists|i: int|
            0 <= i < self.dependencies.len() && (#[trigger] self.dependencies[i]).name_in_toml
                == name
    }

    /// Whether some optional dependency is declared under `name`.
    pub open spec fn has_optional_dependency(self, name: Name) -> bool {
        exists|i: int|
            0 <= i < self.dependencies.len() && (#[trigger] self.dependencies[i]).name_in_toml
                == name && self.dependencies[i].optional
    }
}

/// The least index at or after `from` whose entry is keyed by `name`, or
/// the length of `table`.
pub open spec fn first_entry<V>(table: Seq<(Name, V)>, name: Name, from: int) -> int
    decreases table.len() - from,
{
    if from < 0 || from >= table.len() {
        table.len() as int
    } else if table[from].0 == name {
        from
    } else {
        first_entry(table, name, from + 1)
    }
}

/// `first_entry` finds the first entry of the name, if there is any.
pub proof fn lemma_first_entry<V>(table: Seq<(Name, V)>, name: Name, from: int)
    requires
        0 <= from <= table.len(),
    ensures
        from <= first_entry(table, name, from) <= table.len(),
        first_entry(table, name, from) < table.len() ==> table[first_entry(table, name, from)].0
            == name,
        forall|j: int| from <= j < first_entry(table, name, from) ==> (#[trigger] table[j]).0
            != name,
    decreases table.len() - from,
{
    if from < table.len() && table[from].0 != name {
        lemma_first_entry(table, name, from + 1);
    }
}

/// An entry keyed by `name` with no such entry before it is the first.
pub proof fn lemma_first_entry_at<V>(table: Seq<(Name, V)>, name: Name, at: int)
    requires
        0 <= at <= table.len(),
        at < table.len() ==> table[at].0 == name,
        forall|j: int| 0 <= j < at ==> (#[trigger] table[j]).0 != name,
    ensures
        first_entry(table, name, 0) == at,
{
    lemma_first_entry(table, name, 0);
    let r = first_entry(table, name, 0);
    if r < at {
        assert(table[r].0 != name);
    }
}

/// Finds the first entry of `table` that is keyed by `name`.
pub fn find_entry<V: DeepView>(table: &Vec<(String, V)>, name: &String) -> (r: Option<usize>)
    ensures
        match r {
            Some(i) => i < table.len() && i == first_entry(table.deep_view(), name@, 0),
            None => first_entry(table.deep_view(), name@, 0) == table.len(),
        },
{
    let ghost model = table.deep_view();
    let mut i: usize = 0;
    while i < table.len()
        invariant
            i <= table.len(),
            model == table.deep_view(),
            first_entry(model, name@, 0) == first_entry(model, name@, i as int),
        decreases table.len() - i,
    {
        assert(model[i as int].0 == table[i as int].0@);
        if table[i].0 == *name {
            return Some(i);
        }
        i += 1;
    }
    None
}

impl DeepView for Summary {
    type V = SummaryModel;

    open spec fn deep_view(&self) -> SummaryModel {
        SummaryModel {
            package_id: self.package_id.deep_view(),
            dependencies: self.dependencies.deep_view(),
            features: self.features.deep_view(),
            rust_version: self.rust_version,
        }
    }
}

impl Summary {
    pub fn new(
        package_id: PackageId,
        dependencies: Vec<Dependency>,
        features: Vec<(String, Vec<FeatureValue>)>,
        rust_version: Option<PartialVersion>,
    ) -> (r: Summary)
        ensures
            r.deep_view() == (SummaryModel {
                package_id: package_id.deep_view(),
                dependencies: dependencies.deep_view(),
                features: features.deep_view(),
                rust_version,
            }),
    {
        Summary { package_id, dependencies, features, rust_version }
    }

    pub fn package_id(&self) -> (r: &PackageId)
        ensures
            r.deep_view() == self.deep_view().package_id,
    {
        &self.package_id
    }

    pub fn name(&self) -> (r: &String)
        ensures
            r@ == self.deep_view().package_id.name,
    {
        &self.package_id.name
    }

    pub fn version(&self) -> (r: Version)
        ensures
            r == self.deep_view().package_id.version,
    {
        self.package_id.version
    }

    pub fn source_id(&self) -> (r: &SourceId)
        ensures
            r.deep_view() == self.deep_view().package_id.source,
    {
        &self.package_id.source_id
    }

    pub fn dependencies(&self) -> (r: &Vec<Dependency>)
        ensures
            r.deep_view() == self.deep_view().dependencies,
    {
        &self.dependencies
    }

    pub fn features(&self) -> (r: &Vec<(String, Vec<FeatureValue>)>)
        ensures
            r.deep_view() == self.deep_view().features,
    {
        &self.features
    }

    pub fn rust_version(&self) -> (r: Option<PartialVersion>)
        ensures
            r == self.deep_view().rust_version,
    {
        self.rust_version
    }

    /// The place of the first entry for `name` in the feature table.
    pub fn find_feature(&self, name: &String) -> (r: Option<usize>)
        ensures
            r is Some <==> self.deep_view().defines(name@),
            r matches Some(i) ==> i == self.deep_view().feature_index(name@) && i
                < self.features.len(),
    {
        let ghost table = self.features.deep_view();
        let mut i: usize = 0;
        while i < self.features.len()
            invariant
                i <= self.features.len(),
                table == self.features.deep_view(),
                first_entry(table, name@, 0) == first_entry(table, name@, i as int),
                forall|j: int| 0 <= j < i ==> (#[trigger] table[j]).0 != name@,
            decreases self.features.len() - i,
        {
            if self.features[i].0 == *name {
                assert(self.deep_view().features[i as int].0 == name@);
                return Some(i);
            }
            assert(table[i as int].0 != name@);
            i += 1;
        }
        None
    }

    /// Whether some dependency is declared under `name`, and whether some
    /// optional one is.
    pub fn dependency_named(&self, name: &String) -> (r: (bool, bool))
        ensures
            r.0 == self.deep_view().has_dependency(name@),
            r.1 == self.deep_view().has_optional_dependency(name@),
    {
        let ghost deps = self.dependencies.deep_view();
        let mut any = false;
        let mut any_optional = false;
        let mut i: usize = 0;
        while i < self.dependencies.len()
            invariant
                i <= self.dependencies.len(),
                deps == self.dependencies.deep_view(),
                any == (exists|j: int| 0 <= j < i && (#[trigger] deps[j]).name_in_toml == name@),
                any_optional == (exists|j: int|
                    0 <= j < i && (#[trigger] deps[j]).name_in_toml == name@ && deps[j].optional),
            decreases self.dependencies.len() - i,
        {
            if self.dependencies[i].name_in_toml == *name {
                assert(deps[i as int].name_in_toml == name@);
                any = true;
                if self.dependencies[i].optional {
                    any_optional = true;
                }
            }
            i += 1;
        }
        (any, any_optional)
    }
}

} // verus!
