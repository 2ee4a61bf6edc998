//! The features and dependencies that a request turns on in a package.
//!
//! Expansion is a walk through the package's feature table. A list of
//! tasks is worked off from the front: a feature not seen before is noted
//! and the entries of its definition are put in front of the list; a
//! dependency or a feature of a dependency is noted. The walk ends with the
//! first feature that the package does not define, or that lists itself.

use crate::errors::{
    ActivateError, ActivateErrorModel, ConflictReason, ConflictReasonModel, FatalError,
    FatalErrorModel,
};
use crate::package::{has_name, Name, PackageId, PackageIdModel};
use crate::summary::{
    find_entry, first_entry, lemma_first_entry, FeatureValue,
    FeatureValueModel, Summary, SummaryModel,
};
use vstd::prelude::*;

verus! {

/// The model of what has been required so far: the dependencies, each
/// with the features wanted of it, in the order in which they were first
/// required, and the features of the package itself, in the order in which
/// they were first seen.
pub struct ReqModel {
    pub deps: Seq<(Name, Seq<Name>)>,
    pub features: Seq<Name>,
}

impl ReqModel {
    /// Nothing required.
    pub open spec fn empty() -> ReqModel {
        ReqModel { deps: Seq::empty(), features: Seq::empty() }
    }

    /// The feature `f` has been seen.
    pub open spec fn visit(self, f: Name) -> ReqModel {
        ReqModel { features: self.features.push(f), ..self }
    }

    /// Whether the dependency `name` is required.
    pub open spec fn has_dep(self, name: Name) -> bool {
        first_entry(self.deps, name, 0) < self.deps.len()
    }

    /// The features wanted of the dependency `name`; none if it is not
    /// required.
    pub open spec fn dep_features(self, name: Name) -> Seq<Name> {
        if self.has_dep(name) {
            self.deps[first_entry(self.deps, name, 0)].1
        } else {
            Seq::empty()
        }
    }

    /// The dependency `name` is required, with no feature more than before.
    pub open spec fn require_dependency(self, name: Name) -> ReqModel {
        if self.has_dep(name) {
            self
        } else {
            ReqModel { deps: self.deps.push((name, Seq::empty())), ..self }
        }
    }

    /// The dependency `name` is required with the feature `feat`.
    pub open spec fn add_dep_feature(self, name: Name, feat: Name) -> ReqModel {
        let i = first_entry(self.deps, name, 0);
        if i < self.deps.len() {
            if self.deps[i].1.contains(feat) {
                self
            } else {
                ReqModel { deps: self.deps.update(i, (name, self.deps[i].1.push(feat))), ..self }
            }
        } else {
            ReqModel { deps: self.deps.push((name, seq![feat])), ..self }
        }
    }
}

/// The model of a [`RequirementError`].
pub enum RequirementErrorModel {
    MissingFeature(Name),
    MissingDependency(Name),
    Cycle(Name),
}

/// One step that an expansion has still to take.
pub enum Task {
    /// Require a feature value.
    Require(FeatureValueModel),
    /// Fail, because the feature lists itself.
    Cycle(Name),
    /// Note a feature of a dependency.
    Enable { dep_name: Name, dep_feature: Name },
}

/// The tasks that the definition of `feature` gives rise to: one for each
/// entry, in order. An entry that names `feature` itself is a failure.
pub open spec fn tasks_of(feature: Name, definition: Seq<FeatureValueModel>) -> Seq<Task> {
    Seq::new(
        definition.len(),
        |i: int|
            if definition[i] == FeatureValueModel::Feature(feature) {
                Task::Cycle(feature)
            } else {
                Task::Require(definition[i])
            },
    )
}

/// How many of the first `n` entries of the feature table are for a
/// feature not in `visited`.
pub open spec fn unvisited_upto(
    table: Seq<(Name, Seq<FeatureValueModel>)>,
    visited: Seq<Name>,
    n: nat,
) -> nat
    decreases n,
{
    if n == 0 {
        0
    } else {
        unvisited_upto(table, visited, (n - 1) as nat) + if visited.contains(table[n - 1].0) {
            0nat
        } else {
            1nat
        }
    }
}

/// How many entries of the feature table are for a feature not yet seen.
pub open spec fn unvisited(s: SummaryModel, visited: Seq<Name>) -> nat {
    unvisited_upto(s.features, visited, s.features.len())
}

/// Seeing more features leaves no more entries unvisited, and fewer if one
/// of the entries is for a feature newly seen.
pub proof fn lemma_unvisited_upto(
    table: Seq<(Name, Seq<FeatureValueModel>)>,
    before: Seq<Name>,
    after: Seq<Name>,
    n: nat,
)
    requires
        n <= table.len(),
        forall|x: Name| before.contains(x) ==> after.contains(x),
    ensures
        unvisited_upto(table, after, n) <= unvisited_upto(table, before, n),
        (exists|k: int|
            0 <= k < n && !before.contains((#[trigger] table[k]).0) && after.contains(table[k].0))
            ==> unvisited_upto(table, after, n) < unvisited_upto(table, before, n),
    decreases n,
{
    if n > 0 {
        lemma_unvisited_upto(table, before, after, (n - 1) as nat);
        if exists|k: int|
            0 <= k < n && !before.contains((#[trigger] table[k]).0) && after.contains(table[k].0) {
            let k = choose|k: int|
                0 <= k < n && !before.contains((#[trigger] table[k]).0) && after.contains(
                    table[k].0,
                );
            if k < n - 1 {
                assert(0 <= k < n - 1 && !before.contains(table[k].0) && after.contains(
                    table[k].0,
                ));
            }
        }
    }
}

/// Seeing a defined feature for the first time leaves fewer entries
/// unvisited.
pub proof fn lemma_visit_decreases(s: SummaryModel, visited: Seq<Name>, f: Name)
    requires
        s.defines(f),
        !visited.contains(f),
    ensures
        unvisited(s, visited.push(f)) < unvisited(s, visited),
{
    let after = visited.push(f);
    assert(after[visited.len() as int] == f);
    assert forall|x: Name| visited.contains(x) implies after.contains(x) by {
        let i = choose|i: int| 0 <= i < visited.len() && visited[i] == x;
        assert(after[i] == x);
    }
    let k = choose|k: int| 0 <= k < s.features.len() && (#[trigger] s.features[k]).0 == f;
    assert(!visited.contains(s.features[k].0) && after.contains(s.features[k].0));
    lemma_unvisited_upto(s.features, visited, after, s.features.len());
}

/// Whether requiring a feature of the dependency `name` turns on the
/// feature of that name: the request is not weak, the package has an
/// optional dependency of that name, and it defines a feature of that
/// name.
pub open spec fn enables_feature(s: SummaryModel, name: Name, weak: bool) -> bool {
    !weak && s.has_optional_dependency(name) && s.defines(name)
}

/// The outcome of working off the tasks `queue` from the state `st`.
pub open spec fn expand(s: SummaryModel, st: ReqModel, queue: Seq<Task>) -> Result<
    ReqModel,
    RequirementErrorModel,
>
    decreases unvisited(s, st.features), queue.len(),
    via expand_decreases
{
    if queue.len() == 0 {
        Ok(st)
    } else {
        let rest = queue.drop_first();
        match queue[0] {
            Task::Cycle(f) => Err(RequirementErrorModel::Cycle(f)),
            Task::Enable { dep_name, dep_feature } => expand(
                s,
                st.add_dep_feature(dep_name, dep_feature),
                rest,
            ),
            Task::Require(FeatureValueModel::Dep { dep_name }) => expand(
                s,
                st.require_dependency(dep_name),
                rest,
            ),
            Task::Require(FeatureValueModel::Feature(f)) => {
                if st.features.contains(f) {
                    expand(s, st, rest)
                } else if !s.defines(f) {
                    Err(RequirementErrorModel::MissingFeature(f))
                } else {
                    expand(s, st.visit(f), tasks_of(f, s.definition(f)) + rest)
                }
            },
            Task::Require(FeatureValueModel::DepFeature { dep_name, dep_feature, weak }) => {
                if enables_feature(s, dep_name, weak) && !st.features.contains(dep_name) {
                    expand(
                        s,
                        st.visit(dep_name),
                        tasks_of(dep_name, s.definition(dep_name)) + seq![
                            Task::Enable { dep_name, dep_feature },
                        ] + rest,
                    )
                } else {
                    expand(s, st.add_dep_feature(dep_name, dep_feature), rest)
                }
            },
        }
    }
}

#[via_fn]
proof fn expand_decreases(s: SummaryModel, st: ReqModel, queue: Seq<Task>) {
    assert forall|f: Name| s.defines(f) && !st.features.contains(f) implies unvisited(
        s,
        #[trigger] st.features.push(f),
    ) < unvisited(s, st.features) by {
        lemma_visit_decreases(s, st.features, f);
    }
}

/// The state in which the walk through `queue` from `st` ends: where all
/// tasks are worked off, or where it fails. A feature that the package
/// does not define is noted as seen before the failure shows.
pub open spec fn halt(s: SummaryModel, st: ReqModel, queue: Seq<Task>) -> ReqModel
    decreases unvisited(s, st.features), queue.len(),
    via halt_decreases
{
    if queue.len() == 0 {
        st
    } else {
        let rest = queue.drop_first();
        match queue[0] {
            Task::Cycle(f) => st,
            Task::Enable { dep_name, dep_feature } => halt(
                s,
                st.add_dep_feature(dep_name, dep_feature),
                rest,
            ),
            Task::Require(FeatureValueModel::Dep { dep_name }) => halt(
                s,
                st.require_dependency(dep_name),
                rest,
            ),
            Task::Require(FeatureValueModel::Feature(f)) => {
                if st.features.contains(f) {
                    halt(s, st, rest)
                } else if !s.defines(f) {
                    st.visit(f)
                } else {
                    halt(s, st.visit(f), tasks_of(f, s.definition(f)) + rest)
                }
            },
            Task::Require(FeatureValueModel::DepFeature { dep_name, dep_feature, weak }) => {
                if enables_feature(s, dep_name, weak) && !st.features.contains(dep_name) {
                    halt(
                        s,
                        st.visit(dep_name),
                        tasks_of(dep_name, s.definition(dep_name)) + seq![
                            Task::Enable { dep_name, dep_feature },
                        ] + rest,
                    )
                } else {
                    halt(s, st.add_dep_feature(dep_name, dep_feature), rest)
                }
            },
        }
    }
}

#[via_fn]
proof fn halt_decreases(s: SummaryModel, st: ReqModel, queue: Seq<Task>) {
    assert forall|f: Name| s.defines(f) && !st.features.contains(f) implies unvisited(
        s,
        #[trigger] st.features.push(f),
    ) < unvisited(s, st.features) by {
        lemma_visit_decreases(s, st.features, f);
    }
}

/// Where the walk succeeds, it ends in the state that it comes to.
pub proof fn lemma_halt_ok(s: SummaryModel, st: ReqModel, queue: Seq<Task>)
    ensures
        expand(s, st, queue) matches Ok(end) ==> halt(s, st, queue) == end,
    decreases unvisited(s, st.features), queue.len(),
{
    if queue.len() > 0 {
        let rest = queue.drop_first();
        match queue[0] {
            Task::Cycle(f) => {},
            Task::Enable { dep_name, dep_feature } => {
                lemma_halt_ok(s, st.add_dep_feature(dep_name, dep_feature), rest);
            },
            Task::Require(FeatureValueModel::Dep { dep_name }) => {
                lemma_halt_ok(s, st.require_dependency(dep_name), rest);
            },
            Task::Require(FeatureValueModel::Feature(f)) => {
                if st.features.contains(f) {
                    lemma_halt_ok(s, st, rest);
                } else if s.defines(f) {
                    lemma_visit_decreases(s, st.features, f);
                    lemma_halt_ok(s, st.visit(f), tasks_of(f, s.definition(f)) + rest);
                }
            },
            Task::Require(FeatureValueModel::DepFeature { dep_name, dep_feature, weak }) => {
                if enables_feature(s, dep_name, weak) && !st.features.contains(dep_name) {
                    lemma_visit_decreases(s, st.features, dep_name);
                    lemma_halt_ok(
                        s,
                        st.visit(dep_name),
                        tasks_of(dep_name, s.definition(dep_name)) + seq![
                            Task::Enable { dep_name, dep_feature },
                        ] + rest,
                    );
                } else {
                    lemma_halt_ok(s, st.add_dep_feature(dep_name, dep_feature), rest);
                }
            },
        }
    }
}

/// Working off two lists of tasks one after the other is working off the
/// first and then, from where that ends, the second; where the first
/// fails, the walk ends there.
pub proof fn lemma_expand_split(s: SummaryModel, st: ReqModel, first: Seq<Task>, second: Seq<Task>)
    ensures
        expand(s, st, first + second) == match expand(s, st, first) {
            Ok(mid) => expand(s, mid, second),
            Err(e) => Err(e),
        },
        halt(s, st, first + second) == match expand(s, st, first) {
            Ok(mid) => halt(s, mid, second),
            Err(e) => halt(s, st, first),
        },
    decreases unvisited(s, st.features), first.len(),
{
    if first.len() == 0 {
        assert(first + second =~= second);
    } else {
        let queue = first + second;
        let rest = first.drop_first();
        assert(queue[0] == first[0]);
        assert(queue.drop_first() =~= rest + second);
        match first[0] {
            Task::Cycle(f) => {},
            Task::Enable { dep_name, dep_feature } => {
                lemma_expand_split(s, st.add_dep_feature(dep_name, dep_feature), rest, second);
            },
            Task::Require(FeatureValueModel::Dep { dep_name }) => {
                lemma_expand_split(s, st.require_dependency(dep_name), rest, second);
            },
            Task::Require(FeatureValueModel::Feature(f)) => {
                if st.features.contains(f) {
                    lemma_expand_split(s, st, rest, second);
                } else if s.defines(f) {
                    lemma_visit_decreases(s, st.features, f);
                    let front = tasks_of(f, s.definition(f));
                    assert(front + (rest + second) =~= (front + rest) + second);
                    lemma_expand_split(s, st.visit(f), front + rest, second);
                }
            },
            Task::Require(FeatureValueModel::DepFeature { dep_name, dep_feature, weak }) => {
                if enables_feature(s, dep_name, weak) && !st.features.contains(dep_name) {
                    lemma_visit_decreases(s, st.features, dep_name);
                    let front = tasks_of(dep_name, s.definition(dep_name)) + seq![
                        Task::Enable { dep_name, dep_feature },
                    ];
                    assert(front + (rest + second) =~= (front + rest) + second);
                    lemma_expand_split(s, st.visit(dep_name), front + rest, second);
                } else {
                    lemma_expand_split(s, st.add_dep_feature(dep_name, dep_feature), rest, second);
                }
            },
        }
    }
}

/// With no task left the expansion ends where it stands.
pub proof fn lemma_expand_done(s: SummaryModel, st: ReqModel)
    ensures
        expand(s, st, Seq::<Task>::empty()) == Ok::<ReqModel, RequirementErrorModel>(st),
        halt(s, st, Seq::<Task>::empty()) == st,
{
}

/// Working off a list of tasks is working off its first task and then,
/// from where that ends, the others.
pub proof fn lemma_expand_step(s: SummaryModel, st: ReqModel, queue: Seq<Task>)
    requires
        queue.len() > 0,
    ensures
        expand(s, st, queue) == match expand(s, st, seq![queue[0]]) {
            Ok(mid) => expand(s, mid, queue.drop_first()),
            Err(e) => Err(e),
        },
        halt(s, st, queue) == match expand(s, st, seq![queue[0]]) {
            Ok(mid) => halt(s, mid, queue.drop_first()),
            Err(e) => halt(s, st, seq![queue[0]]),
        },
{
    assert(queue =~= seq![queue[0]] + queue.drop_first());
    lemma_expand_split(s, st, seq![queue[0]], queue.drop_first());
}

/// Why an expansion failed, before it is known on whose behalf.
#[derive(Clone, Debug, PartialEq, Eq)]
pub enum RequirementError {
    /// The package does not define the feature.
    MissingFeature(String),
    /// The package has no dependency of the name.
    MissingDependency(String),
    /// The feature lists itself. Cycles through several features are
    /// walked once and are no error.
    Cycle(String),
}

impl DeepView for RequirementError {
    type V = RequirementErrorModel;

    open spec fn deep_view(&self) -> RequirementErrorModel {
        match self {
            RequirementError::MissingFeature(f) => RequirementErrorModel::MissingFeature(f@),
            RequirementError::MissingDependency(d) => RequirementErrorModel::MissingDependency(d@),
            RequirementError::Cycle(f) => RequirementErrorModel::Cycle(f@),
        }
    }
}

/// The error that the resolver sees for a failed expansion of the package
/// `s`. For the root package, which has no parent, every failure is fatal.
/// For another package a missing feature or dependency is a conflict with
/// its parent. A feature that lists itself is always fatal.
pub open spec fn classify(
    e: RequirementErrorModel,
    parent: Option<PackageIdModel>,
    s: SummaryModel,
) -> ActivateErrorModel {
    match e {
        RequirementErrorModel::MissingFeature(feature) => {
            if !s.has_dependency(feature) {
                match parent {
                    None => ActivateErrorModel::Fatal(
                        FatalErrorModel::MissingFeature { package_id: s.package_id, feature },
                    ),
                    Some(p) => ActivateErrorModel::Conflict(
                        p,
                        ConflictReasonModel::MissingFeatures(feature),
                    ),
                }
            } else if s.has_optional_dependency(feature) {
                match parent {
                    None => ActivateErrorModel::Fatal(
                        FatalErrorModel::NonImplicitDependencyAsFeature {
                            package_id: s.package_id,
                            feature,
                        },
                    ),
                    Some(p) => ActivateErrorModel::Conflict(
                        p,
                        ConflictReasonModel::NonImplicitDependencyAsFeature(feature),
                    ),
                }
            } else {
                match parent {
                    None => ActivateErrorModel::Fatal(
                        FatalErrorModel::RequiredDependencyAsFeature {
                            package_id: s.package_id,
                            feature,
                        },
                    ),
                    Some(p) => ActivateErrorModel::Conflict(
                        p,
                        ConflictReasonModel::RequiredDependencyAsFeature(feature),
                    ),
                }
            }
        },
        RequirementErrorModel::MissingDependency(dep_name) => match parent {
            None => ActivateErrorModel::Fatal(
                FatalErrorModel::MissingDependency { package_id: s.package_id, dep_name },
            ),
            Some(p) => ActivateErrorModel::Conflict(
                p,
                ConflictReasonModel::MissingFeatures(dep_name),
            ),
        },
        RequirementErrorModel::Cycle(feature) => ActivateErrorModel::Fatal(
            FatalErrorModel::FeatureCycle { feature },
        ),
    }
}

impl RequirementError {
    /// Turns the failure into the error that the resolver sees.
    pub fn into_activate_error(self, parent: Option<PackageId>, summary: &Summary) -> (r:
        ActivateError)
        ensures
            r.deep_view() == classify(self.deep_view(), parent.deep_view(), summary.deep_view()),
    {
        match self {
            RequirementError::MissingFeature(feat) => {
                let (named, optional) = summary.dependency_named(&feat);
                if !named {
                    return match parent {
                        None => ActivateError::Fatal(
                            FatalError::MissingFeature {
                                package_id: summary.package_id.clone(),
                                feature: feat,
                            },
                        ),
                        Some(p) => ActivateError::Conflict(p, ConflictReason::MissingFeatures(feat)),
                    };
                }
                if optional {
                    match parent {
                        None => ActivateError::Fatal(
                            FatalError::NonImplicitDependencyAsFeature {
                                package_id: summary.package_id.clone(),
                                feature: feat,
                            },
                        ),
                        Some(p) => ActivateError::Conflict(
                            p,
                            ConflictReason::NonImplicitDependencyAsFeature(feat),
                        ),
                    }
                } else {
                    match parent {
                        None => ActivateError::Fatal(
                            FatalError::RequiredDependencyAsFeature {
                                package_id: summary.package_id.clone(),
                                feature: feat,
                            },
                        ),
                        Some(p) => ActivateError::Conflict(
                            p,
                            ConflictReason::RequiredDependencyAsFeature(feat),
                        ),
                    }
                }
            },
            RequirementError::MissingDependency(dep_name) => {
                match parent {
                    None => ActivateError::Fatal(
                        FatalError::MissingDependency {
                            package_id: summary.package_id.clone(),
                            dep_name,
                        },
                    ),
                    Some(p) => ActivateError::Conflict(p, ConflictReason::MissingFeatures(dep_name)),
                }
            },
            RequirementError::Cycle(feat) => ActivateError::Fatal(
                FatalError::FeatureCycle { feature: feat },
            ),
        }
    }
}

/// What has been required of a package so far.
#[derive(Debug)]
pub struct Requirements<'a> {
    pub summary: &'a Summary,
    /// The dependencies to activate, each with the features to enable in it.
    pub deps: Vec<(String, Vec<String>)>,
    /// The features enabled in the package itself.
    pub features: Vec<String>,
}

impl<'a> DeepView for Requirements<'a> {
    type V = ReqModel;

    open spec fn deep_view(&self) -> ReqModel {
        ReqModel { deps: self.deps.deep_view(), features: self.features.deep_view() }
    }
}

/// What a step of an expansion has to establish: it ends as working off
/// `queue` from the state before it does, in the state in which that walk
/// ends, be it with a failure.
pub open spec fn step_post(
    s: SummaryModel,
    before: ReqModel,
    queue: Seq<Task>,
    r: Result<(), RequirementError>,
    after: ReqModel,
) -> bool {
    &&& after == halt(s, before, queue)
    &&& match r {
        Ok(()) => expand(s, before, queue) == Ok::<ReqModel, RequirementErrorModel>(after)
            && unvisited(s, after.features) <= unvisited(s, before.features),
        Err(e) => expand(s, before, queue) == Err::<ReqModel, RequirementErrorModel>(
            e.deep_view(),
        ),
    }
}

impl<'a> Requirements<'a> {
    pub fn new(summary: &'a Summary) -> (r: Requirements<'a>)
        ensures
            r.summary == summary,
            r.deep_view() == ReqModel::empty(),
    {
        let r = Requirements { summary, deps: Vec::new(), features: Vec::new() };
        assert(r.deps.deep_view() =~= Seq::empty());
        assert(r.features.deep_view() =~= Seq::empty());
        r
    }

    pub fn into_features(self) -> (r: Vec<String>)
        ensures
            r.deep_view() == self.deep_view().features,
    {
        self.features
    }

    /// Notes that the feature `feat` of the dependency `package` is wanted.
    fn add_dep_feature(&mut self, package: String, feat: String)
        ensures
            final(self).summary == old(self).summary,
            final(self).deep_view() == old(self).deep_view().add_dep_feature(package@, feat@),
            final(self).features == old(self).features,
    {
        let ghost before = self.deps.deep_view();
        proof {
            lemma_first_entry(before, package@, 0);
        }
        match find_entry(&self.deps, &package) {
            Some(i) => {
                assert(before[i as int] == (self.deps[i as int].0@, self.deps[i as int].1.deep_view()));
                if !has_name(&self.deps[i].1, &feat) {
                    let mut entry = self.deps.remove(i);
                    let ghost wanted = entry.1.deep_view();
                    let mut names = entry.1;
                    names.push(feat);
                    assert(names.deep_view() =~= wanted.push(feat@));
                    self.deps.insert(i, (entry.0, names));
                    assert(self.deps.deep_view() =~= before.update(
                        i as int,
                        (package@, wanted.push(feat@)),
                    ));
                }
            },
            None => {
                let mut names: Vec<String> = Vec::new();
                names.push(feat);
                assert(names.deep_view() =~= seq![feat@]);
                self.deps.push((package, names));
                assert(self.deps.deep_view() =~= before.push((package@, seq![feat@])));
            },
        }
    }

    /// Requires the dependency `pkg`, with no feature of it.
    pub fn require_dependency(&mut self, pkg: String)
        ensures
            final(self).summary == old(self).summary,
            final(self).deep_view() == old(self).deep_view().require_dependency(pkg@),
            final(self).features == old(self).features,
    {
        let ghost before = self.deps.deep_view();
        match find_entry(&self.deps, &pkg) {
            Some(_) => {},
            None => {
                let names: Vec<String> = Vec::new();
                assert(names.deep_view() =~= Seq::<Name>::empty());
                self.deps.push((pkg, names));
                assert(self.deps.deep_view() =~= before.push((pkg@, Seq::<Name>::empty())));
            },
        }
    }

    /// Requires the feature `feat` of the dependency `package`. Unless the
    /// request is weak, this turns on the feature named `package` where
    /// that is an optional dependency with a feature of its name.
    pub fn require_dep_feature(&mut self, package: String, feat: String, weak: bool) -> (r: Result<
        (),
        RequirementError,
    >)
        ensures
            final(self).summary == old(self).summary,
            step_post(
                old(self).summary.deep_view(),
                old(self).deep_view(),
                seq![
                    Task::Require(
                        FeatureValueModel::DepFeature {
                            dep_name: package@,
                            dep_feature: feat@,
                            weak,
                        },
                    ),
                ],
                r,
                final(self).deep_view(),
            ),
        decreases unvisited(old(self).summary.deep_view(), old(self).deep_view().features), 1nat,
    {
        let ghost s = self.summary.deep_view();
        let ghost before = self.deep_view();
        let ghost task = Task::Require(
            FeatureValueModel::DepFeature { dep_name: package@, dep_feature: feat@, weak },
        );
        assert(seq![task].drop_first() =~= Seq::<Task>::empty());
        if !weak {
            let (_, optional) = self.summary.dependency_named(&package);
            if optional {
                if self.summary.find_feature(&package).is_some() {
                    let ghost front = tasks_of(package@, s.definition(package@));
                    let ghost enable = seq![
                        Task::Enable { dep_name: package@, dep_feature: feat@ },
                    ];
                    proof {
                        lemma_expand_done(s, before);
                        if !before.features.contains(package@) {
                            let inner = seq![Task::Require(FeatureValueModel::Feature(package@))];
                            assert(inner.drop_first() =~= Seq::<Task>::empty());
                            assert(front + Seq::<Task>::empty() =~= front);
                            assert(front + enable + Seq::<Task>::empty() =~= front + enable);
                            lemma_visit_decreases(s, before.features, package@);
                            lemma_expand_split(s, before.visit(package@), front, enable);
                            assert(enable.drop_first() =~= Seq::<Task>::empty());
                        } else {
                            let inner = seq![Task::Require(FeatureValueModel::Feature(package@))];
                            assert(inner.drop_first() =~= Seq::<Task>::empty());
                        }
                    }
                    match self.require_feature(package.clone()) {
                        Err(e) => {
                            return Err(e);
                        },
                        Ok(()) => {},
                    }
                    proof {
                        lemma_expand_done(
                            s,
                            self.deep_view().add_dep_feature(package@, feat@),
                        );
                    }
                }
            }
        }
        self.add_dep_feature(package, feat);
        proof {
            lemma_expand_done(s, self.deep_view());
        }
        Ok(())
    }

    /// Requires the feature `feat` of the package, and with it all that
    /// its definition lists. A feature seen before is passed over.
    pub fn require_feature(&mut self, feat: String) -> (r: Result<(), RequirementError>)
        ensures
            final(self).summary == old(self).summary,
            step_post(
                old(self).summary.deep_view(),
                old(self).deep_view(),
                seq![Task::Require(FeatureValueModel::Feature(feat@))],
                r,
                final(self).deep_view(),
            ),
        decreases unvisited(old(self).summary.deep_view(), old(self).deep_view().features), 0nat,
    {
        let ghost s = self.summary.deep_view();
        let ghost before = self.deep_view();
        let ghost task = Task::Require(FeatureValueModel::Feature(feat@));
        assert(seq![task].drop_first() =~= Seq::<Task>::empty());
        if has_name(&self.features, &feat) {
            // Already seen this feature.
            proof {
                lemma_expand_done(s, before);
            }
            return Ok(());
        }
        self.features.push(feat.clone());
        assert(self.features.deep_view() =~= before.features.push(feat@));
        let summary = self.summary;
        let at = match summary.find_feature(&feat) {
            Some(i) => i,
            None => {
                return Err(RequirementError::MissingFeature(feat));
            },
        };
        let fvs = &summary.features[at].1;
        let ghost tasks = tasks_of(feat@, s.definition(feat@));
        proof {
            lemma_visit_decreases(s, before.features, feat@);
            assert(s.features[at as int] == summary.features[at as int].deep_view());
            assert(s.definition(feat@) == fvs.deep_view());
            assert(tasks + Seq::<Task>::empty() =~= tasks);
            assert(tasks.skip(0) =~= tasks);
        }
        let mut i: usize = 0;
        while i < fvs.len()
            invariant
                i <= fvs.len(),
                self.summary == old(self).summary,
                s == self.summary.deep_view(),
                tasks == tasks_of(feat@, fvs.deep_view()),
                unvisited(s, self.deep_view().features) < unvisited(s, before.features),
                before == old(self).deep_view(),
                expand(s, before, seq![Task::Require(FeatureValueModel::Feature(feat@))]) == expand(
                    s,
                    self.deep_view(),
                    tasks.skip(i as int),
                ),
                halt(s, before, seq![Task::Require(FeatureValueModel::Feature(feat@))]) == halt(
                    s,
                    self.deep_view(),
                    tasks.skip(i as int),
                ),
            decreases fvs.len() - i,
        {
            let fv = &fvs[i];
            let ghost now = self.deep_view();
            let ghost queue = tasks.skip(i as int);
            assert(queue[0] == tasks[i as int]);
            assert(fvs.deep_view()[i as int] == fv.deep_view());
            assert(queue.drop_first() =~= tasks.skip(i as int + 1));
            proof {
                lemma_expand_step(s, now, queue);
            }
            if let FeatureValue::Feature(dep_feat) = fv {
                if *dep_feat == feat {
                    return Err(RequirementError::Cycle(feat));
                }
            }
            assert(queue[0] == Task::Require(fv.deep_view()));
            match self.require_value(fv) {
                Err(e) => {
                    return Err(e);
                },
                Ok(()) => {},
            }
            i += 1;
        }
        assert(tasks.skip(fvs.len() as int) =~= Seq::<Task>::empty());
        proof {
            lemma_expand_done(s, self.deep_view());
        }
        Ok(())
    }

    /// Requires what the feature value `fv` stands for.
    pub fn require_value(&mut self, fv: &FeatureValue) -> (r: Result<(), RequirementError>)
        ensures
            final(self).summary == old(self).summary,
            step_post(
                old(self).summary.deep_view(),
                old(self).deep_view(),
                seq![Task::Require(fv.deep_view())],
                r,
                final(self).deep_view(),
            ),
        decreases unvisited(old(self).summary.deep_view(), old(self).deep_view().features), 2nat,
    {
        assert(seq![Task::Require(fv.deep_view())].drop_first() =~= Seq::<Task>::empty());
        match fv {
            FeatureValue::Feature(feat) => self.require_feature(feat.clone()),
            FeatureValue::Dep { dep_name } => {
                self.require_dependency(dep_name.clone());
                proof {
                    lemma_expand_done(self.summary.deep_view(), self.deep_view());
                }
                Ok(())
            },
            FeatureValue::DepFeature { dep_name, dep_feature, weak } => self.require_dep_feature(
                dep_name.clone(),
                dep_feature.clone(),
                *weak,
            ),
        }
    }
}

} // verus!
