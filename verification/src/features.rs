//! From a request to the features of a candidate and to its dependencies.

use crate::dependency::{Dependency, DependencyModel};
use crate::errors::{ActivateError, ActivateErrorModel};
use crate::options::{
    CliFeatures, RequestedFeatures, RequestedFeaturesModel, ResolveOpts, ResolveOptsModel,
};
use crate::package::{clone_names, clone_parent, has_name, Name, PackageId, PackageIdModel};
use crate::errors::FatalErrorModel;
use crate::requirement_laws::{
    all_sound, closed_under, covers, done_in, feature_of, feature_set, lemma_expand_covers,
    lemma_expand_least, lemma_expand_sound, lemma_expand_succeeds, lemma_push_tidy,
    lemma_self_listed_first, lemma_walk_tidy, lists_itself, task_feature, tasks_within, tidy,
};
use crate::requirements::{
    classify, expand, lemma_expand_done, lemma_expand_step, ReqModel, RequirementError,
    RequirementErrorModel, Requirements, Task,
};
use crate::summary::{find_entry, FeatureValueModel, Summary, SummaryModel};
use std::rc::Rc;
use vstd::prelude::*;

verus! {

/// The name of the feature that is on unless the request turns it off.
pub open spec fn default_name() -> Name {
    "default"@
}

/// The task for the default feature, where the request uses it and the
/// package defines it.
pub open spec fn default_tasks(s: SummaryModel, uses_default_features: bool) -> Seq<Task> {
    if uses_default_features && s.defines(default_name()) {
        seq![Task::Require(FeatureValueModel::Feature(default_name()))]
    } else {
        Seq::empty()
    }
}

/// A task for every entry of the feature table, in its order.
pub open spec fn all_feature_tasks(s: SummaryModel) -> Seq<Task> {
    Seq::new(
        s.features.len(),
        |i: int| Task::Require(FeatureValueModel::Feature(s.features[i].0)),
    )
}

/// A task for each of the values, in order.
pub open spec fn value_tasks(values: Seq<FeatureValueModel>) -> Seq<Task> {
    Seq::new(values.len(), |i: int| Task::Require(values[i]))
}

/// A task for each of the features named, in order.
pub open spec fn name_tasks(names: Seq<Name>) -> Seq<Task> {
    Seq::new(names.len(), |i: int| Task::Require(FeatureValueModel::Feature(names[i])))
}

/// The tasks that a request starts with: every feature of the package
/// where all are asked for, then what the request lists, then the default
/// feature.
pub open spec fn initial_tasks(s: SummaryModel, requested: RequestedFeaturesModel) -> Seq<Task> {
    match requested {
        RequestedFeaturesModel::CliFeatures { features, all_features, uses_default_features } => {
            (if all_features {
                all_feature_tasks(s)
            } else {
                Seq::empty()
            }) + value_tasks(features) + default_tasks(s, uses_default_features)
        },
        RequestedFeaturesModel::DepFeatures { features, uses_default_features } => name_tasks(
            features,
        ) + default_tasks(s, uses_default_features),
    }
}

/// What the request `opts` requires of the package `s`.
pub open spec fn requirements_of(s: SummaryModel, opts: ResolveOptsModel) -> Result<
    ReqModel,
    RequirementErrorModel,
> {
    expand(s, ReqModel::empty(), initial_tasks(s, opts.features))
}

/// Requires the default feature, where the request uses it and the
/// package defines it.
fn handle_default<'a>(
    uses_default_features: bool,
    reqs: &mut Requirements<'a>,
) -> (r: Result<(), RequirementError>)
    ensures
        final(reqs).summary == old(reqs).summary,
        match r {
            Ok(()) => expand(
                old(reqs).summary.deep_view(),
                old(reqs).deep_view(),
                default_tasks(old(reqs).summary.deep_view(), uses_default_features),
            ) == Ok::<ReqModel, RequirementErrorModel>(final(reqs).deep_view()),
            Err(e) => expand(
                old(reqs).summary.deep_view(),
                old(reqs).deep_view(),
                default_tasks(old(reqs).summary.deep_view(), uses_default_features),
            ) == Err::<ReqModel, RequirementErrorModel>(e.deep_view()),
        },
{
    let default = String::from_str("default");
    if uses_default_features && reqs.summary.find_feature(&default).is_some() {
        reqs.require_feature(default)
    } else {
        proof {
            lemma_expand_done(reqs.summary.deep_view(), reqs.deep_view());
        }
        Ok(())
    }
}

/// Takes the features asked for in `opts` and follows them through the
/// feature table of `s`, to the features and dependencies they turn on.
pub fn build_requirements<'a>(parent: Option<PackageId>, s: &'a Summary, opts: &ResolveOpts) -> (r:
    Result<Requirements<'a>, ActivateError>)
    ensures
        match r {
            Ok(reqs) => reqs.summary == s && requirements_of(s.deep_view(), opts.deep_view())
                == Ok::<ReqModel, RequirementErrorModel>(reqs.deep_view()),
            Err(e) => requirements_of(s.deep_view(), opts.deep_view()) matches Err(cause)
                && e.deep_view() == classify(cause, parent.deep_view(), s.deep_view()),
        },
{
    let mut reqs = Requirements::new(s);
    let ghost sm = s.deep_view();
    let ghost tasks = initial_tasks(sm, opts.deep_view().features);
    let ghost start = ReqModel::empty();
    assert(tasks.skip(0) =~= tasks);
    match &opts.features {
        RequestedFeatures::CliFeatures(
            CliFeatures { features, all_features, uses_default_features },
        ) => {
            let ghost first = if *all_features {
                all_feature_tasks(sm)
            } else {
                Seq::empty()
            };
            let ghost second = value_tasks(features.deep_view());
            let ghost third = default_tasks(sm, *uses_default_features);
            assert(tasks == first + second + third);
            if *all_features {
                let mut i: usize = 0;
                while i < s.features.len()
                    invariant
                        i <= s.features.len(),
                        reqs.summary == s,
                        sm == s.deep_view(),
                        first == all_feature_tasks(sm),
                        tasks == first + second + third,
                        tasks == initial_tasks(sm, opts.deep_view().features),
                        start == ReqModel::empty(),
                        expand(sm, start, tasks) == expand(sm, reqs.deep_view(), tasks.skip(i as int)),
                    decreases s.features.len() - i,
                {
                    let ghost queue = tasks.skip(i as int);
                    assert(queue[0] == first[i as int]);
                    assert(sm.features[i as int].0 == s.features[i as int].0@);
                    assert(queue.drop_first() =~= tasks.skip(i as int + 1));
                    proof {
                        lemma_expand_step(sm, reqs.deep_view(), queue);
                    }
                    match reqs.require_feature(s.features[i].0.clone()) {
                        Err(e) => {
                            return Err(e.into_activate_error(parent, s));
                        },
                        Ok(()) => {},
                    }
                    i += 1;
                }
            }
            let ghost base = first.len() as int;
            let mut i: usize = 0;
            while i < features.len()
                invariant
                    i <= features.len(),
                    reqs.summary == s,
                    sm == s.deep_view(),
                    base == first.len(),
                    second == value_tasks(features.deep_view()),
                    tasks == first + second + third,
                    tasks == initial_tasks(sm, opts.deep_view().features),
                    start == ReqModel::empty(),
                    expand(sm, start, tasks) == expand(
                        sm,
                        reqs.deep_view(),
                        tasks.skip(base + i as int),
                    ),
                decreases features.len() - i,
            {
                let ghost queue = tasks.skip(base + i as int);
                assert(queue[0] == second[i as int]);
                assert(features.deep_view()[i as int] == features[i as int].deep_view());
                assert(queue.drop_first() =~= tasks.skip(base + i as int + 1));
                proof {
                    lemma_expand_step(sm, reqs.deep_view(), queue);
                }
                match reqs.require_value(&features[i]) {
                    Err(e) => {
                        return Err(e.into_activate_error(parent, s));
                    },
                    Ok(()) => {},
                }
                i += 1;
            }
            assert(tasks.skip(base + features.len() as int) =~= third);
            match handle_default(*uses_default_features, &mut reqs) {
                Err(e) => {
                    return Err(e.into_activate_error(parent, s));
                },
                Ok(()) => {},
            }
        },
        RequestedFeatures::DepFeatures { features, uses_default_features } => {
            let ghost second = name_tasks(features.deep_view());
            let ghost third = default_tasks(sm, *uses_default_features);
            assert(tasks == second + third);
            let mut i: usize = 0;
            while i < features.len()
                invariant
                    i <= features.len(),
                    reqs.summary == s,
                    sm == s.deep_view(),
                    second == name_tasks(features.deep_view()),
                    tasks == second + third,
                    tasks == initial_tasks(sm, opts.deep_view().features),
                    start == ReqModel::empty(),
                    expand(sm, start, tasks) == expand(sm, reqs.deep_view(), tasks.skip(i as int)),
                decreases features.len() - i,
            {
                let ghost queue = tasks.skip(i as int);
                assert(queue[0] == second[i as int]);
                assert(features.deep_view()[i as int] == features[i as int]@);
                assert(queue.drop_first() =~= tasks.skip(i as int + 1));
                proof {
                    lemma_expand_step(sm, reqs.deep_view(), queue);
                }
                match reqs.require_feature(features[i].clone()) {
                    Err(e) => {
                        return Err(e.into_activate_error(parent, s));
                    },
                    Ok(()) => {},
                }
                i += 1;
            }
            assert(tasks.skip(features.len() as int) =~= third);
            match handle_default(*uses_default_features, &mut reqs) {
                Err(e) => {
                    return Err(e.into_activate_error(parent, s));
                },
                Ok(()) => {},
            }
        },
    }
    Ok(reqs)
}

/// Whether the dependency `d` is activated: it is no development
/// dependency, or those are asked for; and it is required, or some feature
/// requires it.
pub open spec fn wanted(reqs: ReqModel, dev_deps: bool) -> spec_fn(DependencyModel) -> bool {
    |d: DependencyModel| (d.is_transitive() || dev_deps) && (!d.optional || reqs.has_dep(d.name_in_toml))
}

/// The names of `base`, then those of `extra` that are not there yet.
pub open spec fn merged(base: Seq<Name>, extra: Seq<Name>) -> Seq<Name>
    decreases extra.len(),
{
    if extra.len() == 0 {
        base
    } else {
        let front = merged(base, extra.drop_last());
        if front.contains(extra.last()) {
            front
        } else {
            front.push(extra.last())
        }
    }
}

/// The dependency `d` with the features wanted of it: those that the
/// features of the package ask for, then those that its declaration lists.
pub open spec fn with_features(reqs: ReqModel) -> spec_fn(DependencyModel) -> (
    DependencyModel,
    Seq<Name>,
) {
    |d: DependencyModel| (d, merged(reqs.dep_features(d.name_in_toml), d.features))
}

/// The dependencies that are activated, in the order of their declaration,
/// each with the features wanted of it.
pub open spec fn emitted(s: SummaryModel, reqs: ReqModel, dev_deps: bool) -> Seq<
    (DependencyModel, Seq<Name>),
> {
    s.dependencies.filter(wanted(reqs, dev_deps)).map_values(with_features(reqs))
}

/// Whether an activated dependency is declared under `name`.
pub open spec fn known_dependency(
    s: SummaryModel,
    reqs: ReqModel,
    dev_deps: bool,
    name: Name,
) -> bool {
    exists|i: int|
        0 <= i < s.dependencies.len() && wanted(reqs, dev_deps)(#[trigger] s.dependencies[i])
            && s.dependencies[i].name_in_toml == name
}

/// The place of the first required dependency at or after `from` that no
/// activated dependency is declared as, or the number of required
/// dependencies.
pub open spec fn first_unknown(s: SummaryModel, reqs: ReqModel, dev_deps: bool, from: int) -> int
    decreases reqs.deps.len() - from,
{
    if from < 0 || from >= reqs.deps.len() {
        reqs.deps.len() as int
    } else if !known_dependency(s, reqs, dev_deps, reqs.deps[from].0) {
        from
    } else {
        first_unknown(s, reqs, dev_deps, from + 1)
    }
}

/// The features that the candidate `s` ends up with under the request
/// `opts`, and the dependencies that it activates.
///
/// A failed expansion is reported as [`classify`] says. For the root
/// package, which has no parent, a required dependency that is not among
/// the activated ones is an error: the first such, in the order in which
/// they were required.
pub open spec fn resolved(
    parent: Option<PackageIdModel>,
    s: SummaryModel,
    opts: ResolveOptsModel,
) -> Result<(Seq<Name>, Seq<(DependencyModel, Seq<Name>)>), ActivateErrorModel> {
    match requirements_of(s, opts) {
        Err(e) => Err(classify(e, parent, s)),
        Ok(reqs) => {
            let k = first_unknown(s, reqs, opts.dev_deps, 0);
            if parent is None && k < reqs.deps.len() {
                Err(classify(RequirementErrorModel::MissingDependency(reqs.deps[k].0), parent, s))
            } else {
                Ok((reqs.features, emitted(s, reqs, opts.dev_deps)))
            }
        },
    }
}

/// The features that a candidate ends up with are features that it
/// defines, and none of them lists itself.
pub proof fn lemma_used_features_sound(
    parent: Option<PackageIdModel>,
    s: SummaryModel,
    opts: ResolveOptsModel,
)
    ensures
        resolved(parent, s, opts) matches Ok(out) ==> forall|f: Name| #[trigger]
            out.0.contains(f) ==> s.defines(f) && !lists_itself(s, f),
{
    lemma_expand_sound(s, ReqModel::empty(), initial_tasks(s, opts.features));
}

/// The requirements of a request hold all that the request asks for,
/// and all that the definitions of the features seen ask for.
pub proof fn lemma_requirements_cover(s: SummaryModel, opts: ResolveOptsModel)
    ensures
        requirements_of(s, opts) matches Ok(reqs) ==> covers(
            s,
            ReqModel::empty(),
            initial_tasks(s, opts.features),
            reqs,
        ),
{
    lemma_expand_covers(s, ReqModel::empty(), initial_tasks(s, opts.features));
}

/// The features that a candidate ends up with hold every feature that the
/// request turns on, and with each feature those that its definition
/// turns on.
pub proof fn lemma_used_features_closed(
    parent: Option<PackageIdModel>,
    s: SummaryModel,
    opts: ResolveOptsModel,
)
    ensures
        resolved(parent, s, opts) matches Ok(out) ==> tasks_within(
            s,
            initial_tasks(s, opts.features),
            feature_set(out.0),
        ) && closed_under(s, feature_set(out.0)),
{
    lemma_requirements_cover(s, opts);
    if let Ok(out) = resolved(parent, s, opts) {
        let reqs = requirements_of(s, opts)->Ok_0;
        let tasks = initial_tasks(s, opts.features);
        let c = feature_set(out.0);
        assert forall|i: int| 0 <= i < tasks.len() implies (task_feature(
            s,
            #[trigger] tasks[i],
        ) matches Some(g) ==> c.contains(g)) by {
            assert(done_in(s, reqs, tasks[i]));
        }
        assert forall|f: Name, i: int|
            #![trigger c.contains(f), s.definition(f)[i]]
            c.contains(f) && 0 <= i < s.definition(f).len() implies (
        feature_of(s, s.definition(f)[i]) matches Some(g) ==> c.contains(
            g,
        )) by {
            assert(reqs.features.contains(f));
            assert(!ReqModel::empty().features.contains(f));
            assert(done_in(s, reqs, Task::Require(s.definition(f)[i])));
        }
    }
}

/// The features that a candidate ends up with are the fewest possible:
/// they lie in every set that holds the features that the request turns on
/// and, with each feature, those that its definition turns on.
pub proof fn lemma_used_features_least(
    parent: Option<PackageIdModel>,
    s: SummaryModel,
    opts: ResolveOptsModel,
    c: Set<Name>,
)
    requires
        tasks_within(s, initial_tasks(s, opts.features), c),
        closed_under(s, c),
    ensures
        resolved(parent, s, opts) matches Ok(out) ==> forall|f: Name| #[trigger]
            out.0.contains(f) ==> c.contains(f),
{
    lemma_expand_least(s, ReqModel::empty(), initial_tasks(s, opts.features), c);
}

/// When the features expand: exactly when some set holds the features
/// that the request turns on, is closed under the definitions, and holds
/// only features that the package defines and that do not list themselves.
pub proof fn lemma_requirements_succeed(s: SummaryModel, opts: ResolveOptsModel)
    ensures
        requirements_of(s, opts) is Ok <==> exists|c: Set<Name>|
            #![trigger closed_under(s, c)]
            tasks_within(s, initial_tasks(s, opts.features), c) && closed_under(s, c)
                && all_sound(s, c),
{
    let tasks = initial_tasks(s, opts.features);
    if let Ok(reqs) = requirements_of(s, opts) {
        let c = feature_set(reqs.features);
        lemma_expand_sound(s, ReqModel::empty(), tasks);
        lemma_expand_covers(s, ReqModel::empty(), tasks);
        assert forall|i: int| 0 <= i < tasks.len() implies (task_feature(
            s,
            #[trigger] tasks[i],
        ) matches Some(g) ==> c.contains(g)) by {
            assert(done_in(s, reqs, tasks[i]));
        }
        assert forall|f: Name, i: int|
            #![trigger c.contains(f), s.definition(f)[i]]
            c.contains(f) && 0 <= i < s.definition(f).len() implies (
        feature_of(s, s.definition(f)[i]) matches Some(g) ==> c.contains(
            g,
        )) by {
            assert(reqs.features.contains(f));
            assert(!ReqModel::empty().features.contains(f));
            assert(done_in(s, reqs, Task::Require(s.definition(f)[i])));
        }
        assert(closed_under(s, c));
        assert(all_sound(s, c));
    }
    if exists|c: Set<Name>|
        #![trigger closed_under(s, c)]
        tasks_within(s, tasks, c) && closed_under(s, c) && all_sound(s, c) {
        let c = choose|c: Set<Name>|
            #![trigger closed_under(s, c)]
            tasks_within(s, tasks, c) && closed_under(s, c) && all_sound(s, c);
        assert forall|i: int| 0 <= i < tasks.len() implies !(#[trigger] tasks[i] is Cycle) by {
            match opts.features {
                RequestedFeaturesModel::CliFeatures {
                    features,
                    all_features,
                    uses_default_features,
                } => {
                    let first = if all_features {
                        all_feature_tasks(s)
                    } else {
                        Seq::empty()
                    };
                    let second = value_tasks(features);
                    let third = default_tasks(s, uses_default_features);
                    if i < first.len() {
                        assert(tasks[i] == first[i]);
                    } else if i < first.len() + second.len() {
                        assert(tasks[i] == second[i - first.len()]);
                    } else {
                        assert(tasks[i] == third[i - first.len() - second.len()]);
                    }
                },
                RequestedFeaturesModel::DepFeatures { features, uses_default_features } => {
                    let second = name_tasks(features);
                    let third = default_tasks(s, uses_default_features);
                    if i < second.len() {
                        assert(tasks[i] == second[i]);
                    } else {
                        assert(tasks[i] == third[i - second.len()]);
                    }
                },
            }
        }
        lemma_expand_succeeds(s, ReqModel::empty(), tasks, c);
    }
}

/// Merging names into a list without names twice gives such a list.
pub proof fn lemma_merged_tidy(base: Seq<Name>, extra: Seq<Name>)
    requires
        base.no_duplicates(),
    ensures
        merged(base, extra).no_duplicates(),
    decreases extra.len(),
{
    if extra.len() > 0 {
        lemma_merged_tidy(base, extra.drop_last());
        let front = merged(base, extra.drop_last());
        if !front.contains(extra.last()) {
            lemma_push_tidy(front, extra.last());
        }
    }
}

/// No name occurs twice among the features that a candidate ends up
/// with, nor among the features wanted of one of its dependencies.
pub proof fn lemma_resolved_tidy(
    parent: Option<PackageIdModel>,
    s: SummaryModel,
    opts: ResolveOptsModel,
)
    ensures
        resolved(parent, s, opts) matches Ok(out) ==> out.0.no_duplicates() && forall|i: int|
            0 <= i < out.1.len() ==> (#[trigger] out.1[i]).1.no_duplicates(),
{
    if let Ok(out) = resolved(parent, s, opts) {
        let reqs = requirements_of(s, opts)->Ok_0;
        assert(Seq::<Name>::empty().no_duplicates());
        assert(tidy(ReqModel::empty()));
        lemma_walk_tidy(s, ReqModel::empty(), initial_tasks(s, opts.features));
        let chosen = s.dependencies.filter(wanted(reqs, opts.dev_deps));
        assert forall|i: int| 0 <= i < out.1.len() implies (#[trigger] out.1[i]).1.no_duplicates() by {
            let d = chosen[i];
            assert(out.1[i] == with_features(reqs)(d));
            if reqs.has_dep(d.name_in_toml) {
                crate::summary::lemma_first_entry(reqs.deps, d.name_in_toml, 0);
            }
            lemma_merged_tidy(reqs.dep_features(d.name_in_toml), d.features);
        }
    }
}

/// Every required dependency from `from` on is declared by an activated
/// dependency, where none is found that is not.
pub proof fn lemma_all_known(s: SummaryModel, reqs: ReqModel, dev_deps: bool, from: int)
    requires
        0 <= from <= reqs.deps.len(),
        first_unknown(s, reqs, dev_deps, from) >= reqs.deps.len(),
    ensures
        forall|k: int|
            from <= k < reqs.deps.len() ==> known_dependency(
                s,
                reqs,
                dev_deps,
                (#[trigger] reqs.deps[k]).0,
            ),
    decreases reqs.deps.len() - from,
{
    if from < reqs.deps.len() {
        lemma_all_known(s, reqs, dev_deps, from + 1);
    }
}

/// Where the root package is expanded, each dependency that its features
/// require is one that the package declares and that is activated.
pub proof fn lemma_root_dependencies_known(s: SummaryModel, opts: ResolveOptsModel)
    ensures
        resolved(None, s, opts) is Ok ==> (requirements_of(s, opts) matches Ok(reqs)
            && forall|k: int|
            0 <= k < reqs.deps.len() ==> known_dependency(
                s,
                reqs,
                opts.dev_deps,
                (#[trigger] reqs.deps[k]).0,
            )),
{
    if resolved(None, s, opts) is Ok {
        let reqs = requirements_of(s, opts)->Ok_0;
        lemma_all_known(s, reqs, opts.dev_deps, 0);
    }
}

/// Asking a package for a feature whose definition begins with the
/// feature itself is a fatal error that names the feature, whoever asks.
pub proof fn lemma_self_listed_is_fatal(
    parent: Option<PackageIdModel>,
    s: SummaryModel,
    f: Name,
    dev_deps: bool,
    uses_default_features: bool,
)
    requires
        s.defines(f),
        s.definition(f).len() > 0,
        s.definition(f)[0] == FeatureValueModel::Feature(f),
    ensures
        resolved(
            parent,
            s,
            ResolveOptsModel {
                dev_deps,
                features: RequestedFeaturesModel::CliFeatures {
                    features: seq![FeatureValueModel::Feature(f)],
                    all_features: false,
                    uses_default_features,
                },
            },
        ) == Err::<(Seq<Name>, Seq<(DependencyModel, Seq<Name>)>), ActivateErrorModel>(
            ActivateErrorModel::Fatal(FatalErrorModel::FeatureCycle { feature: f }),
        ),
        resolved(
            parent,
            s,
            ResolveOptsModel {
                dev_deps,
                features: RequestedFeaturesModel::DepFeatures {
                    features: seq![f],
                    uses_default_features,
                },
            },
        ) == Err::<(Seq<Name>, Seq<(DependencyModel, Seq<Name>)>), ActivateErrorModel>(
            ActivateErrorModel::Fatal(FatalErrorModel::FeatureCycle { feature: f }),
        ),
{
    let rest = default_tasks(s, uses_default_features);
    let task = seq![Task::Require(FeatureValueModel::Feature(f))];
    assert(value_tasks(seq![FeatureValueModel::Feature(f)]) =~= task);
    assert(name_tasks(seq![f]) =~= task);
    assert(Seq::<Task>::empty() + task + rest =~= task + rest);
    lemma_self_listed_first(s, ReqModel::empty(), f, rest);
}

/// The features wanted of the dependency `dep`.
fn features_for(reqs: &Requirements<'_>, dep: &Dependency) -> (r: Vec<String>)
    ensures
        r.deep_view() == with_features(reqs.deep_view())(dep.deep_view()).1,
{
    let ghost extra = dep.features.deep_view();
    let mut base = match find_entry(&reqs.deps, &dep.name_in_toml) {
        Some(i) => {
            assert(reqs.deps.deep_view()[i as int].1 == reqs.deps[i as int].1.deep_view());
            clone_names(&reqs.deps[i].1)
        },
        None => {
            let v: Vec<String> = Vec::new();
            assert(v.deep_view() =~= Seq::<Name>::empty());
            v
        },
    };
    let ghost start = base.deep_view();
    assert(extra.take(0) =~= Seq::<Name>::empty());
    let mut k: usize = 0;
    while k < dep.features.len()
        invariant
            k <= dep.features.len(),
            extra == dep.features.deep_view(),
            base.deep_view() == merged(start, extra.take(k as int)),
        decreases dep.features.len() - k,
    {
        let ghost was = base.deep_view();
        assert(extra.take(k as int + 1).drop_last() =~= extra.take(k as int));
        assert(extra.take(k as int + 1).last() == dep.features[k as int]@);
        if !has_name(&base, &dep.features[k]) {
            base.push(dep.features[k].clone());
            assert(base.deep_view() =~= was.push(dep.features[k as int]@));
        }
        k += 1;
    }
    assert(extra.take(extra.len() as int) =~= extra);
    base
}

/// Returns the features that the candidate ends up using, and its
/// dependencies with the features wanted of each.
pub fn resolve_features(parent: Option<PackageId>, s: &Summary, opts: &ResolveOpts) -> (r: Result<
    (Vec<String>, Vec<(Dependency, Rc<Vec<String>>)>),
    ActivateError,
>)
    ensures
        match r {
            Ok(out) => resolved(parent.deep_view(), s.deep_view(), opts.deep_view()) == Ok::<
                (Seq<Name>, Seq<(DependencyModel, Seq<Name>)>),
                ActivateErrorModel,
            >((out.0.deep_view(), out.1.deep_view())),
            Err(e) => resolved(parent.deep_view(), s.deep_view(), opts.deep_view()) == Err::<
                (Seq<Name>, Seq<(DependencyModel, Seq<Name>)>),
                ActivateErrorModel,
            >(e.deep_view()),
        },
        r matches Ok(out) ==> out.0.deep_view().no_duplicates() && forall|i: int|
            0 <= i < out.1.len() ==> (#[trigger] out.1.deep_view()[i]).1.no_duplicates(),
{
    let reqs = match build_requirements(clone_parent(&parent), s, opts) {
        Ok(reqs) => reqs,
        Err(e) => {
            return Err(e);
        },
    };
    let ghost sm = s.deep_view();
    let ghost rm = reqs.deep_view();
    let ghost deps = sm.dependencies;
    let ghost pred = wanted(rm, opts.dev_deps);
    let ghost give = with_features(rm);
    let mut ret: Vec<(Dependency, Rc<Vec<String>>)> = Vec::new();
    let mut valid_dep_names: Vec<String> = Vec::new();
    proof {
        reveal(Seq::filter);
        assert(deps.take(0) =~= Seq::<DependencyModel>::empty());
        assert(deps.take(0).filter(pred) =~= Seq::<DependencyModel>::empty());
        assert(ret.deep_view() =~= deps.take(0).filter(pred).map_values(give));
    }
    // Collect the dependencies that are activated, and their features.
    let mut i: usize = 0;
    while i < s.dependencies.len()
        invariant
            i <= s.dependencies.len(),
            sm == s.deep_view(),
            deps == sm.dependencies,
            rm == reqs.deep_view(),
            pred == wanted(rm, opts.dev_deps),
            give == with_features(rm),
            ret.deep_view() == deps.take(i as int).filter(pred).map_values(give),
            forall|name: Name|
                valid_dep_names.deep_view().contains(name) <==> exists|j: int|
                    0 <= j < i && pred(#[trigger] deps[j]) && deps[j].name_in_toml == name,
        decreases s.dependencies.len() - i,
    {
        let dep = &s.dependencies[i];
        let ghost d = deps[i as int];
        let ghost was = ret.deep_view();
        let ghost names = valid_dep_names.deep_view();
        assert(d == dep.deep_view());
        assert(deps.take(i as int + 1) =~= deps.take(i as int).push(d));
        proof {
            deps.take(i as int).lemma_filter_push(d, pred);
        }
        let required = find_entry(&reqs.deps, &dep.name_in_toml).is_some();
        if (dep.is_transitive() || opts.dev_deps) && (!dep.is_optional() || required) {
            valid_dep_names.push(dep.name_in_toml.clone());
            let base = features_for(&reqs, dep);
            ret.push((dep.clone(), Rc::new(base)));
            proof {
                let kept = deps.take(i as int).filter(pred);
                assert(ret.deep_view() =~= was.push(give(d)));
                assert(kept.push(d).map_values(give) =~= kept.map_values(give).push(give(d)));
                let grown = valid_dep_names.deep_view();
                assert(grown =~= names.push(d.name_in_toml));
                assert forall|name: Name| grown.contains(name) <==> exists|j: int|
                    0 <= j < i + 1 && pred(#[trigger] deps[j]) && deps[j].name_in_toml
                        == name by {
                    if grown.contains(name) {
                        let k = choose|k: int| 0 <= k < grown.len() && grown[k] == name;
                        if k < names.len() {
                            assert(names[k] == name);
                            assert(names.contains(name));
                        } else {
                            assert(pred(deps[i as int]) && deps[i as int].name_in_toml == name);
                        }
                    }
                    if exists|j: int|
                        0 <= j < i + 1 && pred(#[trigger] deps[j]) && deps[j].name_in_toml
                            == name {
                        let j = choose|j: int|
                            0 <= j < i + 1 && pred(#[trigger] deps[j]) && deps[j].name_in_toml
                                == name;
                        if j < i {
                            assert(names.contains(name));
                            let k = choose|k: int| 0 <= k < names.len() && names[k] == name;
                            assert(grown[k] == name);
                        } else {
                            assert(grown[names.len() as int] == name);
                        }
                    }
                }
            }
        } else {
            proof {
                assert forall|name: Name| names.contains(name) <==> exists|j: int|
                    0 <= j < i + 1 && pred(#[trigger] deps[j]) && deps[j].name_in_toml
                        == name by {
                    if exists|j: int|
                        0 <= j < i + 1 && pred(#[trigger] deps[j]) && deps[j].name_in_toml
                            == name {
                        let j = choose|j: int|
                            0 <= j < i + 1 && pred(#[trigger] deps[j]) && deps[j].name_in_toml
                                == name;
                        assert(j < i);
                    }
                }
            }
        }
        i += 1;
    }
    assert(deps.take(deps.len() as int) =~= deps);
    // A feature asked of the root package may name a dependency that it
    // does not have.
    if parent.is_none() {
        let mut k: usize = 0;
        while k < reqs.deps.len()
            invariant
                k <= reqs.deps.len(),
                sm == s.deep_view(),
                deps == sm.dependencies,
                rm == reqs.deep_view(),
                pred == wanted(rm, opts.dev_deps),
                parent is None,
                requirements_of(sm, opts.deep_view()) == Ok::<ReqModel, RequirementErrorModel>(rm),
                first_unknown(sm, rm, opts.dev_deps, 0) == first_unknown(
                    sm,
                    rm,
                    opts.dev_deps,
                    k as int,
                ),
                forall|name: Name|
                    valid_dep_names.deep_view().contains(name) <==> exists|j: int|
                        0 <= j < deps.len() && pred(#[trigger] deps[j]) && deps[j].name_in_toml
                            == name,
            decreases reqs.deps.len() - k,
        {
            let dep_name = &reqs.deps[k].0;
            assert(rm.deps[k as int].0 == dep_name@);
            if !has_name(&valid_dep_names, dep_name) {
                let e = RequirementError::MissingDependency(dep_name.clone());
                return Err(e.into_activate_error(parent, s));
            }
            assert(known_dependency(sm, rm, opts.dev_deps, dep_name@));
            k += 1;
        }
    }
    proof {
        lemma_resolved_tidy(parent.deep_view(), s.deep_view(), opts.deep_view());
        let out = resolved(parent.deep_view(), s.deep_view(), opts.deep_view())->Ok_0;
        assert(out == (rm.features, ret.deep_view()));
        assert forall|i: int| 0 <= i < ret.len() implies (
        #[trigger] ret.deep_view()[i]).1.no_duplicates() by {
            assert(out.1[i].1.no_duplicates());
        }
    }
    Ok((reqs.into_features(), ret))
}

} // verus!
