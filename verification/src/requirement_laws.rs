//! What holds of every expansion.
//!
//! An expansion that succeeds has seen just the features that the request
//! and the definitions turn on: all of them, and no others. It succeeds
//! exactly where all those features are defined and none lists itself.

use crate::package::Name;
use crate::requirements::{
    enables_feature, expand, lemma_visit_decreases, tasks_of, unvisited, ReqModel,
    RequirementErrorModel, Task,
};
use crate::summary::{
    first_entry, lemma_first_entry, lemma_first_entry_at, FeatureValueModel, SummaryModel,
};
use vstd::prelude::*;

verus! {

/// The definition of the feature `f` has `f` itself among its entries.
pub open spec fn lists_itself(s: SummaryModel, f: Name) -> bool {
    s.definition(f).contains(FeatureValueModel::Feature(f))
}

/// Every feature seen so far is defined, and for each that lists itself
/// the failure is among the tasks still to come.
pub open spec fn failures_pending(s: SummaryModel, st: ReqModel, queue: Seq<Task>) -> bool {
    forall|f: Name| #[trigger]
        st.features.contains(f) ==> s.defines(f) && (lists_itself(s, f) ==> queue.contains(
            Task::Cycle(f),
        ))
}

/// An expansion that succeeds has seen only features that the package
/// defines and that do not list themselves.
pub proof fn lemma_expand_sound(s: SummaryModel, st: ReqModel, queue: Seq<Task>)
    requires
        failures_pending(s, st, queue),
    ensures
        expand(s, st, queue) matches Ok(end) ==> forall|f: Name| #[trigger]
            end.features.contains(f) ==> s.defines(f) && !lists_itself(s, f),
    decreases unvisited(s, st.features), queue.len(),
{
    if queue.len() == 0 {
        assert forall|f: Name| #[trigger] st.features.contains(f) implies s.defines(f)
            && !lists_itself(s, f) by {}
    } else {
        let rest = queue.drop_first();
        if !(queue[0] is Cycle) {
            assert forall|f: Name| queue.contains(Task::Cycle(f)) implies rest.contains(
                Task::Cycle(f),
            ) by {
                let i = choose|i: int| 0 <= i < queue.len() && queue[i] == Task::Cycle(f);
                assert(rest[i - 1] == Task::Cycle(f));
            }
        }
        match queue[0] {
            Task::Cycle(f) => {},
            Task::Enable { dep_name, dep_feature } => {
                lemma_expand_sound(s, st.add_dep_feature(dep_name, dep_feature), rest);
            },
            Task::Require(FeatureValueModel::Dep { dep_name }) => {
                lemma_expand_sound(s, st.require_dependency(dep_name), rest);
            },
            Task::Require(FeatureValueModel::Feature(f)) => {
                if st.features.contains(f) {
                    lemma_expand_sound(s, st, rest);
                } else if s.defines(f) {
                    lemma_visit_decreases(s, st.features, f);
                    lemma_visit_keeps_failures(s, st, f, Seq::empty(), rest);
                    let front = tasks_of(f, s.definition(f));
                    assert(front + Seq::<Task>::empty() + rest =~= front + rest);
                    lemma_expand_sound(s, st.visit(f), front + rest);
                }
            },
            Task::Require(FeatureValueModel::DepFeature { dep_name, dep_feature, weak }) => {
                if enables_feature(s, dep_name, weak) && !st.features.contains(dep_name) {
                    lemma_visit_decreases(s, st.features, dep_name);
                    let enable = seq![Task::Enable { dep_name, dep_feature }];
                    lemma_visit_keeps_failures(s, st, dep_name, enable, rest);
                    lemma_expand_sound(
                        s,
                        st.visit(dep_name),
                        tasks_of(dep_name, s.definition(dep_name)) + enable + rest,
                    );
                } else {
                    lemma_expand_sound(s, st.add_dep_feature(dep_name, dep_feature), rest);
                }
            },
        }
    }
}

/// Seeing a defined feature and putting the tasks of its definition in
/// front keeps every failure that is still to come.
proof fn lemma_visit_keeps_failures(
    s: SummaryModel,
    st: ReqModel,
    f: Name,
    middle: Seq<Task>,
    rest: Seq<Task>,
)
    requires
        s.defines(f),
        forall|g: Name| #[trigger]
            st.features.contains(g) ==> s.defines(g) && (lists_itself(s, g) ==> rest.contains(
                Task::Cycle(g),
            )),
    ensures
        failures_pending(s, st.visit(f), tasks_of(f, s.definition(f)) + middle + rest),
{
    let front = tasks_of(f, s.definition(f));
    let queue = front + middle + rest;
    let seen = st.visit(f).features;
    assert forall|g: Name| #[trigger] seen.contains(g) implies s.defines(g) && (lists_itself(s, g)
        ==> queue.contains(Task::Cycle(g))) by {
        let k = choose|k: int| 0 <= k < seen.len() && seen[k] == g;
        if k < st.features.len() {
            assert(st.features[k] == g);
            assert(st.features.contains(g));
            if lists_itself(s, g) {
                let i = choose|i: int| 0 <= i < rest.len() && rest[i] == Task::Cycle(g);
                assert(queue[front.len() + middle.len() + i] == Task::Cycle(g));
            }
        } else {
            assert(g == f);
            if lists_itself(s, f) {
                let d = s.definition(f);
                let i = choose|i: int| 0 <= i < d.len() && d[i] == FeatureValueModel::Feature(f);
                assert(front[i] == Task::Cycle(f));
                assert(queue[i] == Task::Cycle(f));
            }
        }
    }
}

/// Requiring a feature whose definition begins with the feature itself
/// fails, and the failure names that feature.
pub proof fn lemma_self_listed_first(s: SummaryModel, st: ReqModel, f: Name, rest: Seq<Task>)
    requires
        s.defines(f),
        !st.features.contains(f),
        s.definition(f).len() > 0,
        s.definition(f)[0] == FeatureValueModel::Feature(f),
    ensures
        expand(s, st, seq![Task::Require(FeatureValueModel::Feature(f))] + rest) == Err::<
            ReqModel,
            RequirementErrorModel,
        >(RequirementErrorModel::Cycle(f)),
{
    let queue = seq![Task::Require(FeatureValueModel::Feature(f))] + rest;
    let next = tasks_of(f, s.definition(f)) + queue.drop_first();
    assert(queue[0] == Task::Require(FeatureValueModel::Feature(f)));
    assert(next[0] == Task::Cycle(f));
    assert(expand(s, st, queue) == expand(s, st.visit(f), next));
    assert(expand(s, st.visit(f), next) == Err::<ReqModel, RequirementErrorModel>(
        RequirementErrorModel::Cycle(f),
    ));
}

/// Whatever `before` requires, `after` requires too.
pub open spec fn grows(before: ReqModel, after: ReqModel) -> bool {
    &&& forall|f: Name| #[trigger] before.features.contains(f) ==> after.features.contains(f)
    &&& forall|n: Name| #[trigger] before.has_dep(n) ==> after.has_dep(n)
    &&& forall|n: Name, x: Name| #[trigger]
        before.dep_features(n).contains(x) ==> after.dep_features(n).contains(x)
}

/// The feature of the package that a feature value turns on, if it turns
/// one on: the feature it names, or the feature named as the dependency of
/// which it requires a feature (see [`enables_feature`]).
pub open spec fn feature_of(s: SummaryModel, value: FeatureValueModel) -> Option<Name> {
    match value {
        FeatureValueModel::Feature(f) => Some(f),
        FeatureValueModel::Dep { dep_name } => None,
        FeatureValueModel::DepFeature { dep_name, dep_feature, weak } => if enables_feature(
            s,
            dep_name,
            weak,
        ) {
            Some(dep_name)
        } else {
            None
        },
    }
}

/// What the task asks for is required in `st`.
pub open spec fn done_in(s: SummaryModel, st: ReqModel, task: Task) -> bool {
    match task {
        Task::Cycle(_) => false,
        Task::Enable { dep_name, dep_feature } => st.has_dep(dep_name) && st.dep_features(
            dep_name,
        ).contains(dep_feature),
        Task::Require(value) => {
            &&& feature_of(s, value) matches Some(f) ==> st.features.contains(f)
            &&& value matches FeatureValueModel::Dep { dep_name } ==> st.has_dep(dep_name)
            &&& value matches FeatureValueModel::DepFeature { dep_name, dep_feature, weak }
                ==> st.has_dep(dep_name) && st.dep_features(dep_name).contains(dep_feature)
        },
    }
}

/// The expansion from `start` to `end` has done its work: nothing required
/// was lost, every task is done, and for every feature newly seen every
/// entry of its definition is done.
pub open spec fn covers(s: SummaryModel, start: ReqModel, queue: Seq<Task>, end: ReqModel) -> bool {
    &&& grows(start, end)
    &&& forall|i: int| 0 <= i < queue.len() ==> done_in(s, end, #[trigger] queue[i])
    &&& forall|f: Name, i: int|
        #![trigger end.features.contains(f), s.definition(f)[i]]
        end.features.contains(f) && !start.features.contains(f) && 0 <= i < s.definition(f).len()
            ==> done_in(s, end, Task::Require(s.definition(f)[i]))
}

/// Requiring a dependency loses nothing and requires it.
pub proof fn lemma_require_dependency_grows(st: ReqModel, name: Name)
    ensures
        grows(st, st.require_dependency(name)),
        st.require_dependency(name).has_dep(name),
{
    let after = st.require_dependency(name);
    if !st.has_dep(name) {
        lemma_first_entry(st.deps, name, 0);
        lemma_first_entry_at(after.deps, name, st.deps.len() as int);
        assert forall|n: Name| #[trigger] st.has_dep(n) implies after.has_dep(n)
            && after.dep_features(n) == st.dep_features(n) by {
            lemma_first_entry(st.deps, n, 0);
            lemma_first_entry_at(after.deps, n, first_entry(st.deps, n, 0));
        }
        assert forall|n: Name, x: Name| #[trigger]
            st.dep_features(n).contains(x) implies after.dep_features(n).contains(x) by {
            assert(st.has_dep(n));
        }
    }
}

/// Noting a feature of a dependency loses nothing and notes it.
pub proof fn lemma_add_dep_feature_grows(st: ReqModel, name: Name, feat: Name)
    ensures
        grows(st, st.add_dep_feature(name, feat)),
        st.add_dep_feature(name, feat).has_dep(name),
        st.add_dep_feature(name, feat).dep_features(name).contains(feat),
{
    let after = st.add_dep_feature(name, feat);
    let at = first_entry(st.deps, name, 0);
    lemma_first_entry(st.deps, name, 0);
    if at < st.deps.len() {
        if !st.deps[at].1.contains(feat) {
            let wanted = st.deps[at].1.push(feat);
            assert(wanted[st.deps[at].1.len() as int] == feat);
            assert forall|n: Name| first_entry(after.deps, n, 0) == first_entry(st.deps, n, 0) by {
                lemma_first_entry(st.deps, n, 0);
                lemma_first_entry_at(after.deps, n, first_entry(st.deps, n, 0));
            }
            assert forall|n: Name, x: Name| #[trigger]
                st.dep_features(n).contains(x) implies after.dep_features(n).contains(x) by {
                assert(st.has_dep(n));
                let k = first_entry(st.deps, n, 0);
                lemma_first_entry(st.deps, n, 0);
                lemma_first_entry_at(after.deps, n, k);
                assert(after.has_dep(n));
                if k == at {
                    let i = choose|i: int| 0 <= i < st.deps[at].1.len() && st.deps[at].1[i] == x;
                    assert(wanted[i] == x);
                    assert(after.deps[k].1 == wanted);
                } else {
                    assert(after.deps[k] == st.deps[k]);
                }
            }
        }
    } else {
        lemma_first_entry_at(after.deps, name, st.deps.len() as int);
        assert(seq![feat][0] == feat);
        assert forall|n: Name| #[trigger] st.has_dep(n) implies after.has_dep(n)
            && after.dep_features(n) == st.dep_features(n) by {
            lemma_first_entry(st.deps, n, 0);
            lemma_first_entry_at(after.deps, n, first_entry(st.deps, n, 0));
        }
        assert forall|n: Name, x: Name| #[trigger]
            st.dep_features(n).contains(x) implies after.dep_features(n).contains(x) by {
            assert(st.has_dep(n));
        }
    }
}

/// Seeing a feature loses nothing and notes it.
pub proof fn lemma_visit_grows(st: ReqModel, f: Name)
    ensures
        grows(st, st.visit(f)),
        st.visit(f).features.contains(f),
{
    let after = st.visit(f).features;
    assert(after[st.features.len() as int] == f);
    assert forall|g: Name| #[trigger] st.features.contains(g) implies after.contains(g) by {
        let i = choose|i: int| 0 <= i < st.features.len() && st.features[i] == g;
        assert(after[i] == g);
    }
}

/// An expansion that succeeds has done all its tasks, has kept what was
/// required before, and has followed every feature it newly saw through
/// its definition.
pub proof fn lemma_expand_covers(s: SummaryModel, st: ReqModel, queue: Seq<Task>)
    ensures
        expand(s, st, queue) matches Ok(end) ==> covers(s, st, queue, end),
    decreases unvisited(s, st.features), queue.len(),
{
    if queue.len() == 0 {
    } else if let Ok(end) = expand(s, st, queue) {
        let rest = queue.drop_first();
        match queue[0] {
            Task::Cycle(f) => {},
            Task::Enable { dep_name, dep_feature } => {
                let next = st.add_dep_feature(dep_name, dep_feature);
                lemma_add_dep_feature_grows(st, dep_name, dep_feature);
                lemma_expand_covers(s, next, rest);
                lemma_covers_step(s, st, next, queue, rest, end);
            },
            Task::Require(FeatureValueModel::Dep { dep_name }) => {
                let next = st.require_dependency(dep_name);
                lemma_require_dependency_grows(st, dep_name);
                lemma_expand_covers(s, next, rest);
                lemma_covers_step(s, st, next, queue, rest, end);
            },
            Task::Require(FeatureValueModel::Feature(f)) => {
                if st.features.contains(f) {
                    lemma_expand_covers(s, st, rest);
                    lemma_covers_step(s, st, st, queue, rest, end);
                } else if s.defines(f) {
                    lemma_visit_decreases(s, st.features, f);
                    lemma_visit_grows(st, f);
                    let front = tasks_of(f, s.definition(f));
                    lemma_expand_covers(s, st.visit(f), front + rest);
                    lemma_covers_visit(s, st, f, queue, front, Seq::empty(), rest, end);
                }
            },
            Task::Require(FeatureValueModel::DepFeature { dep_name, dep_feature, weak }) => {
                if enables_feature(s, dep_name, weak) && !st.features.contains(dep_name) {
                    lemma_visit_decreases(s, st.features, dep_name);
                    lemma_visit_grows(st, dep_name);
                    let front = tasks_of(dep_name, s.definition(dep_name));
                    let enable = seq![Task::Enable { dep_name, dep_feature }];
                    lemma_expand_covers(s, st.visit(dep_name), front + enable + rest);
                    lemma_covers_visit(s, st, dep_name, queue, front, enable, rest, end);
                    assert((front + enable + rest)[front.len() as int] == enable[0]);
                } else {
                    let next = st.add_dep_feature(dep_name, dep_feature);
                    lemma_add_dep_feature_grows(st, dep_name, dep_feature);
                    lemma_expand_covers(s, next, rest);
                    lemma_covers_step(s, st, next, queue, rest, end);
                }
            },
        }
    }
}

/// Where a step leaves the features as they are and does its task, and
/// the rest of the expansion has done its work, the whole has.
proof fn lemma_covers_step(
    s: SummaryModel,
    st: ReqModel,
    next: ReqModel,
    queue: Seq<Task>,
    rest: Seq<Task>,
    end: ReqModel,
)
    requires
        queue.len() > 0,
        rest == queue.drop_first(),
        grows(st, next),
        next.features == st.features,
        done_in(s, next, queue[0]),
        covers(s, next, rest, end),
    ensures
        covers(s, st, queue, end),
{
    assert forall|i: int| 0 <= i < queue.len() implies done_in(s, end, #[trigger] queue[i]) by {
        if i > 0 {
            assert(rest[i - 1] == queue[i]);
        }
    }
}

/// Where a step sees the feature `f` for the first time and puts the
/// tasks of its definition in front, and the rest of the expansion has done
/// its work, the whole has, but for the task at the head.
proof fn lemma_covers_visit(
    s: SummaryModel,
    st: ReqModel,
    f: Name,
    queue: Seq<Task>,
    front: Seq<Task>,
    middle: Seq<Task>,
    rest: Seq<Task>,
    end: ReqModel,
)
    requires
        queue.len() > 0,
        rest == queue.drop_first(),
        front == tasks_of(f, s.definition(f)),
        grows(st, st.visit(f)),
        st.visit(f).features.contains(f),
        covers(s, st.visit(f), front + middle + rest, end),
    ensures
        grows(st, end),
        end.features.contains(f),
        forall|i: int| 1 <= i < queue.len() ==> done_in(s, end, #[trigger] queue[i]),
        forall|i: int| 0 <= i < middle.len() ==> done_in(s, end, #[trigger] middle[i]),
        forall|g: Name, i: int|
            #![trigger end.features.contains(g), s.definition(g)[i]]
            end.features.contains(g) && !st.features.contains(g) && 0 <= i < s.definition(g).len()
                ==> done_in(s, end, Task::Require(s.definition(g)[i])),
{
    let next = st.visit(f);
    let all = front + middle + rest;
    assert forall|i: int| 1 <= i < queue.len() implies done_in(s, end, #[trigger] queue[i]) by {
        assert(all[front.len() + middle.len() + i - 1] == queue[i]);
    }
    assert forall|i: int| 0 <= i < middle.len() implies done_in(s, end, #[trigger] middle[i]) by {
        assert(all[front.len() + i] == middle[i]);
    }
    assert forall|g: Name, i: int|
        #![trigger end.features.contains(g), s.definition(g)[i]]
        end.features.contains(g) && !st.features.contains(g) && 0 <= i < s.definition(
            g,
        ).len() implies done_in(s, end, Task::Require(s.definition(g)[i])) by {
        if next.features.contains(g) {
            let k = choose|k: int| 0 <= k < next.features.len() && next.features[k] == g;
            if k < st.features.len() {
                assert(st.features[k] == g);
            }
            assert(g == f);
            assert(all[i] == front[i]);
            assert(done_in(s, end, all[i]));
        }
    }
}

/// The set `c` holds, with each of its features, the features that the
/// definition of that feature turns on.
pub open spec fn closed_under(s: SummaryModel, c: Set<Name>) -> bool {
    forall|f: Name, i: int|
        #![trigger c.contains(f), s.definition(f)[i]]
        c.contains(f) && 0 <= i < s.definition(f).len() ==> (feature_of(
            s,
            s.definition(f)[i],
        ) matches Some(g) ==> c.contains(g))
}

/// The feature that a task turns on, if it turns one on.
pub open spec fn task_feature(s: SummaryModel, task: Task) -> Option<Name> {
    match task {
        Task::Require(value) => feature_of(s, value),
        _ => None,
    }
}

/// The set `c` holds every feature that one of the tasks turns on.
pub open spec fn tasks_within(s: SummaryModel, queue: Seq<Task>, c: Set<Name>) -> bool {
    forall|i: int|
        0 <= i < queue.len() ==> (task_feature(s, #[trigger] queue[i]) matches Some(g)
            ==> c.contains(g))
}

/// The features of `features`, as a set.
pub open spec fn feature_set(features: Seq<Name>) -> Set<Name> {
    Set::new(|f: Name| features.contains(f))
}

/// An expansion sees no feature beyond what it has to: its features stay
/// within every set that holds the features seen before and those of the
/// tasks, and that is closed under the definitions.
pub proof fn lemma_expand_least(s: SummaryModel, st: ReqModel, queue: Seq<Task>, c: Set<Name>)
    requires
        closed_under(s, c),
        forall|f: Name| #[trigger] st.features.contains(f) ==> c.contains(f),
        tasks_within(s, queue, c),
    ensures
        expand(s, st, queue) matches Ok(end) ==> forall|f: Name| #[trigger]
            end.features.contains(f) ==> c.contains(f),
    decreases unvisited(s, st.features), queue.len(),
{
    if queue.len() > 0 {
        let rest = queue.drop_first();
        assert forall|i: int| 0 <= i < rest.len() implies (task_feature(
            s,
            #[trigger] rest[i],
        ) matches Some(g) ==> c.contains(g)) by {
            assert(rest[i] == queue[i + 1]);
        }
        match queue[0] {
            Task::Cycle(f) => {},
            Task::Enable { dep_name, dep_feature } => {
                lemma_expand_least(s, st.add_dep_feature(dep_name, dep_feature), rest, c);
            },
            Task::Require(FeatureValueModel::Dep { dep_name }) => {
                lemma_expand_least(s, st.require_dependency(dep_name), rest, c);
            },
            Task::Require(FeatureValueModel::Feature(f)) => {
                if st.features.contains(f) {
                    lemma_expand_least(s, st, rest, c);
                } else if s.defines(f) {
                    lemma_visit_decreases(s, st.features, f);
                    lemma_visit_within(s, st, f, Seq::empty(), rest, c);
                    let front = tasks_of(f, s.definition(f));
                    assert(front + Seq::<Task>::empty() + rest =~= front + rest);
                    lemma_expand_least(s, st.visit(f), front + rest, c);
                }
            },
            Task::Require(FeatureValueModel::DepFeature { dep_name, dep_feature, weak }) => {
                if enables_feature(s, dep_name, weak) && !st.features.contains(dep_name) {
                    lemma_visit_decreases(s, st.features, dep_name);
                    let enable = seq![Task::Enable { dep_name, dep_feature }];
                    lemma_visit_within(s, st, dep_name, enable, rest, c);
                    lemma_expand_least(
                        s,
                        st.visit(dep_name),
                        tasks_of(dep_name, s.definition(dep_name)) + enable + rest,
                        c,
                    );
                } else {
                    lemma_expand_least(s, st.add_dep_feature(dep_name, dep_feature), rest, c);
                }
            },
        }
    }
}

/// Seeing a feature of a closed set and putting the tasks of its
/// definition in front stays within the set.
proof fn lemma_visit_within(
    s: SummaryModel,
    st: ReqModel,
    f: Name,
    middle: Seq<Task>,
    rest: Seq<Task>,
    c: Set<Name>,
)
    requires
        closed_under(s, c),
        c.contains(f),
        forall|g: Name| #[trigger] st.features.contains(g) ==> c.contains(g),
        tasks_within(s, rest, c),
        forall|i: int| 0 <= i < middle.len() ==> #[trigger] middle[i] is Enable,
    ensures
        forall|g: Name| #[trigger] st.visit(f).features.contains(g) ==> c.contains(g),
        tasks_within(s, tasks_of(f, s.definition(f)) + middle + rest, c),
{
    let seen = st.visit(f).features;
    assert forall|g: Name| #[trigger] seen.contains(g) implies c.contains(g) by {
        let k = choose|k: int| 0 <= k < seen.len() && seen[k] == g;
        if k < st.features.len() {
            assert(st.features[k] == g);
            assert(st.features.contains(g));
        }
    }
    let front = tasks_of(f, s.definition(f));
    let all = front + middle + rest;
    assert forall|i: int| 0 <= i < all.len() implies (task_feature(s, #[trigger] all[i]) matches Some(
        g,
    ) ==> c.contains(g)) by {
        if i < front.len() {
            assert(all[i] == front[i]);
            if let Some(g) = task_feature(s, all[i]) {
                assert(c.contains(f) && feature_of(s, s.definition(f)[i]) == Some(g));
            }
        } else if i < front.len() + middle.len() {
            assert(all[i] == middle[i - front.len()]);
        } else {
            assert(all[i] == rest[i - front.len() - middle.len()]);
        }
    }
}

/// Every feature of the set is defined and does not list itself.
pub open spec fn all_sound(s: SummaryModel, c: Set<Name>) -> bool {
    forall|f: Name| #[trigger] c.contains(f) ==> s.defines(f) && !lists_itself(s, f)
}

/// An expansion succeeds where it can: where the features seen and those
/// of the tasks lie in a set that is closed under the definitions and
/// holds only features that are defined and do not list themselves, and no
/// failure is among the tasks.
pub proof fn lemma_expand_succeeds(s: SummaryModel, st: ReqModel, queue: Seq<Task>, c: Set<Name>)
    requires
        closed_under(s, c),
        all_sound(s, c),
        forall|f: Name| #[trigger] st.features.contains(f) ==> c.contains(f),
        tasks_within(s, queue, c),
        forall|i: int| 0 <= i < queue.len() ==> !(#[trigger] queue[i] is Cycle),
    ensures
        expand(s, st, queue) is Ok,
    decreases unvisited(s, st.features), queue.len(),
{
    if queue.len() > 0 {
        let rest = queue.drop_first();
        assert forall|i: int| 0 <= i < rest.len() implies !(#[trigger] rest[i] is Cycle) && (
        task_feature(s, rest[i]) matches Some(g) ==> c.contains(g)) by {
            assert(rest[i] == queue[i + 1]);
        }
        assert(!(queue[0] is Cycle));
        match queue[0] {
            Task::Cycle(f) => {},
            Task::Enable { dep_name, dep_feature } => {
                lemma_expand_succeeds(s, st.add_dep_feature(dep_name, dep_feature), rest, c);
            },
            Task::Require(FeatureValueModel::Dep { dep_name }) => {
                lemma_expand_succeeds(s, st.require_dependency(dep_name), rest, c);
            },
            Task::Require(FeatureValueModel::Feature(f)) => {
                assert(task_feature(s, queue[0]) == Some(f));
                if st.features.contains(f) {
                    lemma_expand_succeeds(s, st, rest, c);
                } else {
                    lemma_visit_decreases(s, st.features, f);
                    lemma_visit_within(s, st, f, Seq::empty(), rest, c);
                    let front = tasks_of(f, s.definition(f));
                    assert(front + Seq::<Task>::empty() + rest =~= front + rest);
                    lemma_no_failure_in_front(s, f, Seq::empty(), rest);
                    lemma_expand_succeeds(s, st.visit(f), front + rest, c);
                }
            },
            Task::Require(FeatureValueModel::DepFeature { dep_name, dep_feature, weak }) => {
                if enables_feature(s, dep_name, weak) && !st.features.contains(dep_name) {
                    assert(task_feature(s, queue[0]) == Some(dep_name));
                    lemma_visit_decreases(s, st.features, dep_name);
                    let enable = seq![Task::Enable { dep_name, dep_feature }];
                    lemma_visit_within(s, st, dep_name, enable, rest, c);
                    lemma_no_failure_in_front(s, dep_name, enable, rest);
                    lemma_expand_succeeds(
                        s,
                        st.visit(dep_name),
                        tasks_of(dep_name, s.definition(dep_name)) + enable + rest,
                        c,
                    );
                } else {
                    lemma_expand_succeeds(s, st.add_dep_feature(dep_name, dep_feature), rest, c);
                }
            },
        }
    }
}

/// The tasks of a feature that does not list itself hold no failure.
proof fn lemma_no_failure_in_front(s: SummaryModel, f: Name, middle: Seq<Task>, rest: Seq<Task>)
    requires
        !lists_itself(s, f),
        forall|i: int| 0 <= i < middle.len() ==> #[trigger] middle[i] is Enable,
        forall|i: int| 0 <= i < rest.len() ==> !(#[trigger] rest[i] is Cycle),
    ensures
        forall|i: int|
            0 <= i < (tasks_of(f, s.definition(f)) + middle + rest).len() ==> !(#[trigger] (
            tasks_of(f, s.definition(f)) + middle + rest)[i] is Cycle),
{
    let d = s.definition(f);
    let front = tasks_of(f, d);
    let all = front + middle + rest;
    assert forall|i: int| 0 <= i < all.len() implies !(#[trigger] all[i] is Cycle) by {
        if i < front.len() {
            assert(all[i] == front[i]);
            if d[i] == FeatureValueModel::Feature(f) {
                assert(d.contains(FeatureValueModel::Feature(f)));
            }
        } else if i < front.len() + middle.len() {
            assert(all[i] == middle[i - front.len()]);
        } else {
            assert(all[i] == rest[i - front.len() - middle.len()]);
        }
    }
}

/// Nothing is noted twice: no feature, no dependency, and no feature of
/// a dependency.
pub open spec fn tidy(st: ReqModel) -> bool {
    &&& st.features.no_duplicates()
    &&& forall|i: int, j: int|
        0 <= i < j < st.deps.len() ==> (#[trigger] st.deps[i]).0 != (#[trigger] st.deps[j]).0
    &&& forall|i: int| 0 <= i < st.deps.len() ==> (#[trigger] st.deps[i]).1.no_duplicates()
}

/// A name that is not there yet may be added to a list without names twice.
pub proof fn lemma_push_tidy(names: Seq<Name>, name: Name)
    requires
        names.no_duplicates(),
        !names.contains(name),
    ensures
        names.push(name).no_duplicates(),
{
    let grown = names.push(name);
    assert forall|i: int, j: int|
        0 <= i < grown.len() && 0 <= j < grown.len() && i != j implies grown[i] != grown[j] by {
        if i < names.len() && j < names.len() {
            assert(names[i] != names[j]);
        } else if i < names.len() {
            assert(names[i] == grown[i]);
            assert(names.contains(grown[i]));
        } else {
            assert(names[j] == grown[j]);
            assert(names.contains(grown[j]));
        }
    }
}

/// Requiring a dependency notes nothing twice.
pub proof fn lemma_require_dependency_tidy(st: ReqModel, name: Name)
    requires
        tidy(st),
    ensures
        tidy(st.require_dependency(name)),
{
    let after = st.require_dependency(name);
    if !st.has_dep(name) {
        lemma_first_entry(st.deps, name, 0);
        assert(Seq::<Name>::empty().no_duplicates());
        assert forall|i: int, j: int| 0 <= i < j < after.deps.len() implies (
        #[trigger] after.deps[i]).0 != (#[trigger] after.deps[j]).0 by {
            if j < st.deps.len() {
                assert(st.deps[i].0 != st.deps[j].0);
            } else {
                assert(st.deps[i].0 != name);
            }
        }
        assert forall|i: int| 0 <= i < after.deps.len() implies (
        #[trigger] after.deps[i]).1.no_duplicates() by {
            if i < st.deps.len() {
                assert(after.deps[i] == st.deps[i]);
            }
        }
    }
}

/// Noting a feature of a dependency notes nothing twice.
pub proof fn lemma_add_dep_feature_tidy(st: ReqModel, name: Name, feat: Name)
    requires
        tidy(st),
    ensures
        tidy(st.add_dep_feature(name, feat)),
{
    let after = st.add_dep_feature(name, feat);
    let at = first_entry(st.deps, name, 0);
    lemma_first_entry(st.deps, name, 0);
    if at < st.deps.len() {
        if !st.deps[at].1.contains(feat) {
            lemma_push_tidy(st.deps[at].1, feat);
            assert forall|i: int, j: int| 0 <= i < j < after.deps.len() implies (
            #[trigger] after.deps[i]).0 != (#[trigger] after.deps[j]).0 by {
                assert(after.deps[i].0 == st.deps[i].0 && after.deps[j].0 == st.deps[j].0);
                assert(st.deps[i].0 != st.deps[j].0);
            }
            assert forall|i: int| 0 <= i < after.deps.len() implies (
            #[trigger] after.deps[i]).1.no_duplicates() by {
                if i != at {
                    assert(after.deps[i] == st.deps[i]);
                }
            }
        }
    } else {
        assert(seq![feat].no_duplicates());
        assert forall|i: int, j: int| 0 <= i < j < after.deps.len() implies (
        #[trigger] after.deps[i]).0 != (#[trigger] after.deps[j]).0 by {
            if j < st.deps.len() {
                assert(st.deps[i].0 != st.deps[j].0);
            } else {
                assert(st.deps[i].0 != name);
            }
        }
        assert forall|i: int| 0 <= i < after.deps.len() implies (
        #[trigger] after.deps[i]).1.no_duplicates() by {
            if i < st.deps.len() {
                assert(after.deps[i] == st.deps[i]);
            }
        }
    }
}

/// A walk that starts with nothing noted twice ends so, be it with a
/// failure.
pub proof fn lemma_walk_tidy(s: SummaryModel, st: ReqModel, queue: Seq<Task>)
    requires
        tidy(st),
    ensures
        tidy(crate::requirements::halt(s, st, queue)),
        expand(s, st, queue) matches Ok(end) ==> tidy(end),
    decreases unvisited(s, st.features), queue.len(),
{
    crate::requirements::lemma_halt_ok(s, st, queue);
    if queue.len() > 0 {
        let rest = queue.drop_first();
        match queue[0] {
            Task::Cycle(f) => {},
            Task::Enable { dep_name, dep_feature } => {
                lemma_add_dep_feature_tidy(st, dep_name, dep_feature);
                lemma_walk_tidy(s, st.add_dep_feature(dep_name, dep_feature), rest);
            },
            Task::Require(FeatureValueModel::Dep { dep_name }) => {
                lemma_require_dependency_tidy(st, dep_name);
                lemma_walk_tidy(s, st.require_dependency(dep_name), rest);
            },
            Task::Require(FeatureValueModel::Feature(f)) => {
                if st.features.contains(f) {
                    lemma_walk_tidy(s, st, rest);
                } else {
                    lemma_push_tidy(st.features, f);
                    if s.defines(f) {
                        lemma_visit_decreases(s, st.features, f);
                        lemma_walk_tidy(s, st.visit(f), tasks_of(f, s.definition(f)) + rest);
                    }
                }
            },
            Task::Require(FeatureValueModel::DepFeature { dep_name, dep_feature, weak }) => {
                if enables_feature(s, dep_name, weak) && !st.features.contains(dep_name) {
                    lemma_visit_decreases(s, st.features, dep_name);
                    lemma_push_tidy(st.features, dep_name);
                    lemma_walk_tidy(
                        s,
                        st.visit(dep_name),
                        tasks_of(dep_name, s.definition(dep_name)) + seq![
                            Task::Enable { dep_name, dep_feature },
                        ] + rest,
                    );
                } else {
                    lemma_add_dep_feature_tidy(st, dep_name, dep_feature);
                    lemma_walk_tidy(s, st.add_dep_feature(dep_name, dep_feature), rest);
                }
            },
        }
    }
}

} // verus!
