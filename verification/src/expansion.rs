//! What activating a candidate entails: the features it ends up with, and
//! its dependencies, each with its candidates.

use crate::dependency::{Dependency, DependencyModel};
use crate::errors::{ActivateError, ActivateErrorModel, FatalError, FatalErrorModel, QueryError};
use crate::package::{Name, PackageId};
use crate::registry::Poll;
use crate::summary::{Summary, SummaryModel};
use std::rc::Rc;
use vstd::prelude::*;

verus! {

/// The features wanted of a dependency.
pub type FeaturesSet = Rc<Vec<String>>;

/// A dependency, its candidates in the order to try them, and the features
/// wanted of it.
pub type DepInfo = (Dependency, Rc<Vec<Summary>>, FeaturesSet);

/// The features that a candidate ends up with, and its dependencies.
pub type Expansion = Rc<(Vec<String>, Rc<Vec<DepInfo>>)>;

/// The model of a [`DepInfo`].
pub type DepInfoModel = (DependencyModel, Seq<SummaryModel>, Seq<Name>);

/// The model of an [`Expansion`].
pub type ExpansionModel = (Seq<Name>, Seq<DepInfoModel>);

/// The dependencies stand in the order of the number of their candidates,
/// the fewest first.
pub open spec fn fewest_first(deps: Seq<DepInfoModel>) -> bool {
    forall|i: int, j: int|
        0 <= i < j < deps.len() ==> (#[trigger] deps[i]).1.len() <= (#[trigger] deps[j]).1.len()
}

/// The dependencies that have `n` candidates.
pub open spec fn count_is(n: nat) -> spec_fn(DepInfoModel) -> bool {
    |d: DepInfoModel| d.1.len() == n
}

/// `after` holds the dependencies of `before`, the fewest candidates
/// first, and those with equally many in the order they had in `before`.
pub open spec fn ordered_by_count(before: Seq<DepInfoModel>, after: Seq<DepInfoModel>) -> bool {
    &&& fewest_first(after)
    &&& forall|n: nat| #[trigger] after.filter(count_is(n)) == before.filter(count_is(n))
}

/// How many candidates the dependency has.
pub fn candidate_count(d: &DepInfo) -> (n: usize)
    ensures
        n == d.deep_view().1.len(),
{
    d.1.len()
}

/// Puts the dependencies in the order in which the resolver takes them
/// up: those with fewer candidates first, so that a dependency that cannot
/// be satisfied is found early.
pub fn order_deps(deps: Vec<DepInfo>) -> (out: Vec<DepInfo>)
    ensures
        ordered_by_count(deps.deep_view(), out.deep_view()),
        out.len() == deps.len(),
{
    let ghost all = deps.deep_view();
    let ghost raw = deps@;
    let mut out: Vec<DepInfo> = Vec::new();
    proof {
        reveal(Seq::filter);
        assert(all.take(0) =~= Seq::<DepInfoModel>::empty());
        assert(out.deep_view() =~= Seq::<DepInfoModel>::empty());
    }
    for x in it: deps
        invariant
            it.seq() == raw,
            all.len() == raw.len(),
            forall|j: int| 0 <= j < raw.len() ==> all[j] == raw[j].deep_view(),
            out.len() == it.index(),
            fewest_first(out.deep_view()),
            forall|n: nat| #[trigger]
                out.deep_view().filter(count_is(n)) == all.take(it.index() as int).filter(
                    count_is(n),
                ),
    {
        let ghost k = it.index() as int;
        let ghost was = out.deep_view();
        let ghost xm = x.deep_view();
        assert(xm == all[k]);
        let count = candidate_count(&x);
        let mut p: usize = 0;
        while p < out.len() && candidate_count(&out[p]) <= count
            invariant
                p <= out.len(),
                was == out.deep_view(),
                count == xm.1.len(),
                forall|j: int| 0 <= j < p ==> (#[trigger] was[j]).1.len() <= count,
            decreases out.len() - p,
        {
            assert(was[p as int] == out[p as int].deep_view());
            p += 1;
        }
        assert(p < out.len() ==> was[p as int] == out[p as int].deep_view());
        out.insert(p, x);
        proof {
            let now = out.deep_view();
            let front = was.take(p as int);
            let back = was.skip(p as int);
            assert(now =~= front + seq![xm] + back);
            assert(was =~= front + back);
            assert(all.take(k + 1) =~= all.take(k).push(xm));
            assert forall|i: int, j: int| 0 <= i < j < now.len() implies (#[trigger] now[i]).1.len()
                <= (#[trigger] now[j]).1.len() by {
                if j < p {
                    assert(now[i] == was[i] && now[j] == was[j]);
                } else if j == p {
                    assert(now[i] == was[i]);
                } else if i < p {
                    assert(now[i] == was[i] && now[j] == was[j - 1]);
                } else if i == p {
                    assert(now[j] == was[j - 1]);
                    assert(was[p as int].1.len() <= was[j - 1].1.len());
                } else {
                    assert(now[i] == was[i - 1] && now[j] == was[j - 1]);
                }
            }
            assert forall|n: nat| #[trigger]
                now.filter(count_is(n)) == all.take(k + 1).filter(count_is(n)) by {
                let pred = count_is(n);
                assert(was.filter(pred) == all.take(k).filter(pred));
                all.take(k).lemma_filter_push(xm, pred);
                Seq::filter_distributes_over_add(front + seq![xm], back, pred);
                Seq::filter_distributes_over_add(front, seq![xm], pred);
                Seq::filter_distributes_over_add(front, back, pred);
                assert(seq![xm] =~= Seq::<DepInfoModel>::empty().push(xm));
                Seq::<DepInfoModel>::empty().lemma_filter_push(xm, pred);
                assert(Seq::<DepInfoModel>::empty().filter(pred) =~= Seq::<DepInfoModel>::empty());
                if pred(xm) {
                    assert forall|j: int| 0 <= j < back.len() implies !pred(#[trigger] back[j]) by {
                        assert(back[j] == was[p + j]);
                        assert(was[p as int].1.len() <= was[p + j].1.len());
                        assert(was[p as int].1.len() > count);
                    }
                    back.lemma_all_neg_filter_empty(pred);
                    assert(back.filter(pred) =~= Seq::<DepInfoModel>::empty());
                    assert(front.filter(pred) + seq![xm] + Seq::<DepInfoModel>::empty()
                        =~= front.filter(pred).push(xm));
                    assert(front.filter(pred) + Seq::<DepInfoModel>::empty() =~= front.filter(
                        pred,
                    ));
                } else {
                    assert(front.filter(pred) + Seq::<DepInfoModel>::empty() =~= front.filter(
                        pred,
                    ));
                }
            }
        }
    }
    assert(all.take(all.len() as int) =~= all);
    out
}

/// Takes up the answer of a query for `dep`. A list makes `dep` one of the
/// dependencies found, with that list and with the features wanted of it.
/// A pending answer leaves `dep` out. An error is handed on. The result
/// says whether the answer was there.
pub fn take_answer(
    found: &mut Vec<DepInfo>,
    dep: Dependency,
    features: FeaturesSet,
    answer: Poll<Result<Rc<Vec<Summary>>, QueryError>>,
) -> (r: Result<bool, QueryError>)
    ensures
        match answer {
            Poll::Ready(Ok(list)) => r == Ok::<bool, QueryError>(true) && final(found).deep_view()
                == old(found).deep_view().push(
                (dep.deep_view(), list.deep_view(), features.deep_view()),
            ),
            Poll::Pending => r == Ok::<bool, QueryError>(false) && final(found).deep_view() == old(
                found,
            ).deep_view(),
            Poll::Ready(Err(e)) => r matches Err(cause) && cause.deep_view() == e.deep_view()
                && final(found).deep_view() == old(found).deep_view(),
        },
{
    match answer {
        Poll::Ready(Ok(candidates)) => {
            let ghost was = found.deep_view();
            let ghost entry = (dep.deep_view(), candidates.deep_view(), features.deep_view());
            found.push((dep, candidates, features));
            assert(found.deep_view() =~= was.push(entry));
            Ok(true)
        },
        // A pending dependency is passed over: the resolver comes back
        // until none is left to pass over.
        Poll::Pending => Ok(false),
        Poll::Ready(Err(e)) => Err(e),
    }
}

/// The error for the dependency `dep_name` of the package `candidate`
/// whose query failed with `cause`, where `path` describes how the
/// resolution came to that package.
pub fn failed_query(dep_name: String, candidate: &PackageId, path: String, cause: QueryError) -> (e:
    ActivateError)
    ensures
        e.deep_view() == ActivateErrorModel::Fatal(
            FatalErrorModel::DependencyQuery {
                dep_name: dep_name@,
                package_id: candidate.deep_view(),
                path: path@,
                cause: cause.deep_view(),
            },
        ),
{
    ActivateError::Fatal(
        FatalError::DependencyQuery { dep_name, package_id: candidate.clone(), path, cause },
    )
}

} // verus!
