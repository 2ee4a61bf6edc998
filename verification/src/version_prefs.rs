//! The order in which the candidates of a dependency are tried.
//!
//! Candidates that the caller prefers come first. Among equally preferred
//! candidates the version decides: the greatest first or the least first.

use crate::package::{PackageId, PackageIdModel};
use crate::summary::{Summary, SummaryModel};
use vstd::prelude::*;

verus! {

/// Which versions are tried first.
#[derive(Clone, Copy, Debug, PartialEq, Eq, Hash, Structural)]
pub enum VersionOrdering {
    MaximumVersionsFirst,
    MinimumVersionsFirst,
}

/// The ordering in force for a query: the least versions first where the
/// query asks so or the session is configured so, else the greatest first.
pub open spec fn ordering_for(first_minimal_version: bool, minimal_versions: bool)
    -> VersionOrdering {
    if first_minimal_version || minimal_versions {
        VersionOrdering::MinimumVersionsFirst
    } else {
        VersionOrdering::MaximumVersionsFirst
    }
}

pub fn choose_ordering(first_minimal_version: bool, minimal_versions: bool) -> (r:
    VersionOrdering)
    ensures
        r == ordering_for(first_minimal_version, minimal_versions),
{
    if first_minimal_version || minimal_versions {
        VersionOrdering::MinimumVersionsFirst
    } else {
        VersionOrdering::MaximumVersionsFirst
    }
}

/// `a` has to be tried before `b`: it is preferred and `b` is not, or both
/// are equally preferred and the version of `a` is on the side asked for.
pub open spec fn precedes(
    preferred: Seq<PackageIdModel>,
    ordering: VersionOrdering,
    a: SummaryModel,
    b: SummaryModel,
) -> bool {
    let pa = preferred.contains(a.package_id);
    let pb = preferred.contains(b.package_id);
    (pa && !pb) || (pa == pb && match ordering {
        VersionOrdering::MaximumVersionsFirst => b.package_id.version.spec_lt(
            a.package_id.version,
        ),
        VersionOrdering::MinimumVersionsFirst => a.package_id.version.spec_lt(
            b.package_id.version,
        ),
    })
}

/// No candidate stands behind one that it has to be tried before.
pub open spec fn in_order(
    preferred: Seq<PackageIdModel>,
    ordering: VersionOrdering,
    list: Seq<SummaryModel>,
) -> bool {
    forall|i: int, j: int|
        0 <= i < j < list.len() ==> !precedes(
            preferred,
            ordering,
            #[trigger] list[j],
            #[trigger] list[i],
        )
}

/// The candidates that tie with `a`: they are preferred as `a` is and have
/// its version.
pub open spec fn ties_with(preferred: Seq<PackageIdModel>, a: SummaryModel) -> spec_fn(
    SummaryModel,
) -> bool {
    |s: SummaryModel|
        preferred.contains(s.package_id) == preferred.contains(a.package_id)
            && s.package_id.version == a.package_id.version
}

/// `after` is `before` put in order: it holds the same candidates, each
/// as often; none stands behind one that it has to be tried before; and
/// candidates that tie stand as they stood in `before`.
pub open spec fn put_in_order(
    preferred: Seq<PackageIdModel>,
    ordering: VersionOrdering,
    before: Seq<SummaryModel>,
    after: Seq<SummaryModel>,
) -> bool {
    &&& in_order(preferred, ordering, after)
    &&& after.to_multiset() == before.to_multiset()
    &&& forall|a: SummaryModel| #[trigger]
        after.filter(ties_with(preferred, a)) == before.filter(ties_with(preferred, a))
}

/// Each candidate has a greater version than those behind it.
pub open spec fn descending(list: Seq<SummaryModel>) -> bool {
    forall|i: int, j: int|
        0 <= i < j < list.len() ==> (#[trigger] list[j]).package_id.version.spec_lt(
            (#[trigger] list[i]).package_id.version,
        )
}

/// Two lists with the same candidates, each with the greatest version
/// first, are the same list.
pub proof fn lemma_descending_unique(x: Seq<SummaryModel>, y: Seq<SummaryModel>)
    requires
        descending(x),
        descending(y),
        x.to_multiset() == y.to_multiset(),
    ensures
        x == y,
    decreases x.len(),
{
    broadcast use vstd::multiset::group_multiset_axioms;

    vstd::seq_lib::to_multiset_len(x);
    vstd::seq_lib::to_multiset_len(y);
    if x.len() == 0 {
        assert(x =~= y);
    } else {
        let a = x.last();
        let b = y.last();
        crate::shared::lemma_same_members(x, y);
        assert(x.contains(a));
        assert(y.contains(b));
        let j = choose|j: int| 0 <= j < y.len() && y[j] == a;
        let i = choose|i: int| 0 <= i < x.len() && x[i] == b;
        if j != y.len() - 1 && i != x.len() - 1 {
            assert(y[y.len() - 1].package_id.version.spec_lt(y[j].package_id.version));
            assert(x[x.len() - 1].package_id.version.spec_lt(x[i].package_id.version));
        }
        assert(a == b);
        let xs = x.drop_last();
        let ys = y.drop_last();
        assert(x =~= xs.push(a));
        assert(y =~= ys.push(b));
        vstd::seq_lib::to_multiset_build(xs, a);
        vstd::seq_lib::to_multiset_build(ys, b);
        assert(xs.to_multiset() =~= ys.to_multiset()) by {
            assert forall|v: SummaryModel| xs.to_multiset().count(v) == ys.to_multiset().count(
                v,
            ) by {
                assert(xs.to_multiset().insert(a).count(v) == ys.to_multiset().insert(b).count(v));
            }
        }
        assert forall|p: int, q: int| 0 <= p < q < xs.len() implies (
        #[trigger] xs[q]).package_id.version.spec_lt((#[trigger] xs[p]).package_id.version) by {
            assert(xs[p] == x[p] && xs[q] == x[q]);
        }
        assert forall|p: int, q: int| 0 <= p < q < ys.len() implies (
        #[trigger] ys[q]).package_id.version.spec_lt((#[trigger] ys[p]).package_id.version) by {
            assert(ys[p] == y[p] && ys[q] == y[q]);
        }
        lemma_descending_unique(xs, ys);
    }
}

/// The two orderings are the reverse of each other. Where two lists hold
/// the same candidates, one with the least versions first and one with the
/// greatest first, and no two candidates tie (they are equally preferred
/// and their versions differ), each list is the other one read backwards.
pub proof fn lemma_orderings_reverse(
    preferred: Seq<PackageIdModel>,
    least: Seq<SummaryModel>,
    greatest: Seq<SummaryModel>,
)
    requires
        in_order(preferred, VersionOrdering::MinimumVersionsFirst, least),
        in_order(preferred, VersionOrdering::MaximumVersionsFirst, greatest),
        least.to_multiset() == greatest.to_multiset(),
        forall|i: int, j: int|
            0 <= i < j < least.len() ==> preferred.contains((#[trigger] least[i]).package_id)
                == preferred.contains((#[trigger] least[j]).package_id),
        forall|i: int, j: int|
            0 <= i < j < least.len() ==> (#[trigger] least[i]).package_id.version != (
            #[trigger] least[j]).package_id.version,
    ensures
        greatest == least.reverse(),
{
    let n = least.len() as int;
    let back = least.reverse();
    least.lemma_reverse_to_multiset();
    assert forall|i: int, j: int| 0 <= i < j < back.len() implies (
    #[trigger] back[j]).package_id.version.spec_lt((#[trigger] back[i]).package_id.version) by {
        let a = least[n - 1 - j];
        let b = least[n - 1 - i];
        assert(back[j] == a && back[i] == b);
        assert(!precedes(preferred, VersionOrdering::MinimumVersionsFirst, b, a));
        assert(a.package_id.version != b.package_id.version);
        assert(preferred.contains(a.package_id) == preferred.contains(b.package_id));
    }
    crate::shared::lemma_same_members(least, greatest);
    assert forall|i: int, j: int| 0 <= i < j < greatest.len() implies (
    #[trigger] greatest[j]).package_id.version.spec_lt(
        (#[trigger] greatest[i]).package_id.version,
    ) by {
        let a = greatest[i];
        let b = greatest[j];
        assert(greatest.contains(a) && greatest.contains(b));
        assert(least.contains(a) && least.contains(b));
        let p = choose|p: int| 0 <= p < least.len() && least[p] == a;
        let q = choose|q: int| 0 <= q < least.len() && least[q] == b;
        if p == q {
            // One candidate twice in `greatest` would be twice in `least`.
            assert(a == b);
            vstd::seq_lib::to_multiset_remove(greatest, j);
            vstd::seq_lib::to_multiset_remove(least, p);
            let g2 = greatest.remove(j);
            assert(g2[i] == a);
            assert(g2.contains(a));
            vstd::seq_lib::to_multiset_contains(g2, a);
            let l2 = least.remove(p);
            vstd::seq_lib::to_multiset_contains(l2, a);
            assert(l2.contains(a));
            let r = choose|r: int| 0 <= r < l2.len() && l2[r] == a;
            let r0 = if r < p { r } else { r + 1 };
            assert(least[r0] == a);
            if r0 < p {
                assert(least[r0].package_id.version != least[p].package_id.version);
            } else {
                assert(least[p].package_id.version != least[r0].package_id.version);
            }
        } else {
            if p < q {
                assert(least[p].package_id.version != least[q].package_id.version);
                assert(preferred.contains(least[p].package_id) == preferred.contains(
                    least[q].package_id,
                ));
            } else {
                assert(least[q].package_id.version != least[p].package_id.version);
                assert(preferred.contains(least[q].package_id) == preferred.contains(
                    least[p].package_id,
                ));
            }
            assert(!precedes(preferred, VersionOrdering::MaximumVersionsFirst, b, a));
        }
    }
    lemma_descending_unique(greatest, back);
}

/// The caller's preferences among candidates.
#[derive(Clone, Debug)]
pub struct VersionPreferences {
    pub try_to_use: Vec<PackageId>,
}

impl DeepView for VersionPreferences {
    type V = Seq<PackageIdModel>;

    open spec fn deep_view(&self) -> Seq<PackageIdModel> {
        self.try_to_use.deep_view()
    }
}

impl VersionPreferences {
    /// No preference.
    pub fn new() -> (r: VersionPreferences)
        ensures
            r.deep_view() == Seq::<PackageIdModel>::empty(),
    {
        let r = VersionPreferences { try_to_use: Vec::new() };
        assert(r.try_to_use.deep_view() =~= Seq::<PackageIdModel>::empty());
        r
    }

    /// Prefer the package `id` over those never named here.
    pub fn prefer_package_id(&mut self, id: PackageId)
        ensures
            final(self).deep_view() == old(self).deep_view().push(id.deep_view()),
    {
        self.try_to_use.push(id);
        assert(self.try_to_use.deep_view() =~= old(self).try_to_use.deep_view().push(
            id.deep_view(),
        ));
    }

    /// Whether the package `id` is preferred.
    pub fn prefers(&self, id: &PackageId) -> (r: bool)
        ensures
            r == self.deep_view().contains(id.deep_view()),
    {
        let ghost ids = self.try_to_use.deep_view();
        let mut i: usize = 0;
        while i < self.try_to_use.len()
            invariant
                i <= self.try_to_use.len(),
                ids == self.try_to_use.deep_view(),
                forall|j: int| 0 <= j < i ==> ids[j] != id.deep_view(),
            decreases self.try_to_use.len() - i,
        {
            if self.try_to_use[i].same(id) {
                assert(ids[i as int] == id.deep_view());
                return true;
            }
            i += 1;
        }
        false
    }

    /// Whether `a` has to be tried before `b`.
    pub fn goes_before(&self, ordering: VersionOrdering, a: &Summary, b: &Summary) -> (r: bool)
        ensures
            r == precedes(self.deep_view(), ordering, a.deep_view(), b.deep_view()),
    {
        let pa = self.prefers(&a.package_id);
        let pb = self.prefers(&b.package_id);
        if pa != pb {
            return pa;
        }
        match ordering {
            VersionOrdering::MaximumVersionsFirst => b.package_id.version.lt(
                &a.package_id.version,
            ),
            VersionOrdering::MinimumVersionsFirst => a.package_id.version.lt(
                &b.package_id.version,
            ),
        }
    }

    /// Puts the candidates in the order in which they are to be tried. The
    /// list keeps its candidates; `ordering` alone decides between equally
    /// preferred ones, and candidates that tie keep their places relative
    /// to each other. `first_version` records whether the query concerns a
    /// direct dependency of the root with least versions asked for; it does
    /// not change the order.
    pub fn sort_summaries(
        &self,
        summaries: &mut Vec<Summary>,
        ordering: VersionOrdering,
        first_version: bool,
    )
        ensures
            put_in_order(
                self.deep_view(),
                ordering,
                old(summaries).deep_view(),
                final(summaries).deep_view(),
            ),
            final(summaries).len() == old(summaries).len(),
    {
        let n = summaries.len();
        let ghost prefs = self.deep_view();
        let mut i: usize = 0;
        while i < n
            invariant
                i <= n,
                summaries.len() == n,
                prefs == self.deep_view(),
                in_order(prefs, ordering, summaries.deep_view().take(i as int)),
                summaries.deep_view().to_multiset() == old(summaries).deep_view().to_multiset(),
                forall|a: SummaryModel| #[trigger]
                    summaries.deep_view().filter(ties_with(prefs, a)) == old(
                        summaries,
                    ).deep_view().filter(ties_with(prefs, a)),
            decreases n - i,
        {
            let ghost before = summaries.deep_view();
            let x = summaries.remove(i);
            let ghost mid = summaries.deep_view();
            assert(mid =~= before.remove(i as int));
            assert(x.deep_view() == before[i as int]);
            let mut p: usize = 0;
            while p < i && !self.goes_before(ordering, &x, &summaries[p])
                invariant
                    p <= i,
                    i < n,
                    summaries.len() == n - 1,
                    prefs == self.deep_view(),
                    mid == summaries.deep_view(),
                    forall|j: int| 0 <= j < p ==> !precedes(prefs, ordering, x.deep_view(), mid[j]),
                decreases i - p,
            {
                p += 1;
            }
            summaries.insert(p, x);
            let ghost after = summaries.deep_view();
            assert(after =~= mid.insert(p as int, x.deep_view()));
            proof {
                vstd::seq_lib::to_multiset_remove(before, i as int);
                vstd::seq_lib::to_multiset_insert(mid, p as int, x.deep_view());
                before.to_multiset_ensures();
                assert(before.to_multiset().count(before[i as int]) > 0);
                assert(after.to_multiset() =~= before.to_multiset());
                let xm = x.deep_view();
                let head = before.take(p as int);
                let passed = before.subrange(p as int, i as int);
                let tail = before.skip(i as int + 1);
                assert(before =~= head + passed + seq![xm] + tail);
                assert(after =~= head + seq![xm] + passed + tail);
                assert forall|j: int| 0 <= j < passed.len() implies precedes(
                    prefs,
                    ordering,
                    xm,
                    #[trigger] passed[j],
                ) by {
                    assert(passed[j] == before.take(i as int)[p + j]);
                    assert(before.take(i as int)[p as int] == mid[p as int]);
                    assert(precedes(prefs, ordering, xm, mid[p as int]));
                    if j > 0 {
                        assert(!precedes(
                            prefs,
                            ordering,
                            before.take(i as int)[p + j],
                            before.take(i as int)[p as int],
                        ));
                    }
                }
                assert forall|a: SummaryModel| #[trigger]
                    after.filter(ties_with(prefs, a)) == before.filter(ties_with(prefs, a)) by {
                    let pred = ties_with(prefs, a);
                    Seq::filter_distributes_over_add(head + passed + seq![xm], tail, pred);
                    Seq::filter_distributes_over_add(head + passed, seq![xm], pred);
                    Seq::filter_distributes_over_add(head, passed, pred);
                    Seq::filter_distributes_over_add(head + seq![xm] + passed, tail, pred);
                    Seq::filter_distributes_over_add(head + seq![xm], passed, pred);
                    Seq::filter_distributes_over_add(head, seq![xm], pred);
                    let none = Seq::<SummaryModel>::empty();
                    if pred(xm) {
                        assert forall|j: int| 0 <= j < passed.len() implies !pred(
                            #[trigger] passed[j],
                        ) by {
                            assert(precedes(prefs, ordering, xm, passed[j]));
                        }
                        passed.lemma_all_neg_filter_empty(pred);
                        assert(passed.filter(pred) =~= none);
                        assert(head.filter(pred) + none + seq![xm].filter(pred) =~= head.filter(
                            pred,
                        ) + seq![xm].filter(pred) + none);
                    } else {
                        assert(seq![xm] =~= none.push(xm));
                        none.lemma_filter_push(xm, pred);
                        assert(none.filter(pred) =~= none) by {
                            reveal(Seq::filter);
                        }
                        assert(head.filter(pred) + passed.filter(pred) + none =~= head.filter(
                            pred,
                        ) + none + passed.filter(pred));
                    }
                }
                let prefix = after.take(i as int + 1);
                let old_prefix = before.take(i as int);
                assert forall|a: int, b: int| 0 <= a < b < prefix.len() implies !precedes(
                    prefs,
                    ordering,
                    #[trigger] prefix[b],
                    #[trigger] prefix[a],
                ) by {
                    let xa = if a < p { old_prefix[a] } else if a == p { x.deep_view() } else {
                        old_prefix[a - 1]
                    };
                    let xb = if b < p { old_prefix[b] } else if b == p { x.deep_view() } else {
                        old_prefix[b - 1]
                    };
                    assert(prefix[a] == xa);
                    assert(prefix[b] == xb);
                    if b == p {
                    } else if a == p {
                        // b > p: the element at p in the old prefix is preceded by x
                        assert(p < i);
                        assert(precedes(prefs, ordering, x.deep_view(), mid[p as int]));
                        assert(mid[p as int] == old_prefix[p as int]);
                        if b - 1 > p {
                            assert(!precedes(
                                prefs,
                                ordering,
                                old_prefix[b - 1],
                                old_prefix[p as int],
                            ));
                        }
                    } else if a < p && b < p {
                        assert(!precedes(prefs, ordering, old_prefix[b], old_prefix[a]));
                    } else if a < p {
                        assert(!precedes(prefs, ordering, old_prefix[b - 1], old_prefix[a]));
                    } else {
                        assert(!precedes(prefs, ordering, old_prefix[b - 1], old_prefix[a - 1]));
                    }
                }
            }
            i += 1;
        }
        assert(summaries.deep_view().take(n as int) =~= summaries.deep_view());
    }
}

} // verus!
