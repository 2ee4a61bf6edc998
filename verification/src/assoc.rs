//! Association lists as finite maps.
//!
//! The caches hold their entries in vectors of key and value. Read as a
//! sequence of pairs with pairwise distinct keys, such a list is a map.

use vstd::prelude::*;

verus! {

/// No key occurs twice.
pub open spec fn distinct_keys<K, V>(s: Seq<(K, V)>) -> bool {
    forall|i: int, j: int| 0 <= i < j < s.len() ==> (#[trigger] s[i]).0 != (#[trigger] s[j]).0
}

/// Whether some entry has the key `k`.
pub open spec fn has_key<K, V>(s: Seq<(K, V)>, k: K) -> bool {
    exists|i: int| 0 <= i < s.len() && (#[trigger] s[i]).0 == k
}

/// The place of an entry with the key `k`.
pub open spec fn place_of<K, V>(s: Seq<(K, V)>, k: K) -> int {
    choose|i: int| 0 <= i < s.len() && (#[trigger] s[i]).0 == k
}

/// The map that holds each key of the list with the value beside it.
pub open spec fn as_map<K, V>(s: Seq<(K, V)>) -> Map<K, V> {
    Map::new(|k: K| has_key(s, k), |k: K| s[place_of(s, k)].1)
}

/// Each entry of a list with distinct keys is an entry of its map.
pub proof fn lemma_entry<K, V>(s: Seq<(K, V)>, i: int)
    requires
        distinct_keys(s),
        0 <= i < s.len(),
    ensures
        as_map(s).contains_key(s[i].0),
        as_map(s)[s[i].0] == s[i].1,
{
    assert(has_key(s, s[i].0));
    let j = place_of(s, s[i].0);
    assert(0 <= j < s.len() && s[j].0 == s[i].0);
    if j < i {
        assert(s[j].0 != s[i].0);
    } else if i < j {
        assert(s[i].0 != s[j].0);
    }
}

/// A new key at the end of the list is an insertion into the map.
pub proof fn lemma_push<K, V>(s: Seq<(K, V)>, k: K, v: V)
    requires
        distinct_keys(s),
        !has_key(s, k),
    ensures
        distinct_keys(s.push((k, v))),
        as_map(s.push((k, v))) == as_map(s).insert(k, v),
{
    let t = s.push((k, v));
    assert forall|i: int, j: int| 0 <= i < j < t.len() implies (#[trigger] t[i]).0 != (
    #[trigger] t[j]).0 by {
        if j == s.len() {
            assert(s[i].0 != k);
        } else {
            assert(s[i].0 != s[j].0);
        }
    }
    assert forall|q: K| as_map(t).contains_key(q) <==> as_map(s).insert(k, v).contains_key(q) by {
        if has_key(t, q) {
            let i = place_of(t, q);
            if i < s.len() {
                assert(s[i].0 == q);
            }
        }
        if has_key(s, q) {
            let i = place_of(s, q);
            assert(t[i].0 == q);
        }
        if q == k {
            assert(t[s.len() as int].0 == q);
        }
    }
    assert forall|q: K| as_map(t).contains_key(q) implies as_map(t)[q] == as_map(s).insert(
        k,
        v,
    )[q] by {
        let i = place_of(t, q);
        lemma_entry(t, i);
        if i < s.len() {
            assert(s[i] == t[i]);
            lemma_entry(s, i);
        }
    }
    assert(as_map(t) =~= as_map(s).insert(k, v));
}

/// A new value in the place of a key is an insertion into the map.
pub proof fn lemma_update<K, V>(s: Seq<(K, V)>, i: int, v: V)
    requires
        distinct_keys(s),
        0 <= i < s.len(),
    ensures
        distinct_keys(s.update(i, (s[i].0, v))),
        as_map(s.update(i, (s[i].0, v))) == as_map(s).insert(s[i].0, v),
{
    let k = s[i].0;
    let t = s.update(i, (k, v));
    assert forall|a: int, b: int| 0 <= a < b < t.len() implies (#[trigger] t[a]).0 != (
    #[trigger] t[b]).0 by {
        assert(t[a].0 == s[a].0 && t[b].0 == s[b].0);
        assert(s[a].0 != s[b].0);
    }
    assert forall|q: K| as_map(t).contains_key(q) <==> as_map(s).insert(k, v).contains_key(q) by {
        if has_key(t, q) {
            let j = place_of(t, q);
            assert(s[j].0 == q);
        }
        if has_key(s, q) {
            let j = place_of(s, q);
            assert(t[j].0 == q);
        }
        if q == k {
            assert(t[i].0 == q);
        }
    }
    assert forall|q: K| as_map(t).contains_key(q) implies as_map(t)[q] == as_map(s).insert(
        k,
        v,
    )[q] by {
        let j = place_of(t, q);
        lemma_entry(t, j);
        if j != i {
            assert(s[j] == t[j]);
            lemma_entry(s, j);
        }
    }
    assert(as_map(t) =~= as_map(s).insert(k, v));
}

/// The entries of `m` whose value passes `keep`.
pub open spec fn retained<K, V>(m: Map<K, V>, keep: spec_fn(V) -> bool) -> Map<K, V> {
    Map::new(|k: K| m.contains_key(k) && keep(m[k]), |k: K| m[k])
}

/// Every value of `m` passes `keep`.
pub open spec fn all_pass<K, V>(m: Map<K, V>, keep: spec_fn(V) -> bool) -> bool {
    forall|k: K| m.contains_key(k) ==> keep(#[trigger] m[k])
}

/// A list that holds just the entries of `s` that pass `keep` is the map
/// of `s` with the other entries taken out.
pub proof fn lemma_retained<K, V>(s: Seq<(K, V)>, kept: Seq<(K, V)>, keep: spec_fn(V) -> bool)
    requires
        distinct_keys(s),
        distinct_keys(kept),
        forall|i: int| 0 <= i < kept.len() ==> s.contains(#[trigger] kept[i]) && keep(kept[i].1),
        forall|j: int| 0 <= j < s.len() && keep((#[trigger] s[j]).1) ==> kept.contains(s[j]),
    ensures
        as_map(kept) == retained(as_map(s), keep),
        all_pass(as_map(s), keep) <==> (forall|j: int|
            0 <= j < s.len() ==> keep((#[trigger] s[j]).1)),
{
    let m = as_map(s);
    assert forall|k: K| as_map(kept).contains_key(k) <==> retained(m, keep).contains_key(k) by {
        if has_key(kept, k) {
            let i = place_of(kept, k);
            assert(s.contains(kept[i]));
            let j = choose|j: int| 0 <= j < s.len() && s[j] == kept[i];
            lemma_entry(s, j);
        }
        if m.contains_key(k) && keep(m[k]) {
            let j = place_of(s, k);
            lemma_entry(s, j);
            assert(kept.contains(s[j]));
            let i = choose|i: int| 0 <= i < kept.len() && kept[i] == s[j];
            assert(kept[i].0 == k);
        }
    }
    assert forall|k: K| as_map(kept).contains_key(k) implies as_map(kept)[k] == retained(
        m,
        keep,
    )[k] by {
        let i = place_of(kept, k);
        lemma_entry(kept, i);
        assert(s.contains(kept[i]));
        let j = choose|j: int| 0 <= j < s.len() && s[j] == kept[i];
        lemma_entry(s, j);
    }
    assert(as_map(kept) =~= retained(m, keep));
    if all_pass(m, keep) {
        assert forall|j: int| 0 <= j < s.len() implies keep((#[trigger] s[j]).1) by {
            lemma_entry(s, j);
        }
    }
    if forall|j: int| 0 <= j < s.len() ==> keep((#[trigger] s[j]).1) {
        assert forall|k: K| m.contains_key(k) implies keep(#[trigger] m[k]) by {
            let j = place_of(s, k);
            lemma_entry(s, j);
        }
    }
}

/// `kept` holds just the entries of `all` from the place `n` on that pass
/// `keep`, and `passed` says whether all of them pass.
pub open spec fn kept_from<K, V>(
    all: Seq<(K, V)>,
    n: int,
    kept: Seq<(K, V)>,
    keep: spec_fn(V) -> bool,
    passed: bool,
) -> bool {
    &&& distinct_keys(kept)
    &&& forall|i: int|
        0 <= i < kept.len() ==> keep((#[trigger] kept[i]).1) && exists|j: int|
            n <= j < all.len() && all[j] == kept[i]
    &&& forall|j: int| n <= j < all.len() && keep((#[trigger] all[j]).1) ==> kept.contains(all[j])
    &&& passed == (forall|j: int| n <= j < all.len() ==> keep((#[trigger] all[j]).1))
}

/// Taking up the entry before the place `n`: it joins `kept` if it passes,
/// else it is left out and not all pass.
pub proof fn lemma_keep_step<K, V>(
    all: Seq<(K, V)>,
    n: int,
    kept: Seq<(K, V)>,
    keep: spec_fn(V) -> bool,
    passed: bool,
)
    requires
        distinct_keys(all),
        0 < n <= all.len(),
        kept_from(all, n, kept, keep, passed),
    ensures
        keep(all[n - 1].1) ==> kept_from(all, n - 1, kept.push(all[n - 1]), keep, passed),
        !keep(all[n - 1].1) ==> kept_from(all, n - 1, kept, keep, false),
{
    let x = all[n - 1];
    if keep(x.1) {
        let now = kept.push(x);
        assert forall|a: int, b: int| 0 <= a < b < now.len() implies (#[trigger] now[a]).0 != (
        #[trigger] now[b]).0 by {
            if b == kept.len() {
                let j = choose|j: int| n <= j < all.len() && all[j] == kept[a];
                assert(all[n - 1].0 != all[j].0);
            } else {
                assert(kept[a].0 != kept[b].0);
            }
        }
        assert forall|j: int| n - 1 <= j < all.len() && keep((#[trigger] all[j]).1) implies now.contains(
            all[j],
        ) by {
            if j == n - 1 {
                assert(now[kept.len() as int] == all[j]);
            } else {
                assert(kept.contains(all[j]));
                let i = choose|i: int| 0 <= i < kept.len() && kept[i] == all[j];
                assert(now[i] == all[j]);
            }
        }
        assert forall|i: int| 0 <= i < now.len() implies keep((#[trigger] now[i]).1) && exists|
            j: int,
        | n - 1 <= j < all.len() && all[j] == now[i] by {
            if i == kept.len() {
                assert(all[n - 1] == now[i]);
            } else {
                assert(kept[i] == now[i]);
                let j = choose|j: int| n <= j < all.len() && all[j] == kept[i];
                assert(all[j] == now[i]);
            }
        }
        if passed {
            assert forall|j: int| n - 1 <= j < all.len() implies keep((#[trigger] all[j]).1) by {}
        } else {
            let j = choose|j: int| n <= j < all.len() && !keep((#[trigger] all[j]).1);
            assert(!keep(all[j].1));
        }
    } else {
        assert forall|i: int| 0 <= i < kept.len() implies keep((#[trigger] kept[i]).1) && exists|
            j: int,
        | n - 1 <= j < all.len() && all[j] == kept[i] by {
            let j = choose|j: int| n <= j < all.len() && all[j] == kept[i];
            assert(all[j] == kept[i]);
        }
    }
}

/// Once every entry has been taken up, `kept` is the map of `all` with
/// the entries that do not pass taken out.
pub proof fn lemma_kept_all<K, V>(
    all: Seq<(K, V)>,
    kept: Seq<(K, V)>,
    keep: spec_fn(V) -> bool,
    passed: bool,
)
    requires
        distinct_keys(all),
        kept_from(all, 0, kept, keep, passed),
    ensures
        as_map(kept) == retained(as_map(all), keep),
        passed == all_pass(as_map(all), keep),
        forall|i: int| 0 <= i < kept.len() ==> all.contains(#[trigger] kept[i]),
{
    assert forall|i: int| 0 <= i < kept.len() implies all.contains(#[trigger] kept[i]) by {
        let j = choose|j: int| 0 <= j < all.len() && all[j] == kept[i];
        assert(all[j] == kept[i]);
    }
    lemma_retained(all, kept, keep);
}

} // verus!
