//! Shared, immutable values.

use std::rc::Rc;
use vstd::prelude::*;

verus! {

/// `Rc::clone` of the standard library: it returns another handle to the
/// allocation that `rc` points to, so the value seen through the new handle
/// is the value seen through `rc`.
#[verifier::external_body]
pub(crate) fn share<T>(rc: &Rc<T>) -> (r: Rc<T>)
    ensures
        r == *rc,
{
    Rc::clone(rc)
}

/// Two lists with the same members, each as often, have the same members.
pub proof fn lemma_same_members<A>(a: Seq<A>, b: Seq<A>)
    requires
        a.to_multiset() == b.to_multiset(),
    ensures
        forall|x: A| a.contains(x) <==> b.contains(x),
{
    assert forall|x: A| a.contains(x) <==> b.contains(x) by {
        vstd::seq_lib::to_multiset_contains(a, x);
        vstd::seq_lib::to_multiset_contains(b, x);
    }
}

} // verus!
