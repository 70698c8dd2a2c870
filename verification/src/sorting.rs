use vstd::prelude::*;

verus! {

/// The order of pairs of a vertex id and a position: by id, then by position.
pub open spec fn pair_le(a: (u64, usize), b: (u64, usize)) -> bool {
    a.0 < b.0 || (a.0 == b.0 && a.1 <= b.1)
}

/// `<[T]>::sort_unstable` on pairs of integers: afterwards the vector holds
/// the same pairs, each as often as before, in ascending order. Tuples
/// compare by their first component and then by their second.
#[verifier::external_body]
pub(crate) fn sort_pairs(v: &mut Vec<(u64, usize)>)
    ensures
        final(v)@.to_multiset() == old(v)@.to_multiset(),
        forall|i: int, j: int| 0 <= i < j < final(v)@.len() ==> pair_le(final(v)@[i], final(v)@[j]),
{
    v.sort_unstable()
}

} // verus!
