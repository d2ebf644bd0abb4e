//! Sorting by the standard library, with what it promises.

use vstd::prelude::*;
use vstd::relations::{sorted_by, total_ordering};
use vstd::seq_lib::lemma_sorted_unique;

verus! {

/// The order of numbers.
pub open spec fn u32_leq() -> spec_fn(u32, u32) -> bool {
    |a: u32, b: u32| a <= b
}

/// The order of pairs: by the first number, then by the second.
pub open spec fn pair_leq() -> spec_fn((u64, u64), (u64, u64)) -> bool {
    |a: (u64, u64), b: (u64, u64)| a.0 < b.0 || (a.0 == b.0 && a.1 <= b.1)
}

/// `slice::sort` on numbers: the result is in ascending order and holds
/// the same numbers, each as often as before.
#[verifier::external_body]
pub(crate) fn std_sort_u32(v: &mut Vec<u32>)
    ensures
        sorted_by(final(v)@, u32_leq()),
        final(v)@.to_multiset() == old(v)@.to_multiset(),
{
    v.sort();
}

/// `slice::sort` on pairs of numbers, which are ordered by their first
/// number and then by their second: the result is in ascending order and
/// holds the same pairs, each as often as before.
#[verifier::external_body]
pub(crate) fn std_sort_pairs(v: &mut Vec<(u64, u64)>)
    ensures
        sorted_by(final(v)@, pair_leq()),
        final(v)@.to_multiset() == old(v)@.to_multiset(),
{
    v.sort();
}

/// Sorts numbers in ascending order.
pub fn sort_u32(v: &mut Vec<u32>)
    ensures
        final(v)@ == old(v)@.sort_by(u32_leq()),
{
    std_sort_u32(v);
    proof {
        assert(total_ordering(u32_leq()));
        old(v)@.lemma_sort_by_ensures(u32_leq());
        lemma_sorted_unique(v@, old(v)@.sort_by(u32_leq()), u32_leq());
    }
}

/// Sorts pairs of numbers in ascending order, by the first number and
/// then by the second.
pub fn sort_pairs(v: &mut Vec<(u64, u64)>)
    ensures
        final(v)@ == old(v)@.sort_by(pair_leq()),
        final(v)@.len() == old(v)@.len(),
        forall|i: int| 0 <= i < final(v)@.len() ==> old(v)@.contains(#[trigger] final(v)@[i]),
{
    std_sort_pairs(v);
    proof {
        assert(total_ordering(pair_leq()));
        old(v)@.lemma_sort_by_ensures(pair_leq());
        lemma_sorted_unique(v@, old(v)@.sort_by(pair_leq()), pair_leq());
        v@.to_multiset_ensures();
        old(v)@.to_multiset_ensures();
        assert forall|i: int| 0 <= i < v@.len() implies old(v)@.contains(#[trigger] v@[i]) by {
            assert(v@.contains(v@[i]));
        }
    }
}

} // verus!
