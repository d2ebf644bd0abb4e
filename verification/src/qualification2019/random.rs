//! Random choices.

use rand::seq::SliceRandom;
use rand::Rng;
use vstd::prelude::*;

verus! {

/// A number below `n`, drawn from the thread's random number generator by
/// `rand::Rng::gen_range(0, n)`, which returns a value of the half-open
/// range and panics where the range is empty.
#[verifier::external_body]
pub(crate) fn random_below(n: usize) -> (r: usize)
    requires
        n > 0,
    ensures
        r < n,
{
    rand::thread_rng().gen_range(0, n)
}

/// Puts the items of `v` in a random order with
/// `rand::seq::SliceRandom::shuffle`, which swaps items in place: the
/// items stay the same, each as often as before.
#[verifier::external_body]
pub(crate) fn shuffle(v: &mut Vec<usize>)
    ensures
        final(v)@.to_multiset() == old(v)@.to_multiset(),
{
    v.shuffle(&mut rand::thread_rng());
}

} // verus!
