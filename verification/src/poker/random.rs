use vstd::prelude::*;
use rand::seq::SliceRandom;
use rand::Rng;
use crate::poker::cards::Card;

verus! {

/// The per-thread random number generator of the `rand` crate, carried
/// through the library as an opaque value.
#[verifier::external_type_specification]
#[verifier::external_body]
pub struct ExThreadRng(rand::rngs::ThreadRng);

/// Calls `rand::thread_rng()`. Nothing is claimed of the generator it hands back.
#[verifier::external_body]
pub(crate) fn thread_rng() -> rand::rngs::ThreadRng {
    rand::thread_rng()
}

/// Calls `Rng::gen_range(0..n)` on `rng`. The `rand` source and docs show
/// that it returns a value in `0..n` and panics on an empty range, so `n`
/// must be positive; which value comes back is left open.
#[verifier::external_body]
pub(crate) fn random_below(rng: &mut rand::rngs::ThreadRng, n: usize) -> (r: usize)
    requires
        n > 0,
    ensures
        r < n,
{
    rng.gen_range(0..n)
}

/// Calls `SliceRandom::shuffle` on the cards. Its source performs a series
/// of swaps, so the result is a permutation of the input: the same length
/// and the same multiset of cards. The order that comes out is left open.
#[verifier::external_body]
pub(crate) fn shuffle_cards(rng: &mut rand::rngs::ThreadRng, v: &mut Vec<Card>)
    ensures
        final(v)@.len() == old(v)@.len(),
        final(v)@.to_multiset() == old(v)@.to_multiset(),
{
    v.shuffle(rng)
}

} // verus!
