//! The engine's random source: the thread-local generator of the `rand`
//! crate, reached through trusted wrappers.

use vstd::prelude::*;
use rand::seq::SliceRandom;
use crate::piece::Kind;

verus! {

#[verifier::external_type_specification]
#[verifier::external_body]
pub struct ExThreadRng(rand::rngs::ThreadRng);

/// Relies on rand::thread_rng: a handle to the lazily-initialized
/// thread-local generator. Nothing is assumed of the values it will yield.
#[verifier::external_body]
pub(crate) fn fresh_rng() -> rand::rngs::ThreadRng {
    rand::thread_rng()
}

/// Relies on rand::seq::SliceRandom::shuffle: a Fisher-Yates pass that
/// permutes the slice in place by swaps, so the elements as a multiset, and
/// with them the length, are unchanged; nothing is assumed of the order.
#[verifier::external_body]
pub(crate) fn shuffle_kinds(v: &mut Vec<Kind>, rng: &mut rand::rngs::ThreadRng)
    ensures
        final(v)@.to_multiset() == old(v)@.to_multiset(),
        final(v)@.len() == old(v)@.len(),
{
    v.shuffle(rng);
}

} // verus!
