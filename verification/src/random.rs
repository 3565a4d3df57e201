//! Sampling from the thread-local random number generator of `rand`.
use rand::rngs::ThreadRng;
use rand::Rng;
use vstd::prelude::*;

verus! {

#[verifier::external_type_specification]
#[verifier::external_body]
pub struct ExThreadRng(ThreadRng);

/// Calls `rand::Rng::random_range` on `0..bound`, which panics on an empty range and
/// otherwise returns a value of the range. Nothing is promised of which value.
#[verifier::external_body]
pub(crate) fn random_below(rng: &mut ThreadRng, bound: u64) -> (r: u64)
    requires
        bound > 0,
    ensures
        r < bound,
{
    rng.random_range(0..bound)
}

} // verus!
