//! Random numbers.

use rand::Rng;
use vstd::prelude::*;

verus! {

/// Calls `rand::Rng::gen_range` on `0..bound` with the thread's generator: a number
/// below the bound. The range must not be empty, or it panics. Which number comes
/// depends on chance.
#[verifier::external_body]
pub(crate) fn random_below(bound: usize) -> (n: usize)
    requires
        bound > 0,
    ensures
        n < bound,
{
    rand::thread_rng().gen_range(0..bound)
}

/// Calls `rand::Rng::gen` on `rand::rngs::OsRng` for 128 random bits. They depend on
/// chance, so nothing is claimed of them.
#[verifier::external_body]
pub(crate) fn random_u128() -> u128 {
    rand::rngs::OsRng.gen()
}

} // verus!
