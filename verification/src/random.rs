//! Random draws from the thread-local generator of `rand`.

use vstd::prelude::*;

use rand::Rng;

verus! {

/// The thread-local random number generator of `rand`; opaque here.
#[verifier::external_type_specification]
#[verifier::external_body]
pub struct ExThreadRng(rand::rngs::ThreadRng);

/// Draws a number from `0..bound` with `Rng::gen_range` of `rand`.
///
/// `gen_range` documents that it returns a value of the given range and that
/// it panics on an empty range; hence the contract claims only that the result
/// is below `bound`, for a positive `bound`. Which value comes back depends on
/// the generator's state and is not stated.
#[verifier::external_body]
pub(crate) fn random_below(rng: &mut rand::rngs::ThreadRng, bound: usize) -> (r: usize)
    requires
        0 < bound,
    ensures
        r < bound,
{
    rng.gen_range(0..bound)
}

} // verus!
