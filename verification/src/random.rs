//! The source of the random draws.

use vstd::prelude::*;

verus! {

/// `rand::rngs::ThreadRng`, the handle to a thread's generator: a value that
/// is carried and handed to the draws, and of which nothing is known.
#[verifier::external_type_specification]
#[verifier::external_body]
pub struct ExThreadRng(rand::rngs::ThreadRng);

/// Calls `rand::thread_rng`, which hands out a handle to the generator of
/// the calling thread. Nothing is claimed of the handle.
#[verifier::external_body]
pub(crate) fn local_generator() -> (rng: rand::rngs::ThreadRng) {
    rand::thread_rng()
}

/// Calls `rand::Rng::gen_range` on the half-open range from zero to `bound`.
/// The method panics on an empty range, which the precondition leaves out,
/// and returns a value of the range; which one is not said.
#[verifier::external_body]
pub(crate) fn draw_below(rng: &mut rand::rngs::ThreadRng, bound: usize) -> (pick: usize)
    requires
        bound > 0,
    ensures
        pick < bound,
{
    rand::Rng::gen_range(rng, 0..bound)
}

} // verus!
