//! The source of randomness: the thread-local generator of the `rand` crate.
use vstd::prelude::*;
use rand::rngs::ThreadRng;
use rand::Rng;

verus! {

#[verifier::external_type_specification]
#[verifier::external_body]
pub struct ExThreadRng(rand::rngs::ThreadRng);

/// Hands out `rand::rng()`, the generator of the calling thread. Nothing is claimed of
/// its state.
#[verifier::external_body]
pub(crate) fn thread_rng() -> (rng: ThreadRng) {
    rand::rng()
}

/// Draws an integer with `Rng::random_range` on the half-open range `low..high`,
/// which panics only for an empty range. All that is claimed of the outcome is that it
/// lies in the range.
#[verifier::external_body]
pub(crate) fn random_in_range(rng: &mut ThreadRng, low: i64, high: i64) -> (r: i64)
    requires
        low < high,
    ensures
        low <= r < high,
{
    rng.random_range(low..high)
}

} // verus!
