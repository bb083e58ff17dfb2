use rand::rngs::ThreadRng;
use rand::RngExt;
use vstd::prelude::*;

verus! {

/// The thread-local random generator of the `rand` crate.
#[verifier::external_type_specification]
#[verifier::external_body]
pub struct ExThreadRng(ThreadRng);

/// Calls `rand::rng`, a handle on the thread's generator. Nothing is claimed of
/// the handle but that it can be drawn from.
#[verifier::external_body]
pub(crate) fn thread_rng() -> ThreadRng {
    rand::rng()
}

/// Calls `RngExt::random_range` on the half-open range `low..high`. rand's
/// documentation promises a value of the range and panics on an empty one; which
/// value comes out rests on chance, so only the range is claimed.
#[verifier::external_body]
pub(crate) fn random_in(rng: &mut ThreadRng, low: i32, high: i32) -> (value: i32)
    requires
        low < high,
    ensures
        low <= value < high,
{
    rng.random_range(low..high)
}

} // verus!
