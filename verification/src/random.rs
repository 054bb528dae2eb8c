use vstd::prelude::*;
use rand::Rng;

verus! {

/// The generator of the `rand` crate that belongs to the running thread.
/// Nothing is known of what it holds.
#[verifier::external_type_specification]
#[verifier::external_body]
pub struct ExThreadRng(rand::rngs::ThreadRng);

/// `rand::thread_rng` hands out the thread's generator, which the operating
/// system seeds. Nothing is claimed of the generator. The call panics where
/// the operating system gives no entropy for the seed; no argument decides
/// that, so no precondition leaves it out.
pub assume_specification[ rand::thread_rng ]() -> (rng: rand::rngs::ThreadRng);

/// `Rng::gen_range` on a half-open range of `i32`: some value of the range.
/// Which one depends on the generator, so two calls may differ. The range
/// must not be empty. Like `rand::thread_rng`, the call panics where the
/// generator has to seed itself anew and the operating system gives it no
/// entropy.
#[verifier::external_body]
pub(crate) fn draw(rng: &mut rand::rngs::ThreadRng, low: i32, high: i32) -> (value: i32)
    requires
        low < high,
    ensures
        low <= value < high,
{
    rng.gen_range(low..high)
}

} // verus!
