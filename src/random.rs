use vstd::prelude::*;
use rand::Rng;
use rand::rngs::ThreadRng;

verus! {

#[verifier::external_type_specification]
#[verifier::external_body]
pub struct ExThreadRng(rand::rngs::ThreadRng);

/// Relies on `rand::rng`: a handle to the thread-local generator.
#[verifier::external_body]
pub(crate) fn thread_rng() -> ThreadRng {
    rand::rng()
}

/// Relies on `Rng::random::<u32>`: any `u32` may come back.
#[verifier::external_body]
pub(crate) fn draw_u32(rng: &mut ThreadRng) -> u32 {
    rng.random::<u32>()
}

/// Relies on `Rng::random_ratio`: `true` with probability
/// `numerator / denominator`; it panics unless `0 < denominator` and
/// `numerator <= denominator`, always answers `true` when the two are equal
/// and never when the numerator is zero.
#[verifier::external_body]
pub(crate) fn draw_ratio(rng: &mut ThreadRng, numerator: u32, denominator: u32) -> (r: bool)
    requires
        0 < denominator,
        numerator <= denominator,
    ensures
        numerator == denominator ==> r,
        numerator == 0 ==> !r,
{
    rng.random_ratio(numerator, denominator)
}

} // verus!
