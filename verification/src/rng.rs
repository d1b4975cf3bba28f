//! Random draws, delegated to the terminal library's generator.
use vstd::prelude::*;

verus! {

/// The terminal library's seedable random number generator, carried through
/// verified code as an opaque value.
#[verifier::external_type_specification]
#[verifier::external_body]
pub struct ExRandomNumberGenerator(rltk::RandomNumberGenerator);

/// Calls `RandomNumberGenerator::range(min, max)` on `i32`, which draws from the
/// half-open range `min..max` (the library hands it to `rand`'s `gen_range`,
/// which panics on an empty range, hence the `requires`). Claimed: the value lies
/// in `min..max`. Not claimed: which value comes out; it depends on the
/// generator's state.
#[verifier::external_body]
pub(crate) fn rng_range_i32(rng: &mut rltk::RandomNumberGenerator, min: i32, max: i32) -> (r: i32)
    requires
        min < max,
    ensures
        min <= r < max,
{
    rng.range(min, max)
}

/// Calls `RandomNumberGenerator::range(min, max)` on `usize`; same claim as
/// [`rng_range_i32`]: the value lies in `min..max`, and nothing more.
#[verifier::external_body]
pub(crate) fn rng_range_usize(rng: &mut rltk::RandomNumberGenerator, min: usize, max: usize) -> (r: usize)
    requires
        min < max,
    ensures
        min <= r < max,
{
    rng.range(min, max)
}

} // verus!
