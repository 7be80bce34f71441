//! The seeded random-number source: thin trusted wrappers around
//! bracket_lib's `RandomNumberGenerator`, which every procedural decision
//! draws from so that one seed reproduces one dungeon.
use vstd::prelude::*;

verus! {

#[verifier::external_type_specification]
#[verifier::external_body]
pub struct ExRandomNumberGenerator(bracket_lib::prelude::RandomNumberGenerator);

/// Relies on bracket_lib's `RandomNumberGenerator::seeded`: builds a
/// generator whose stream is determined by the given seed.
#[verifier::external_body]
pub(crate) fn rng_seeded(seed: u64) -> bracket_lib::prelude::RandomNumberGenerator {
    bracket_lib::prelude::RandomNumberGenerator::seeded(seed)
}

/// Relies on bracket_lib's `RandomNumberGenerator::range`: a draw inclusive
/// of `min` and exclusive of `max`. The underlying generator panics on an
/// empty range, which the precondition rules out.
#[verifier::external_body]
pub(crate) fn rng_range(
    rng: &mut bracket_lib::prelude::RandomNumberGenerator,
    min: i32,
    max: i32,
) -> (r: i32)
    requires
        min < max,
    ensures
        min <= r < max,
{
    rng.range(min, max)
}

} // verus!
