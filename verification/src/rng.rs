//! Random numbers for dungeon generation, supplied by the `bracket-random`
//! crate.  Everything here is a trusted declaration: the generator type is
//! opaque, and the wrappers state only the range bounds that the crate's
//! documentation promises.  Nothing is assumed about which value comes back,
//! so every caller is verified for every possible outcome.

use vstd::prelude::*;

verus! {

/// `bracket_random::prelude::RandomNumberGenerator`: an xorshift generator.
#[verifier::external_type_specification]
#[verifier::external_body]
pub struct ExRandomNumberGenerator(bracket_random::prelude::RandomNumberGenerator);

/// Relies on `RandomNumberGenerator::new`: a generator seeded from entropy.
#[verifier::external_body]
pub fn rng_new() -> (rng: bracket_random::prelude::RandomNumberGenerator) {
    bracket_random::prelude::RandomNumberGenerator::new()
}

/// Relies on `RandomNumberGenerator::range`: a value in `[min, max)`,
/// inclusive of `min` and exclusive of `max`.
#[verifier::external_body]
pub fn rng_range(
    rng: &mut bracket_random::prelude::RandomNumberGenerator,
    min: i32,
    max: i32,
) -> (r: i32)
    requires
        min < max,
    ensures
        min <= r < max,
{
    rng.range(min, max)
}

/// Relies on `RandomNumberGenerator::roll_dice`: the sum of `n` dice each in
/// `[1, die_type]`, so the total lies in `[n, n * die_type]`.
#[verifier::external_body]
pub fn rng_roll_dice(
    rng: &mut bracket_random::prelude::RandomNumberGenerator,
    n: i32,
    die_type: i32,
) -> (r: i32)
    requires
        1 <= n,
        1 <= die_type < i32::MAX,
        n * die_type <= i32::MAX,
    ensures
        n <= r <= n * die_type,
{
    rng.roll_dice(n, die_type)
}

} // verus!
