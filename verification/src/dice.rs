use vstd::prelude::*;
use bracket_lib::random::RandomNumberGenerator;

verus! {

/// bracket-lib's dice-oriented random number generator, carried through opaquely.
#[verifier::external_type_specification]
#[verifier::external_body]
pub struct ExRandomNumberGenerator(RandomNumberGenerator);

/// Calls `RandomNumberGenerator::new`, which seeds a generator from the operating
/// system (or the clock). Nothing is promised of the generator it returns.
#[verifier::external_body]
pub(crate) fn new_rng() -> (rng: RandomNumberGenerator) {
    RandomNumberGenerator::new()
}

/// Calls `RandomNumberGenerator::range(min, max)`, which draws uniformly from
/// `min` up to but excluding `max`. Its source hands the range to `rand`'s
/// `gen_range`, which panics on an empty range, hence `min < max`.
/// Which value in the range comes out is left unsaid: it depends on the seed.
#[verifier::external_body]
pub(crate) fn rng_range(rng: &mut RandomNumberGenerator, min: i32, max: i32) -> (r: i32)
    requires
        min < max,
    ensures
        min <= r < max,
{
    rng.range(min, max)
}

/// Calls `RandomNumberGenerator::roll_dice(n, die_type)`, the sum of `n` draws of
/// `range(1, die_type + 1)`. So the sum lies between `n` and `n * die_type`.
/// A die with fewer than one face would panic in `range`, and the sum and
/// `die_type + 1` are computed in `i32`, hence the bounds in `requires`.
/// Which sum comes out is left unsaid: it depends on the seed.
#[verifier::external_body]
pub(crate) fn rng_roll_dice(rng: &mut RandomNumberGenerator, n: i32, die_type: i32) -> (r: i32)
    requires
        0 <= n,
        n > 0 ==> 1 <= die_type < i32::MAX,
        n * die_type <= i32::MAX,
    ensures
        n <= r <= n * die_type,
{
    rng.roll_dice(n, die_type)
}

} // verus!
