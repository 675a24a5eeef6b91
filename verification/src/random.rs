use vstd::prelude::*;
use rltk::RandomNumberGenerator;

verus! {

/// The dice-oriented random number generator of rltk.
#[verifier::external_type_specification]
#[verifier::external_body]
pub struct ExRandomNumberGenerator(RandomNumberGenerator);

/// Calls `RandomNumberGenerator::new`, which seeds a generator from the
/// operating system's entropy (or the clock). Nothing is claimed of the result.
#[verifier::external_body]
pub(crate) fn new_rng() -> RandomNumberGenerator {
    RandomNumberGenerator::new()
}

/// Calls `RandomNumberGenerator::range` on `i32`: a value drawn uniformly from
/// `min` (inclusive) to `max` (exclusive). The crate panics on an empty range,
/// which `requires` leaves out. Only the range of the result is claimed.
#[verifier::external_body]
pub(crate) fn rng_range(rng: &mut RandomNumberGenerator, min: i32, max: i32) -> (r: i32)
    requires
        min < max,
    ensures
        min <= r < max,
{
    rng.range(min, max)
}

/// Calls `RandomNumberGenerator::roll_dice`: the sum of `n` rolls of a die
/// with faces `1..=die_type` (each roll is `range(1, die_type + 1)`); no roll
/// at all when `n <= 0`. `requires` leaves out the inputs on which the crate
/// panics (an empty die, `die_type + 1` or the sum overflowing). Only the
/// bounds of the sum are claimed.
#[verifier::external_body]
pub(crate) fn rng_roll_dice(rng: &mut RandomNumberGenerator, n: i32, die_type: i32) -> (r: i32)
    requires
        n > 0 ==> 1 <= die_type < i32::MAX && n * die_type <= i32::MAX,
    ensures
        n <= 0 ==> r == 0,
        n > 0 ==> n <= r <= n * die_type,
{
    rng.roll_dice(n, die_type)
}

} // verus!
