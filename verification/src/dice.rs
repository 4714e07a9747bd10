//! The random draws that lay out a stage, taken from the `rand` crate.

use rand::rngs::StdRng;
use vstd::prelude::*;

verus! {

#[verifier::external_type_specification]
#[verifier::external_body]
pub struct ExStdRng(StdRng);

/// `rand::SeedableRng::seed_from_u64` for `StdRng`: a generator whose whole
/// sequence follows from the seed. Nothing is claimed of the sequence.
#[verifier::external_body]
pub(crate) fn seeded(seed: u64) -> (rng: StdRng) {
    rand::SeedableRng::seed_from_u64(seed)
}

/// `rand::Rng::gen::<u32>`: the generator's next 32 bits. Any value may come.
#[verifier::external_body]
pub(crate) fn draw_u32(rng: &mut StdRng) -> (n: u32) {
    rand::Rng::gen::<u32>(rng)
}

/// `rand::Rng::gen_ratio`: true with a chance of `numerator` in
/// `denominator`. The call panics on a zero denominator and on a ratio above
/// one, which the precondition keeps out. Either answer may come.
#[verifier::external_body]
pub(crate) fn draw_ratio(rng: &mut StdRng, numerator: u32, denominator: u32) -> (hit: bool)
    requires
        denominator != 0,
        numerator <= denominator,
{
    rand::Rng::gen_ratio(rng, numerator, denominator)
}

} // verus!
