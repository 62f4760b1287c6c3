//! The entropy adapter: one seed, one generator, one draw.

use rand::rngs::StdRng;
use rand::{Rng, SeedableRng};
use vstd::prelude::*;

verus! {

/// The standard generator of `rand`, `rand::rngs::StdRng`. It is carried
/// from where it is seeded to where it is drawn from, and nothing is known
/// of what it holds.
#[verifier::external_type_specification]
#[verifier::external_body]
pub struct ExStdRng(StdRng);

/// `SeedableRng::from_seed` of `rand`, for its standard generator. Nothing
/// is claimed of the generator that it returns.
#[verifier::external_body]
fn generator_from_seed(seed: [u8; 32]) -> (generator: StdRng) {
    StdRng::from_seed(seed)
}

/// `Rng::gen_range` of `rand` with the lower bound 0: the value lies in the
/// half-open range from 0 to `bound`. Which value it is depends on the
/// generator, and nothing is claimed of that. The call panics on an empty
/// range, so the bound is to be positive.
#[verifier::external_body]
fn draw_below(generator: &mut StdRng, bound: u128) -> (value: u128)
    requires
        bound > 0,
    ensures
        value < bound,
{
    generator.gen_range(0, bound)
}

/// Draws a rank between 1 and `remaining` from a generator that is made of
/// the seed for this one draw and dropped after it.
pub fn draw_rank(seed: [u8; 32], remaining: u128) -> (rank: u128)
    requires
        remaining > 0,
    ensures
        1 <= rank <= remaining,
{
    let mut generator = generator_from_seed(seed);
    draw_below(&mut generator, remaining) + 1
}

} // verus!
