//! The random generator of a clustering run.

use rand::rngs::StdRng;
use rand::{Rng, SeedableRng};
use vstd::prelude::*;

verus! {

/// The standard generator of the `rand` crate. Nothing is known of what it
/// holds.
#[verifier::external_type_specification]
#[verifier::external_body]
pub struct ExStdRng(rand::rngs::StdRng);

/// Calls `StdRng::seed_from_u64`, which makes a generator from a seed.
/// Nothing is claimed of the generator.
#[verifier::external_body]
pub(crate) fn seeded(seed: u64) -> (generator: StdRng) {
    StdRng::seed_from_u64(seed)
}

/// Calls `Rng::random_range` on the range from zero up to but not including
/// `bound`. The call panics on an empty range, which `requires` leaves out;
/// the contract claims that the index drawn lies in the range.
#[verifier::external_body]
pub(crate) fn draw_below(generator: &mut StdRng, bound: usize) -> (index: usize)
    requires
        bound > 0,
    ensures
        index < bound,
{
    generator.random_range(0..bound)
}

} // verus!
