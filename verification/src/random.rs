//! The random source that the engines draw from.
//!
//! Each engine owns one generator, seeded by its creator, so that a run can be
//! repeated from its seed. Nothing here is proved: the two functions below
//! state what the `rand` crate shows of the calls they make.

use vstd::prelude::*;
use rand::Rng;
use rand::SeedableRng;

verus! {

/// `rand::rngs::StdRng`, the generator of the engines. Nothing is known of
/// what it holds.
#[verifier::external_type_specification]
#[verifier::external_body]
pub struct ExStdRng(rand::rngs::StdRng);

/// Calls `rand::SeedableRng::seed_from_u64` for `rand::rngs::StdRng`.
///
/// The call accepts every seed and never fails; nothing is claimed of the
/// generator that comes back.
#[verifier::external_body]
pub(crate) fn seeded(seed: u64) -> (rng: rand::rngs::StdRng)
{
    rand::rngs::StdRng::seed_from_u64(seed)
}

/// Calls `rand::Rng::random_range` on the inclusive range `low..=high`.
///
/// `rand` panics on an empty range, which `requires` leaves out. Of the value
/// drawn only this is claimed: it lies in the range, whatever the generator's
/// state was.
#[verifier::external_body]
pub(crate) fn draw_between(rng: &mut rand::rngs::StdRng, low: i64, high: i64) -> (value: i64)
    requires
        low <= high,
    ensures
        low <= value <= high,
{
    rng.random_range(low..=high)
}

} // verus!
