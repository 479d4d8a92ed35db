//! The server's sources of chance.

use vstd::prelude::*;
use rand::rngs::SmallRng;
use rand::Rng;
use rand::RngCore;
use rand::SeedableRng;

verus! {

/// Draws a number from `start..end` with the thread's generator, through
/// `rand::Rng::random_range`. The number lies in the range; nothing else is
/// known of it, and two draws may differ. The range must not be empty.
#[verifier::external_body]
pub(crate) fn random_in_range(start: u32, end: u32) -> (r: u32)
    requires
        start < end,
    ensures
        start <= r < end,
{
    rand::rng().random_range(start..end)
}

/// Draws 32 bits from the thread's generator, through
/// `rand::RngCore::next_u32`. Nothing is known of them.
#[verifier::external_body]
pub(crate) fn random_u32() -> (r: u32) {
    rand::rng().next_u32()
}

/// Draws 64 bits from the thread's generator, through
/// `rand::RngCore::next_u64`. Nothing is known of them.
#[verifier::external_body]
pub(crate) fn random_u64() -> (r: u64) {
    rand::rng().next_u64()
}

/// The small generator of the `rand` crate, from which the seeds of a
/// terrain are drawn. Nothing is known of what is inside.
#[verifier::external_type_specification]
#[verifier::external_body]
pub struct ExSmallRng(SmallRng);

/// Makes a small generator from a seed, through
/// `rand::SeedableRng::seed_from_u64`. Nothing is claimed of it: what it
/// yields for a seed may differ from one machine or version to the next.
#[verifier::external_body]
pub(crate) fn seeded_generator(seed: u64) -> (rng: SmallRng) {
    SmallRng::seed_from_u64(seed)
}

/// Draws 32 bits from a small generator, through
/// `rand::RngCore::next_u32`. Nothing is known of them.
#[verifier::external_body]
pub(crate) fn draw_u32(rng: &mut SmallRng) -> (r: u32) {
    rng.next_u32()
}

/// Draws 64 bits from a small generator, through
/// `rand::RngCore::next_u64`. Nothing is known of them.
#[verifier::external_body]
pub(crate) fn draw_u64(rng: &mut SmallRng) -> (r: u64) {
    rng.next_u64()
}

} // verus!
