//! Draws from a seeded `rand` generator. Every draw's value depends on the
//! generator's state, so only its range is known.
use vstd::prelude::*;
use rand::{RngExt, SeedableRng};
use rand::rngs::StdRng;

verus! {

#[verifier::external_type_specification]
#[verifier::external_body]
pub struct ExStdRng(StdRng);

/// `RngExt::random_range(0..n)` on `u32`: a value below `n`.
#[verifier::external_body]
pub(crate) fn random_below_u32(rng: &mut StdRng, n: u32) -> (r: u32)
    requires
        n > 0,
    ensures
        r < n,
{
    rng.random_range(0..n)
}

/// `RngExt::random_range(lo..=hi)` on `i8`: a value in `lo..=hi`.
#[verifier::external_body]
pub(crate) fn random_i8_inclusive(rng: &mut StdRng, lo: i8, hi: i8) -> (r: i8)
    requires
        lo <= hi,
    ensures
        lo <= r <= hi,
{
    rng.random_range(lo..=hi)
}

/// `RngExt::random_range(lo..=hi)` on `i32`: a value in `lo..=hi`.
#[verifier::external_body]
pub(crate) fn random_i32_inclusive(rng: &mut StdRng, lo: i32, hi: i32) -> (r: i32)
    requires
        lo <= hi,
    ensures
        lo <= r <= hi,
{
    rng.random_range(lo..=hi)
}

/// `SeedableRng::seed_from_u64`: a generator seeded from `seed`.
#[verifier::external_body]
pub(crate) fn seeded_rng(seed: u64) -> StdRng {
    StdRng::seed_from_u64(seed)
}

/// `RngExt::random::<u64>()`: any `u64`.
#[verifier::external_body]
pub(crate) fn random_u64(rng: &mut StdRng) -> u64 {
    rng.random()
}

/// `RngExt::random_range(lo..=hi)` on `u32`: a value in `lo..=hi`.
#[verifier::external_body]
pub(crate) fn random_u32_inclusive(rng: &mut StdRng, lo: u32, hi: u32) -> (r: u32)
    requires
        lo <= hi,
    ensures
        lo <= r <= hi,
{
    rng.random_range(lo..=hi)
}

/// `RngExt::random_range(0..n)` on `usize`: a value below `n`.
#[verifier::external_body]
pub(crate) fn random_below_usize(rng: &mut StdRng, n: usize) -> (r: usize)
    requires
        n > 0,
    ensures
        r < n,
{
    rng.random_range(0..n)
}

} // verus!
