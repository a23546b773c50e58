//! Seeded pseudo-random draws, backed by the ChaCha8 generator.
//!
//! Every combat or placement decision reseeds a fresh generator from plain
//! integers, so outcomes are a function of (seed, call order) alone.

use vstd::prelude::*;
use rand::Rng;
use rand::SeedableRng;

verus! {

#[verifier::external_type_specification]
#[verifier::external_body]
pub struct ExChaCha8Rng(rand_chacha::ChaCha8Rng);

/// Relies on `ChaCha8Rng::seed_from_u64`: builds a generator from a 64-bit
/// seed.
#[verifier::external_body]
pub fn rng_from_seed(seed: u64) -> rand_chacha::ChaCha8Rng {
    rand_chacha::ChaCha8Rng::seed_from_u64(seed)
}

/// Relies on `Rng::gen_range` over `0..n`, which panics on an empty range
/// and otherwise returns a draw below `n`.
#[verifier::external_body]
pub fn rng_below(rng: &mut rand_chacha::ChaCha8Rng, n: usize) -> (r: usize)
    requires
        n >= 1,
    ensures
        r < n,
{
    rng.gen_range(0..n)
}

} // verus!
