//! Seeded randomness used when picking a peer to query, through the `rand`
//! and `rand_chacha` crates.

use vstd::prelude::*;

verus! {

#[verifier::external_type_specification]
#[verifier::external_body]
pub struct ExChaCha20Rng(rand_chacha::ChaCha20Rng);

/// Relies on `rand_chacha::ChaCha20Rng::from_seed` (the `SeedableRng` impl),
/// which builds a generator from a 32-byte seed and does not panic.
#[verifier::external_body]
pub fn rng_from_seed(seed: [u8; 32]) -> rand_chacha::ChaCha20Rng {
    <rand_chacha::ChaCha20Rng as rand_chacha::rand_core::SeedableRng>::from_seed(seed)
}

/// Relies on `rand::Rng::gen_range`: on the non-empty range `0..n` it returns
/// a value of that range. Nothing is assumed about which value comes out.
#[verifier::external_body]
pub fn rng_below(rng: &mut rand_chacha::ChaCha20Rng, n: usize) -> (r: usize)
    requires
        n >= 1,
    ensures
        r < n,
{
    <rand_chacha::ChaCha20Rng as rand::Rng>::gen_range(rng, 0..n)
}

} // verus!
