//! Noise generation: a stream of quantized 16-bit samples drawn from a
//! small, fast PRNG.

use rand::RngCore;
use rand::SeedableRng;
use rand::rngs::SmallRng;
use vstd::prelude::*;

verus! {

#[verifier::external_type_specification]
#[verifier::external_body]
pub struct ExSmallRng(SmallRng);

/// A source of quantized audio-rate noise samples.
pub trait NoiseGenerator {
    /// Generate one noise sample.
    fn sample(&mut self) -> u16;
}

/// Relies on rand's `SeedableRng::from_rng` for `SmallRng`: seeds a fresh
/// generator from bytes drawn from `seed_rng`; drawing from a `SmallRng`
/// source cannot fail.
#[verifier::external_body]
fn small_rng_from_rng(seed_rng: &mut SmallRng) -> (r: SmallRng) {
    SmallRng::from_rng(seed_rng).expect("Failed to create SmallRng from seed")
}

/// Relies on rand's `RngCore::next_u64` for `SmallRng`: one pseudo-random
/// draw; any value may come back.
#[verifier::external_body]
fn rng_next_u64(rng: &mut SmallRng) -> (r: u64) {
    rng.next_u64()
}

/// The 16-bit white sample carried by one 64-bit draw: bits 16 to 31 (the
/// lowest bits of this PRNG family have weaker statistical quality).
pub open spec fn spec_white_sample(raw: u64) -> u64 {
    (raw >> 16) & 0xFFFF
}

/// Reduce one 64-bit draw to its 16-bit white sample.
pub fn white_from_raw(raw: u64) -> (r: u16)
    ensures
        r == spec_white_sample(raw),
{
    proof {
        assert((raw >> 16) & 0xFFFF <= 0xFFFF) by (bit_vector);
    }
    ((raw >> 16) & 0xFFFF) as u16
}

/// White noise: every sample is one uniformly distributed 16-bit value drawn
/// from the PRNG.
pub struct WhiteNoiseGenerator {
    rng: SmallRng,
}

impl WhiteNoiseGenerator {
    /// A generator drawing from the given PRNG.
    pub fn new(rng: SmallRng) -> (r: WhiteNoiseGenerator) {
        WhiteNoiseGenerator { rng }
    }

    /// A generator whose PRNG is seeded from another small PRNG.
    pub fn new_simple_from_rng(seed_rng: &mut SmallRng) -> (r: WhiteNoiseGenerator) {
        let rng = small_rng_from_rng(seed_rng);
        WhiteNoiseGenerator::new(rng)
    }
}

impl NoiseGenerator for WhiteNoiseGenerator {
    fn sample(&mut self) -> u16 {
        let raw = rng_next_u64(&mut self.rng);
        white_from_raw(raw)
    }
}

} // verus!
