use rand::SeedableRng;
use rand::RngCore;
use rand::rngs::SmallRng;

use daisy_garden::noise::NoiseGenerator;
use daisy_garden::noise::WhiteNoiseGenerator;
use daisy_garden::noise::white_from_raw;

#[test]
fn test_white_from_raw_takes_bits_16_to_31() {
    assert_eq!(white_from_raw(0x1234_5678_9ABC_DEF0), 0x9ABC);
    assert_eq!(white_from_raw(0), 0);
    assert_eq!(white_from_raw(u64::MAX), 0xFFFF);
    assert_eq!(white_from_raw(0x0001_0000), 1);
    // The low 16 bits are discarded.
    assert_eq!(white_from_raw(0xFFFF), 0);
}

#[test]
fn test_white_sample_matches_the_rng_draw() {
    // The generator must actually draw from its PRNG: the sample equals the
    // white reduction of the same seeded PRNG's first draw.
    let mut reference = SmallRng::seed_from_u64(42);
    let expected = ((reference.next_u64() >> 16) & 0xFFFF) as u16;

    let mut generator = WhiteNoiseGenerator::new(SmallRng::seed_from_u64(42));
    assert_eq!(generator.sample(), expected);
}

#[test]
fn test_white_noise_is_deterministic_per_seed() {
    let mut a = WhiteNoiseGenerator::new(SmallRng::seed_from_u64(7));
    let mut b = WhiteNoiseGenerator::new(SmallRng::seed_from_u64(7));
    let mut i: usize = 0;
    while i < 16 {
        assert_eq!(a.sample(), b.sample());
        i += 1;
    }
}

#[test]
fn test_seeded_generators_from_one_source_agree() {
    let mut seed_a = SmallRng::seed_from_u64(99);
    let mut seed_b = SmallRng::seed_from_u64(99);
    let mut a = WhiteNoiseGenerator::new_simple_from_rng(&mut seed_a);
    let mut b = WhiteNoiseGenerator::new_simple_from_rng(&mut seed_b);
    let mut i: usize = 0;
    while i < 16 {
        assert_eq!(a.sample(), b.sample());
        i += 1;
    }
}

#[test]
fn test_white_noise_varies() {
    // Not all samples of a run are the same value.
    let mut generator = WhiteNoiseGenerator::new(SmallRng::seed_from_u64(1));
    let first = generator.sample();
    let mut saw_other = false;
    let mut i: usize = 0;
    while i < 64 {
        if generator.sample() != first {
            saw_other = true;
        }
        i += 1;
    }
    assert!(saw_other);
}
