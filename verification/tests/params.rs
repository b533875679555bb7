use daisy_garden::params::AdcIntParameter;
use daisy_garden::params::correct_raw;

#[test]
fn test_new_rejects_inverted_range() {
    assert!(AdcIntParameter::new(5, 4).is_none());
    assert!(AdcIntParameter::new(0, -1).is_none());
    assert!(AdcIntParameter::new(7, 7).is_some());
}

#[test]
fn test_correct_raw_inverts_and_doubles() {
    assert_eq!(correct_raw(1), 65534);
    assert_eq!(correct_raw(16384), 32768);
    assert_eq!(correct_raw(32768), 0);
}

#[test]
fn test_correct_raw_propagates_out_of_domain_samples() {
    // No clamping: samples outside the pots' nominal domain propagate.
    assert_eq!(correct_raw(0), 65536);
    assert_eq!(correct_raw(40000), -14464);
    assert_eq!(correct_raw(65535), -65534);
}

#[test]
fn test_int_param_exact_values() {
    let p = AdcIntParameter::new(1, 10).unwrap();
    // The lowest in-domain sample reaches the top of the range.
    assert_eq!(p.get(1), 10);
    // The highest in-domain sample sits at the bottom.
    assert_eq!(p.get(32768), 1);
    // Mid-scale: corrected 32768, 1 + 10 * 32768 / 65536 = 6.
    assert_eq!(p.get(16384), 6);
    assert_eq!(p.map_corrected(32768), 6);
}

#[test]
fn test_int_param_propagates_out_of_domain_samples() {
    // Out-of-domain raw samples give out-of-range results, unvalidated.
    let p = AdcIntParameter::new(1, 10).unwrap();
    // raw 0: corrected 65536, result one past the top of the range.
    assert_eq!(p.get(0), 11);
    // raw above 32768: negative corrected, result below the range
    // (truncating division: 1 + 10 * -14464 / 65536 = 1 - 2).
    assert_eq!(p.get(40000), -1);
}

#[test]
fn test_int_param_stays_in_range_on_nominal_domain() {
    let p = AdcIntParameter::new(-100, 100).unwrap();
    let mut raw: u32 = 1;
    while raw <= 32768 {
        let v = p.get(raw as u16);
        assert!(p.min() <= v && v <= p.max());
        raw += 37;
    }
}

#[test]
fn test_int_param_decreases_as_raw_increases() {
    // The pots are inverted: a higher raw sample never yields a higher value.
    let p = AdcIntParameter::new(0, 1000).unwrap();
    let mut prev: i32 = p.get(1);
    let mut raw: u32 = 2;
    while raw <= 32768 {
        let v = p.get(raw as u16);
        assert!(v <= prev);
        prev = v;
        raw += 13;
    }
    // And the inversion is visible end to end.
    assert!(p.get(1) > p.get(32768));
}
