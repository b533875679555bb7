use daisy_garden::clock::Pulse;
use daisy_garden::clock::VaryingTicker;
use daisy_garden::clock::train_schedule;
use daisy_garden::clock::train_widths;
use daisy_garden::sim::MockClockOut;
use daisy_garden::sim::clock;

#[test]
fn test_train_widths_hits_the_cap() {
    // 10 Hz: a 100_000 us period is capped at a 10 ms pulse.
    assert_eq!(train_widths(100_000), (10_000, 90_000));
}

#[test]
fn test_train_widths_below_the_cap() {
    // A fast train uses half the period.
    assert_eq!(train_widths(10_000), (5_000, 5_000));
    // The shortest legal period still gives a positive pulse.
    assert_eq!(train_widths(2), (1, 1));
}

#[test]
fn test_train_schedule_zero_count_emits_nothing() {
    assert_eq!(train_schedule(1_000, 0, 100_000).len(), 0);
    assert_eq!(train_schedule(1_000, -3, 100_000).len(), 0);
}

#[test]
fn test_train_schedule_spacing_and_width() {
    let pulses = train_schedule(100, 3, 50_000);
    assert_eq!(pulses.len(), 3);
    assert_eq!(pulses[0], Pulse { time: 100, duration: 10_000 });
    assert_eq!(pulses[1], Pulse { time: 50_100, duration: 10_000 });
    assert_eq!(pulses[2], Pulse { time: 100_100, duration: 10_000 });
}

#[test]
fn test_varying_ticker_rearms_only_on_change() {
    let mut ticker = VaryingTicker::new();
    // The first reading always arms.
    assert!(ticker.next(120));
    // An unchanged rate keeps the schedule.
    assert!(!ticker.next(120));
    assert!(!ticker.next(120));
    // A changed rate re-arms, once.
    assert!(ticker.next(121));
    assert!(!ticker.next(121));
}

#[test]
fn test_clock_ticks_on_a_steady_grid() {
    // Three turns at a steady rate: one pulse per period, no drift.
    let mut clock_out = MockClockOut::new();
    clock(&mut clock_out, &vec![(120, 500_000), (120, 500_000), (120, 500_000)], 0);

    let pulses = clock_out.pulses();
    assert_eq!(pulses.len(), 3);
    assert_eq!(pulses[0], Pulse { time: 500_000, duration: 5_000 });
    assert_eq!(pulses[1], Pulse { time: 1_000_000, duration: 5_000 });
    assert_eq!(pulses[2], Pulse { time: 1_500_000, duration: 5_000 });
}

#[test]
fn test_clock_rearms_from_now_on_rate_change() {
    let mut clock_out = MockClockOut::new();
    clock(&mut clock_out, &vec![(120, 500_000), (120, 500_000), (60, 1_000_000)], 0);

    let pulses = clock_out.pulses();
    assert_eq!(pulses.len(), 3);
    // The steady turns stay on the grid.
    assert_eq!(pulses[0], Pulse { time: 500_000, duration: 5_000 });
    assert_eq!(pulses[1], Pulse { time: 1_000_000, duration: 5_000 });
    // The changed rate re-arms one new period after "now" (the completion of
    // the previous pulse at 1_005_000), not on the old grid.
    assert_eq!(pulses[2], Pulse { time: 2_005_000, duration: 5_000 });
}
