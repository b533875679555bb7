use daisy_garden::clock::Pulse;
use daisy_garden::sim::MockClockOut;
use daisy_garden::traits::ClockOut;
use daisy_garden::traits::IntParameter;
use daisy_garden::traits::Pin;

#[test]
fn test_constant_int_parameter_reads_itself() {
    let mut five: i32 = 5;
    assert_eq!(five.get(), 5);
    let mut negative: i32 = -3;
    assert_eq!(negative.get(), -3);
}

#[test]
fn test_pin_forwards_pulses() {
    let mut pin = Pin(MockClockOut::new());
    let done = pin.emit_pulse(100, 30);
    assert_eq!(done, 130);
    assert_eq!(pin.0.pulses().len(), 1);
    assert_eq!(pin.0.pulses()[0], Pulse { time: 100, duration: 30 });
}

#[test]
fn test_paired_sinks_pulse_together() {
    let mut pair = (MockClockOut::new(), MockClockOut::new());
    let done = pair.emit_pulse(10, 5);
    assert_eq!(done, 15);
    assert_eq!(pair.0.pulses()[0], Pulse { time: 10, duration: 5 });
    assert_eq!(pair.1.pulses()[0], Pulse { time: 10, duration: 5 });
}

#[test]
fn test_tripled_sinks_pulse_together() {
    let mut triple = (MockClockOut::new(), MockClockOut::new(), MockClockOut::new());
    let done = triple.emit_pulse(20, 7);
    assert_eq!(done, 27);
    assert_eq!(triple.0.pulses()[0], Pulse { time: 20, duration: 7 });
    assert_eq!(triple.1.pulses()[0], Pulse { time: 20, duration: 7 });
    assert_eq!(triple.2.pulses()[0], Pulse { time: 20, duration: 7 });
}
