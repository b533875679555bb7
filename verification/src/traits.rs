//! The capability interfaces of the scheduler: a narrow edge source, pulse
//! sink, and parameter source that both deterministic test doubles and
//! hardware bindings can satisfy.

use vstd::prelude::*;

use crate::clock::Pulse;
use crate::sim::MockClockIn;
use crate::sim::MockClockOut;
use crate::sim::spec_wait_rest;
use crate::sim::spec_wait_result;

verus! {

/// An edge source: a digital input reporting discrete edge timestamps.
pub trait ClockIn {
    /// Wait, starting at `now`, for the next edge; the returned timestamp is
    /// strictly after `now`. Nothing comes back from a source that will
    /// never fire again (a wait that never completes).
    fn wait(&mut self, now: u64) -> (r: Option<u64>)
        ensures
            r matches Some(t) ==> t > now,
    ;
}

/// A pulse sink: a digital output that can emit one timed high pulse.
pub trait ClockOut {
    /// Raise the output at `now`, hold it for `duration`, and lower it; the
    /// call completes at `now + duration`, only after both transitions.
    fn emit_pulse(&mut self, now: u64, duration: u64) -> (done: u64)
        requires
            now as int + duration as int <= u64::MAX as int,
        ensures
            done == now + duration,
    ;
}

/// An integer parameter source: recomputed fresh on every read, no caching.
pub trait IntParameter {
    /// Read the parameter's current value.
    fn get(&mut self) -> i32;
}

/// A constant stands in for a parameter source wherever one is expected: it
/// reads as itself, unchanged, on every read.
impl IntParameter for i32 {
    fn get(&mut self) -> (r: i32)
        ensures
            r == *old(self),
            *final(self) == *old(self),
    {
        *self
    }
}

impl ClockIn for MockClockIn {
    fn wait(&mut self, now: u64) -> (r: Option<u64>)
        ensures
            r == spec_wait_result(old(self)@, now),
            final(self)@ == spec_wait_rest(old(self)@, now),
    {
        self.wait_from(now)
    }
}

impl ClockOut for MockClockOut {
    fn emit_pulse(&mut self, now: u64, duration: u64) -> (done: u64)
        ensures
            final(self)@ == old(self)@.push(Pulse { time: now, duration }),
    {
        self.emit_pulse_at(now, duration)
    }
}

/// Newtype wrapper for a pin-like output to implement `ClockOut`.
pub struct Pin<T>(pub T);

impl<T: ClockOut> ClockOut for Pin<T> {
    fn emit_pulse(&mut self, now: u64, duration: u64) -> (done: u64) {
        self.0.emit_pulse(now, duration)
    }
}

/// Two sinks driven together: the pulse goes out on both at once, and the
/// emission completes when both are done.
impl<T0: ClockOut, T1: ClockOut> ClockOut for (T0, T1) {
    fn emit_pulse(&mut self, now: u64, duration: u64) -> (done: u64) {
        let done = self.0.emit_pulse(now, duration);
        let _ = self.1.emit_pulse(now, duration);
        done
    }
}

/// Three sinks driven together.
impl<T0: ClockOut, T1: ClockOut, T2: ClockOut> ClockOut for (T0, T1, T2) {
    fn emit_pulse(&mut self, now: u64, duration: u64) -> (done: u64) {
        let done = self.0.emit_pulse(now, duration);
        let _ = self.1.emit_pulse(now, duration);
        let _ = self.2.emit_pulse(now, duration);
        done
    }
}

} // verus!
