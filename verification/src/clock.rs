//! Pulse scheduling: the timing of a pulse train and the re-arm rule of the
//! free-running variable-rate clock.
//!
//! The waits themselves (edge waits, timer waits) are suspension points that
//! belong to the task runtime; these functions compute what is to be emitted
//! and when.

use vstd::prelude::*;
use vstd::arithmetic::mul::lemma_mul_inequality;

verus! {

/// Longest pulse the train scheduler emits, in microseconds (10 ms cap).
pub const MAX_PULSE_WIDTH_US: u64 = 10_000;

/// Duration of each pulse of the free-running clock, in microseconds (5 ms).
pub const CLOCK_PULSE_US: u64 = 5_000;

/// One logical output pulse: it begins at `time` and holds the output high
/// for `duration` time units.
#[derive(Clone, Copy, Debug, PartialEq, Eq, Structural)]
pub struct Pulse {
    pub time: u64,
    pub duration: u64,
}

/// The width of one train pulse: half the period, capped at 10 ms.
pub open spec fn spec_pulse_width(period_us: u64) -> u64 {
    if period_us / 2 < MAX_PULSE_WIDTH_US {
        (period_us / 2) as u64
    } else {
        MAX_PULSE_WIDTH_US
    }
}

/// Width and rest of one train tick: the pulse is held high for
/// `min(10_000, period / 2)` microseconds and low for the remainder of the
/// period. A pulse must have positive duration, so the period must span at
/// least two microseconds.
pub fn train_widths(period_us: u64) -> (r: (u64, u64))
    requires
        period_us >= 2,
    ensures
        r.0 == spec_pulse_width(period_us),
        r.0 >= 1,
        r.1 == period_us - r.0,
        r.0 + r.1 == period_us,
{
    let half = period_us / 2;
    let width = if half < MAX_PULSE_WIDTH_US { half } else { MAX_PULSE_WIDTH_US };
    (width, period_us - width)
}

/// How many pulses a train of `count` fires: a non-positive count fires none.
pub open spec fn spec_train_count(count: i32) -> nat {
    if count <= 0 {
        0nat
    } else {
        count as nat
    }
}

/// The pulses of one train fired by an edge at `edge_time`: one pulse every
/// `period_us` microseconds starting at the edge, each of the capped width.
pub open spec fn spec_train_pulses(edge_time: u64, count: i32, period_us: u64) -> Seq<Pulse> {
    Seq::new(
        spec_train_count(count),
        |i: int|
            Pulse {
                time: (edge_time + i * period_us) as u64,
                duration: spec_pulse_width(period_us),
            },
    )
}

/// The pulses of one train fired by an edge at `edge_time`: exactly `count`
/// pulses (none when `count <= 0`), one every `period_us` microseconds,
/// each of the capped width. Parameters are sampled once per train, so they
/// are fixed arguments here.
pub fn train_schedule(edge_time: u64, count: i32, period_us: u64) -> (r: Vec<Pulse>)
    requires
        period_us >= 2,
        count > 0 ==> edge_time as int + count as int * period_us as int <= u64::MAX as int,
    ensures
        r@ == spec_train_pulses(edge_time, count, period_us),
        r@.len() == spec_train_count(count),
{
    let mut pulses: Vec<Pulse> = Vec::new();
    if count <= 0 {
        proof {
            assert(pulses@ =~= spec_train_pulses(edge_time, count, period_us));
        }
        return pulses;
    }
    let (width, _rest) = train_widths(period_us);
    let n: u32 = count as u32;
    let mut now: u64 = edge_time;
    let mut i: u32 = 0;
    while i < n
        invariant
            i <= n,
            n == count,
            count > 0,
            edge_time as int + n as int * period_us as int <= u64::MAX as int,
            now == edge_time as int + i as int * period_us as int,
            width == spec_pulse_width(period_us),
            pulses@.len() == i as int,
            forall|j: int|
                0 <= j < i as int ==> pulses@[j] == (Pulse {
                    time: (edge_time + j * period_us) as u64,
                    duration: spec_pulse_width(period_us),
                }),
        decreases n - i,
    {
        proof {
            lemma_mul_inequality(i as int + 1, n as int, period_us as int);
            assert((i as int + 1) * period_us as int == i as int * period_us as int
                + period_us as int) by (nonlinear_arith);
        }
        pulses.push(Pulse { time: now, duration: width });
        now = now + period_us;
        i = i + 1;
    }
    proof {
        assert(pulses@ =~= spec_train_pulses(edge_time, count, period_us));
    }
    pulses
}

/// The free-running clock's tick source: either not yet armed, or armed with
/// the rate value that was last used to arm it.
///
/// The rate is an opaque token chosen by the caller (the bit pattern of the
/// rate reading); two reads re-arm the tick if and only if the tokens differ.
#[derive(Clone, Copy, Debug, PartialEq, Eq, Structural)]
pub enum TickerState {
    Unarmed,
    ArmedAt { rate: u32 },
}

/// The re-arm rule of the free-running clock: a tick schedule survives from
/// one reading to the next exactly when the rate is unchanged.
#[derive(Clone, Copy, Debug, PartialEq, Eq, Structural)]
pub struct VaryingTicker {
    state: TickerState,
}

impl VaryingTicker {
    pub closed spec fn spec_state(&self) -> TickerState {
        self.state
    }

    /// A fresh, unarmed ticker.
    pub fn new() -> (r: VaryingTicker)
        ensures
            r.spec_state() == TickerState::Unarmed,
    {
        VaryingTicker { state: TickerState::Unarmed }
    }

    /// Decide the next tick for a freshly read rate. Returns true when the
    /// tick must be re-armed from "now" with the new rate, which happens
    /// exactly when the rate differs from the one the current tick was armed
    /// with; an unchanged rate keeps the existing schedule (no phase reset).
    pub fn next(&mut self, rate: u32) -> (rearm: bool)
        ensures
            rearm == (old(self).spec_state() != (TickerState::ArmedAt { rate })),
            final(self).spec_state() == (TickerState::ArmedAt { rate }),
    {
        let rearm = match self.state {
            TickerState::Unarmed => true,
            TickerState::ArmedAt { rate: current } => current != rate,
        };
        self.state = TickerState::ArmedAt { rate };
        rearm
    }
}

} // verus!
