//! Deterministic edge sources and pulse sinks.
//!
//! Real hardware cannot be driven deterministically, so the scheduler's
//! timing behaviour is stated and proved over an event-queue edge source and
//! a recording pulse sink: the edge source hands out a queue of edge
//! timestamps in order, and the sink records every pulse it is asked to emit.

use vstd::arithmetic::mul::lemma_mul_inequality;
use vstd::prelude::*;
use vstd::seq_lib::group_to_multiset_ensures;
use vstd::seq_lib::lemma_multiset_commutative;

use crate::clock::CLOCK_PULSE_US;
use crate::clock::Pulse;
use crate::clock::TickerState;
use crate::clock::VaryingTicker;
use crate::clock::spec_train_count;
use crate::clock::spec_train_pulses;
use crate::clock::train_schedule;

verus! {

/// The timestamps come in non-decreasing order.
pub open spec fn sorted_events(s: Seq<u64>) -> bool {
    forall|i: int, j: int| 0 <= i < j < s.len() ==> s[i] <= s[j]
}

/// What a wait starting at `now` returns: the first pending edge strictly
/// after `now`, or nothing when every pending edge is in the past.
pub open spec fn spec_wait_result(s: Seq<u64>, now: u64) -> Option<u64>
    decreases s.len(),
{
    if s.len() == 0 {
        None
    } else if s[0] <= now {
        spec_wait_result(s.drop_first(), now)
    } else {
        Some(s[0])
    }
}

/// The edges still pending after a wait starting at `now`: everything up to
/// and including the returned edge is consumed, edges in the past are
/// dropped.
pub open spec fn spec_wait_rest(s: Seq<u64>, now: u64) -> Seq<u64>
    decreases s.len(),
{
    if s.len() == 0 {
        Seq::empty()
    } else if s[0] <= now {
        spec_wait_rest(s.drop_first(), now)
    } else {
        s.drop_first()
    }
}

/// An edge source fed from a fixed queue of timestamps, kept in time order.
pub struct MockClockIn {
    events: Vec<u64>,
}

impl View for MockClockIn {
    type V = Seq<u64>;

    closed spec fn view(&self) -> Seq<u64> {
        self.events@
    }
}

impl MockClockIn {
    #[verifier::type_invariant]
    spec fn wf(self) -> bool {
        sorted_events(self.events@)
    }

    /// An edge source holding the given timestamps, in time order.
    pub fn new(events: &Vec<u64>) -> (r: MockClockIn)
        ensures
            r@.to_multiset() == events@.to_multiset(),
            sorted_events(r@),
    {
        let mut r = MockClockIn { events: Vec::new() };
        let mut i: usize = 0;
        proof {
            broadcast use group_to_multiset_ensures;

            assert(events@.subrange(0, 0) =~= Seq::<u64>::empty());
        }
        while i < events.len()
            invariant
                i <= events.len(),
                r@.to_multiset() == events@.subrange(0, i as int).to_multiset(),
            decreases events.len() - i,
        {
            let ghost pre = events@.subrange(0, i as int);
            r.insert_event(events[i]);
            proof {
                broadcast use group_to_multiset_ensures;

                assert(events@.subrange(0, i as int + 1) =~= pre.push(events@[i as int]));
            }
            i = i + 1;
        }
        proof {
            assert(events@.subrange(0, events@.len() as int) =~= events@);
            use_type_invariant(&r);
        }
        r
    }

    /// Add one pending edge, keeping the queue in time order.
    pub fn insert_event(&mut self, t: u64)
        ensures
            final(self)@.to_multiset() == old(self)@.to_multiset().insert(t),
            sorted_events(final(self)@),
    {
        proof {
            use_type_invariant(&*self);
        }
        let mut evs: Vec<u64> = Vec::new();
        std::mem::swap(&mut evs, &mut self.events);
        let ghost orig = evs@;
        let mut idx: usize = 0;
        while idx < evs.len() && evs[idx] <= t
            invariant
                evs@ == orig,
                idx <= evs.len(),
                forall|j: int| 0 <= j < idx ==> evs@[j] <= t,
            decreases evs.len() - idx,
        {
            idx = idx + 1;
        }
        evs.insert(idx, t);
        proof {
            assert(sorted_events(evs@)) by {
                assert(forall|k: int| 0 <= k < idx ==> evs@[k] == orig[k]);
                assert(forall|k: int| idx < k < evs@.len() ==> evs@[k] == orig[k - 1]);
                assert(sorted_events(orig));
            }
            lemma_insert_to_multiset(orig, idx as int, t);
        }
        self.events = evs;
    }

    /// No pending edges are left.
    pub fn is_empty(&self) -> (r: bool)
        ensures
            r == (self@.len() == 0),
    {
        self.events.len() == 0
    }

    /// Wait, starting at `now`, for the next edge strictly after `now`:
    /// edges already in the past are dropped unobserved, and the returned
    /// edge is consumed. Returns nothing (a wait that never completes) when
    /// no future edge is pending, in which case all edges are consumed.
    pub fn wait_from(&mut self, now: u64) -> (r: Option<u64>)
        ensures
            r == spec_wait_result(old(self)@, now),
            final(self)@ == spec_wait_rest(old(self)@, now),
            r matches Some(t) ==> t > now && old(self)@.contains(t),
            r is Some ==> final(self)@.len() < old(self)@.len(),
            forall|i: int| 0 <= i < final(self)@.len() ==> old(self)@.contains(final(self)@[i]),
            sorted_events(final(self)@),
    {
        proof {
            use_type_invariant(&*self);
        }
        let mut evs: Vec<u64> = Vec::new();
        std::mem::swap(&mut evs, &mut self.events);
        let ghost orig = evs@;
        while evs.len() > 0 && evs[0] <= now
            invariant
                sorted_events(evs@),
                spec_wait_result(orig, now) == spec_wait_result(evs@, now),
                spec_wait_rest(orig, now) == spec_wait_rest(evs@, now),
                evs@.len() <= orig.len(),
                spec_wait_result(orig, now) is Some ==> evs@.len() > 0,
                forall|i: int| 0 <= i < evs@.len() ==> orig.contains(evs@[i]),
            decreases evs.len(),
        {
            let ghost pre = evs@;
            evs.remove(0);
            proof {
                assert(evs@ =~= pre.drop_first());
                assert(forall|i: int| 0 <= i < evs@.len() ==> evs@[i] == pre[i + 1]);
            }
        }
        if evs.len() > 0 {
            let ghost pre = evs@;
            let t = evs.remove(0);
            proof {
                assert(evs@ =~= pre.drop_first());
                assert(forall|i: int| 0 <= i < evs@.len() ==> evs@[i] == pre[i + 1]);
            }
            self.events = evs;
            Some(t)
        } else {
            self.events = evs;
            None
        }
    }
}

/// A pulse sink that records every pulse it emits, in emission order.
pub struct MockClockOut {
    pulses: Vec<Pulse>,
}

impl View for MockClockOut {
    type V = Seq<Pulse>;

    closed spec fn view(&self) -> Seq<Pulse> {
        self.pulses@
    }
}

impl MockClockOut {
    /// A sink with nothing recorded yet.
    pub fn new() -> (r: MockClockOut)
        ensures
            r@ == Seq::<Pulse>::empty(),
    {
        MockClockOut { pulses: Vec::new() }
    }

    /// Emit one pulse beginning at `now`: the pulse is recorded and the
    /// emission completes at `now + duration` (the output is high in
    /// between).
    pub fn emit_pulse_at(&mut self, now: u64, duration: u64) -> (done: u64)
        requires
            now as int + duration as int <= u64::MAX as int,
        ensures
            final(self)@ == old(self)@.push(Pulse { time: now, duration }),
            done == now + duration,
    {
        self.pulses.push(Pulse { time: now, duration });
        now + duration
    }

    /// Everything recorded so far.
    pub fn pulses(&self) -> (r: &Vec<Pulse>)
        ensures
            r@ == self@,
    {
        &self.pulses
    }
}

/// The pulses the forward scheduler emits from a queue of edges, starting at
/// time `now`: each observed edge fires one pulse of the fixed duration, and
/// while that pulse is being emitted the scheduler is not waiting, so edges
/// up to the pulse's completion go unobserved.
pub open spec fn spec_forward(events: Seq<u64>, now: int, duration: u64) -> Seq<Pulse>
    decreases events.len(),
{
    if events.len() == 0 {
        Seq::empty()
    } else if events[0] as int <= now {
        spec_forward(events.drop_first(), now, duration)
    } else {
        seq![Pulse { time: events[0], duration }] + spec_forward(
            events.drop_first(),
            events[0] as int + duration as int,
            duration,
        )
    }
}

/// One wait step agrees with the forward specification: what the wait
/// returns is the next pulse's edge, and the pending edges it leaves behind
/// carry the rest of the schedule.
proof fn lemma_forward_unfold_wait(events: Seq<u64>, now: u64, duration: u64)
    requires
        sorted_events(events),
    ensures
        match spec_wait_result(events, now) {
            None => spec_forward(events, now as int, duration) == Seq::<Pulse>::empty()
                && spec_wait_rest(events, now) == Seq::<u64>::empty(),
            Some(t) => spec_forward(events, now as int, duration) == seq![
                Pulse { time: t, duration },
            ] + spec_forward(
                spec_wait_rest(events, now),
                t as int + duration as int,
                duration,
            ),
        },
    decreases events.len(),
{
    if events.len() == 0 {
    } else if events[0] <= now {
        assert(sorted_events(events.drop_first())) by {
            assert(forall|i: int|
                0 <= i < events.drop_first().len() ==> events.drop_first()[i] == events[i + 1]);
        }
        lemma_forward_unfold_wait(events.drop_first(), now, duration);
    }
}

/// Forward one edge source onto one pulse sink: wait for an edge, emit one
/// pulse of the fixed `duration`, and repeat until no future edge is
/// pending. Exactly the edges of the forward schedule are answered with a
/// pulse; an edge arriving while a pulse is still being emitted is not
/// observed (at most one pulse is in flight).
pub fn clock_forward(
    clock_in: &mut MockClockIn,
    clock_out: &mut MockClockOut,
    duration: u64,
    start: u64,
)
    requires
        forall|i: int|
            0 <= i < old(clock_in)@.len() ==> old(clock_in)@[i] as int + duration as int
                <= u64::MAX as int,
    ensures
        final(clock_out)@ == old(clock_out)@ + spec_forward(
            old(clock_in)@,
            start as int,
            duration,
        ),
        final(clock_in)@.len() == 0,
{
    let ghost orig_in = clock_in@;
    let ghost orig_out = clock_out@;
    let mut now: u64 = start;
    loop
        invariant
            clock_out@ + spec_forward(clock_in@, now as int, duration) == orig_out + spec_forward(
                orig_in,
                start as int,
                duration,
            ),
            forall|i: int|
                0 <= i < clock_in@.len() ==> clock_in@[i] as int + duration as int
                    <= u64::MAX as int,
            now >= start,
        ensures
            clock_in@.len() == 0,
            clock_out@ == orig_out + spec_forward(orig_in, start as int, duration),
        decreases clock_in@.len(),
    {
        proof {
            use_type_invariant(&*clock_in);
            lemma_forward_unfold_wait(clock_in@, now, duration);
        }
        let ghost pre_in = clock_in@;
        let ghost pre_out = clock_out@;
        match clock_in.wait_from(now) {
            None => {
                break ;
            },
            Some(t) => {
                proof {
                    assert(t as int + duration as int <= u64::MAX as int) by {
                        let j = choose|j: int| 0 <= j < pre_in.len() && pre_in[j] == t;
                        assert(pre_in[j] as int + duration as int <= u64::MAX as int);
                    }
                }
                let done = clock_out.emit_pulse_at(t, duration);
                proof {
                    assert(forall|i: int|
                        0 <= i < clock_in@.len() ==> clock_in@[i] as int + duration as int
                            <= u64::MAX as int) by {
                        assert(forall|i: int| 0 <= i < clock_in@.len() ==> pre_in.contains(
                            clock_in@[i],
                        ));
                    }
                    assert(pre_out.push(Pulse { time: t, duration }) + spec_forward(
                        clock_in@,
                        done as int,
                        duration,
                    ) =~= pre_out + (seq![Pulse { time: t, duration }] + spec_forward(
                        clock_in@,
                        done as int,
                        duration,
                    )));
                }
                now = done;
            },
        }
    }
}

/// When a train fired by an edge at `edge` completes: the last pulse's rest
/// ends one full period after the last pulse began, so the scheduler is back
/// at its edge wait `count` periods after the edge (immediately after the
/// edge for an empty train).
pub open spec fn spec_train_done(edge: u64, count: i32, period_us: u64) -> int {
    edge as int + spec_train_count(count) as int * period_us as int
}

/// The pulses the train scheduler emits from a queue of edges, starting at
/// time `now`, with the parameters held at `count` and `period_us`: each
/// observed edge fires one full train, and edges arriving before the train
/// completes go unobserved.
pub open spec fn spec_train(events: Seq<u64>, now: int, count: i32, period_us: u64) -> Seq<Pulse>
    decreases events.len(),
{
    if events.len() == 0 {
        Seq::empty()
    } else if events[0] as int <= now {
        spec_train(events.drop_first(), now, count, period_us)
    } else {
        spec_train_pulses(events[0], count, period_us) + spec_train(
            events.drop_first(),
            spec_train_done(events[0], count, period_us),
            count,
            period_us,
        )
    }
}

/// One wait step agrees with the train specification.
proof fn lemma_train_unfold_wait(events: Seq<u64>, now: u64, count: i32, period_us: u64)
    requires
        sorted_events(events),
    ensures
        match spec_wait_result(events, now) {
            None => spec_train(events, now as int, count, period_us) == Seq::<Pulse>::empty()
                && spec_wait_rest(events, now) == Seq::<u64>::empty(),
            Some(t) => spec_train(events, now as int, count, period_us) == spec_train_pulses(
                t,
                count,
                period_us,
            ) + spec_train(
                spec_wait_rest(events, now),
                spec_train_done(t, count, period_us),
                count,
                period_us,
            ),
        },
    decreases events.len(),
{
    if events.len() == 0 {
    } else if events[0] <= now {
        assert(sorted_events(events.drop_first())) by {
            assert(forall|i: int|
                0 <= i < events.drop_first().len() ==> events.drop_first()[i] == events[i + 1]);
        }
        lemma_train_unfold_wait(events.drop_first(), now, count, period_us);
    }
}

/// Emit a train of pulses for each incoming edge: wait for an edge, sample
/// the train's count and rate once, emit exactly `count` evenly spaced
/// pulses, and return to waiting. Here the parameter sources are held at the
/// fixed readings `count` and `period_us`; an empty train (`count <= 0`)
/// returns to waiting immediately after its edge.
pub fn clock_train(
    clock_in: &mut MockClockIn,
    clock_out: &mut MockClockOut,
    count: i32,
    period_us: u64,
    start: u64,
)
    requires
        period_us >= 2,
        forall|i: int|
            0 <= i < old(clock_in)@.len() ==> old(clock_in)@[i] as int + spec_train_count(count)
                as int * period_us as int <= u64::MAX as int,
    ensures
        final(clock_out)@ == old(clock_out)@ + spec_train(
            old(clock_in)@,
            start as int,
            count,
            period_us,
        ),
        final(clock_in)@.len() == 0,
{
    let ghost orig_in = clock_in@;
    let ghost orig_out = clock_out@;
    let mut now: u64 = start;
    loop
        invariant
            period_us >= 2,
            clock_out@ + spec_train(clock_in@, now as int, count, period_us) == orig_out
                + spec_train(orig_in, start as int, count, period_us),
            forall|i: int|
                0 <= i < clock_in@.len() ==> clock_in@[i] as int + spec_train_count(count) as int
                    * period_us as int <= u64::MAX as int,
        ensures
            clock_in@.len() == 0,
            clock_out@ == orig_out + spec_train(orig_in, start as int, count, period_us),
        decreases clock_in@.len(),
    {
        proof {
            use_type_invariant(&*clock_in);
            lemma_train_unfold_wait(clock_in@, now, count, period_us);
        }
        let ghost pre_in = clock_in@;
        let ghost pre_out = clock_out@;
        match clock_in.wait_from(now) {
            None => {
                break ;
            },
            Some(t) => {
                proof {
                    assert(t as int + spec_train_count(count) as int * period_us as int
                        <= u64::MAX as int) by {
                        let j = choose|j: int| 0 <= j < pre_in.len() && pre_in[j] == t;
                        assert(pre_in[j] as int + spec_train_count(count) as int * period_us as int
                            <= u64::MAX as int);
                    }
                    assert(forall|i: int|
                        0 <= i < clock_in@.len() ==> clock_in@[i] as int + spec_train_count(count)
                            as int * period_us as int <= u64::MAX as int) by {
                        assert(forall|i: int| 0 <= i < clock_in@.len() ==> pre_in.contains(
                            clock_in@[i],
                        ));
                    }
                }
                let pulses = train_schedule(t, count, period_us);
                proof {
                    assert forall|i: int|
                        0 <= i < pulses@.len() implies (#[trigger] pulses@[i]).time as int
                        + pulses@[i].duration as int <= u64::MAX as int by {
                        lemma_mul_inequality(i + 1, spec_train_count(count) as int, period_us as int);
                        assert((i + 1) * period_us as int == i * period_us as int
                            + period_us as int) by (nonlinear_arith);
                    }
                }
                emit_all(clock_out, &pulses);
                let n64: u64 = if count > 0 {
                    count as u64
                } else {
                    0
                };
                let done = t + n64 * period_us;
                proof {
                    let rest_pulses = spec_train(
                        spec_wait_rest(pre_in, now),
                        spec_train_done(t, count, period_us),
                        count,
                        period_us,
                    );
                    assert((pre_out + pulses@) + rest_pulses =~= pre_out + (pulses@ + rest_pulses));
                }
                now = done;
            },
        }
    }
}

/// The pulses the train scheduler emits when its parameter sources change
/// between edges: the k-th observed edge is served with the k-th reading (a
/// count and a period, sampled freshly at that edge, fixed for that whole
/// train). The run ends when the readings run out or no future edge is
/// pending.
pub open spec fn spec_train_runs(
    events: Seq<u64>,
    now: int,
    readings: Seq<(i32, u64)>,
) -> Seq<Pulse>
    decreases events.len(),
{
    if readings.len() == 0 || events.len() == 0 {
        Seq::empty()
    } else if events[0] as int <= now {
        spec_train_runs(events.drop_first(), now, readings)
    } else {
        spec_train_pulses(events[0], readings[0].0, readings[0].1) + spec_train_runs(
            events.drop_first(),
            spec_train_done(events[0], readings[0].0, readings[0].1),
            readings.drop_first(),
        )
    }
}

/// The edges still pending when such a run ends: what the edge waits have
/// not consumed. Edges remain only when the readings run out first.
pub open spec fn spec_train_runs_rest(
    events: Seq<u64>,
    now: int,
    readings: Seq<(i32, u64)>,
) -> Seq<u64>
    decreases events.len(),
{
    if readings.len() == 0 {
        events
    } else if events.len() == 0 {
        Seq::empty()
    } else if events[0] as int <= now {
        spec_train_runs_rest(events.drop_first(), now, readings)
    } else {
        spec_train_runs_rest(
            events.drop_first(),
            spec_train_done(events[0], readings[0].0, readings[0].1),
            readings.drop_first(),
        )
    }
}

/// One wait step agrees with the changing-readings train specification.
proof fn lemma_train_runs_unfold_wait(events: Seq<u64>, now: u64, readings: Seq<(i32, u64)>)
    requires
        sorted_events(events),
        readings.len() > 0,
    ensures
        match spec_wait_result(events, now) {
            None => spec_train_runs(events, now as int, readings) == Seq::<Pulse>::empty()
                && spec_train_runs_rest(events, now as int, readings) == Seq::<u64>::empty()
                && spec_wait_rest(events, now) == Seq::<u64>::empty(),
            Some(t) => spec_train_runs(events, now as int, readings) == spec_train_pulses(
                t,
                readings[0].0,
                readings[0].1,
            ) + spec_train_runs(
                spec_wait_rest(events, now),
                spec_train_done(t, readings[0].0, readings[0].1),
                readings.drop_first(),
            ) && spec_train_runs_rest(events, now as int, readings) == spec_train_runs_rest(
                spec_wait_rest(events, now),
                spec_train_done(t, readings[0].0, readings[0].1),
                readings.drop_first(),
            ),
        },
    decreases events.len(),
{
    if events.len() == 0 {
    } else if events[0] <= now {
        assert(sorted_events(events.drop_first())) by {
            assert(forall|i: int|
                0 <= i < events.drop_first().len() ==> events.drop_first()[i] == events[i + 1]);
        }
        lemma_train_runs_unfold_wait(events.drop_first(), now, readings);
    }
}

/// Emit a train of pulses for each incoming edge, with the parameters read
/// freshly at every edge: the k-th observed edge is served with the k-th
/// entry of `readings` (its count and period), and a mid-train change of the
/// sources does not affect the train already underway. The run stops when
/// the readings are exhausted or no future edge is pending.
pub fn clock_train_readings(
    clock_in: &mut MockClockIn,
    clock_out: &mut MockClockOut,
    readings: &Vec<(i32, u64)>,
    start: u64,
)
    requires
        forall|j: int| 0 <= j < readings@.len() ==> (#[trigger] readings@[j]).1 >= 2,
        forall|i: int, j: int|
            0 <= i < old(clock_in)@.len() && 0 <= j < readings@.len() ==> (#[trigger] old(
                clock_in,
            )@[i]) as int + spec_train_count((#[trigger] readings@[j]).0) as int * readings@[j].1
                as int <= u64::MAX as int,
    ensures
        final(clock_out)@ == old(clock_out)@ + spec_train_runs(
            old(clock_in)@,
            start as int,
            readings@,
        ),
        final(clock_in)@ == spec_train_runs_rest(old(clock_in)@, start as int, readings@),
{
    let ghost orig_in = clock_in@;
    let ghost orig_out = clock_out@;
    let mut now: u64 = start;
    let mut k: usize = 0;
    proof {
        assert(readings@.skip(0) =~= readings@);
    }
    loop
        invariant
            k <= readings@.len(),
            clock_out@ + spec_train_runs(clock_in@, now as int, readings@.skip(k as int))
                == orig_out + spec_train_runs(orig_in, start as int, readings@),
            spec_train_runs_rest(clock_in@, now as int, readings@.skip(k as int))
                == spec_train_runs_rest(orig_in, start as int, readings@),
            forall|j: int| 0 <= j < readings@.len() ==> (#[trigger] readings@[j]).1 >= 2,
            forall|i: int, j: int|
                0 <= i < clock_in@.len() && 0 <= j < readings@.len() ==> (#[trigger] clock_in@[i])
                    as int + spec_train_count((#[trigger] readings@[j]).0) as int * readings@[j].1
                    as int <= u64::MAX as int,
        ensures
            clock_out@ == orig_out + spec_train_runs(orig_in, start as int, readings@),
            clock_in@ == spec_train_runs_rest(orig_in, start as int, readings@),
        decreases readings@.len() - k,
    {
        let ghost remaining = readings@.skip(k as int);
        if k >= readings.len() {
            proof {
                assert(remaining.len() == 0);
            }
            break ;
        }
        let reading = readings[k];
        let count = reading.0;
        let period_us = reading.1;
        proof {
            use_type_invariant(&*clock_in);
            assert(remaining[0] == readings@[k as int]);
            assert(remaining.drop_first() =~= readings@.skip(k as int + 1));
            lemma_train_runs_unfold_wait(clock_in@, now, remaining);
        }
        let ghost pre_in = clock_in@;
        let ghost pre_out = clock_out@;
        match clock_in.wait_from(now) {
            None => {
                break ;
            },
            Some(t) => {
                proof {
                    assert(t as int + spec_train_count(count) as int * period_us as int
                        <= u64::MAX as int) by {
                        let i = choose|i: int| 0 <= i < pre_in.len() && pre_in[i] == t;
                        assert(pre_in[i] as int + spec_train_count(readings@[k as int].0) as int
                            * readings@[k as int].1 as int <= u64::MAX as int);
                    }
                    assert forall|i: int, j: int|
                        0 <= i < clock_in@.len() && 0 <= j < readings@.len() implies (
                    #[trigger] clock_in@[i]) as int + spec_train_count(
                        (#[trigger] readings@[j]).0,
                    ) as int * readings@[j].1 as int <= u64::MAX as int by {
                        assert(pre_in.contains(clock_in@[i]));
                        let i2 = choose|i2: int| 0 <= i2 < pre_in.len() && pre_in[i2] == clock_in@[i];
                        assert(pre_in[i2] as int + spec_train_count(readings@[j].0) as int
                            * readings@[j].1 as int <= u64::MAX as int);
                    }
                }
                let pulses = train_schedule(t, count, period_us);
                proof {
                    assert forall|i: int|
                        0 <= i < pulses@.len() implies (#[trigger] pulses@[i]).time as int
                        + pulses@[i].duration as int <= u64::MAX as int by {
                        lemma_mul_inequality(i + 1, spec_train_count(count) as int, period_us as int);
                        assert((i + 1) * period_us as int == i * period_us as int
                            + period_us as int) by (nonlinear_arith);
                    }
                }
                emit_all(clock_out, &pulses);
                let n64: u64 = if count > 0 {
                    count as u64
                } else {
                    0
                };
                let done = t + n64 * period_us;
                proof {
                    let rest_pulses = spec_train_runs(
                        spec_wait_rest(pre_in, now),
                        spec_train_done(t, count, period_us),
                        readings@.skip(k as int + 1),
                    );
                    assert((pre_out + pulses@) + rest_pulses =~= pre_out + (pulses@ + rest_pulses));
                }
                now = done;
                k = k + 1;
            },
        }
    }
}

/// Emit every pulse of a schedule onto the sink, in order.
fn emit_all(clock_out: &mut MockClockOut, pulses: &Vec<Pulse>)
    requires
        forall|i: int|
            0 <= i < pulses@.len() ==> (#[trigger] pulses@[i]).time as int + pulses@[i].duration
                as int <= u64::MAX as int,
    ensures
        final(clock_out)@ == old(clock_out)@ + pulses@,
{
    let ghost orig_out = clock_out@;
    let mut j: usize = 0;
    while j < pulses.len()
        invariant
            j <= pulses@.len(),
            clock_out@ == orig_out + pulses@.subrange(0, j as int),
            forall|i: int|
                0 <= i < pulses@.len() ==> (#[trigger] pulses@[i]).time as int + pulses@[i].duration
                    as int <= u64::MAX as int,
        decreases pulses@.len() - j,
    {
        let p = pulses[j];
        clock_out.emit_pulse_at(p.time, p.duration);
        proof {
            assert(p == (Pulse { time: p.time, duration: p.duration }));
            assert(orig_out + pulses@.subrange(0, j as int + 1) =~= (orig_out + pulses@.subrange(
                0,
                j as int,
            )).push(pulses@[j as int]));
        }
        j = j + 1;
    }
    proof {
        assert(pulses@.subrange(0, pulses@.len() as int) =~= pulses@);
    }
}

/// The pulses of the free-running clock over a finite run of rate readings.
///
/// Each entry of `readings` is one loop turn: the rate token read from the
/// parameter source and the tick period derived from it. A changed rate
/// re-arms the tick one period from "now"; an unchanged rate leaves the
/// standing schedule in `next_tick` untouched (no phase reset). The tick
/// fires at its scheduled time, or immediately when that time has already
/// passed, and every tick emits one fixed-width pulse.
pub open spec fn spec_clock(
    readings: Seq<(u32, u64)>,
    state: TickerState,
    next_tick: int,
    now: int,
) -> Seq<Pulse>
    decreases readings.len(),
{
    if readings.len() == 0 {
        Seq::empty()
    } else {
        let rate = readings[0].0;
        let period = readings[0].1 as int;
        let sched = if state == (TickerState::ArmedAt { rate }) {
            next_tick
        } else {
            now + period
        };
        let fire = if sched > now {
            sched
        } else {
            now
        };
        seq![Pulse { time: fire as u64, duration: CLOCK_PULSE_US }] + spec_clock(
            readings.drop_first(),
            TickerState::ArmedAt { rate },
            sched + period,
            fire + CLOCK_PULSE_US as int,
        )
    }
}

/// Enough time for a whole clock run to stay within the 64-bit clock: each
/// turn advances the scheduled tick and the current time by at most two
/// periods plus one pulse.
pub open spec fn spec_clock_budget(readings: Seq<(u32, u64)>) -> int
    decreases readings.len(),
{
    if readings.len() == 0 {
        0
    } else {
        2 * readings[0].1 as int + CLOCK_PULSE_US as int + spec_clock_budget(readings.drop_first())
    }
}

proof fn lemma_clock_budget_nonneg(readings: Seq<(u32, u64)>)
    ensures
        spec_clock_budget(readings) >= 0,
    decreases readings.len(),
{
    if readings.len() > 0 {
        lemma_clock_budget_nonneg(readings.drop_first());
    }
}

/// The free-running clock over a finite run of rate readings: each turn
/// reads the rate, re-arms the tick only when the rate changed, waits for
/// the tick and emits one fixed-width pulse.
pub fn clock(clock_out: &mut MockClockOut, readings: &Vec<(u32, u64)>, start: u64)
    requires
        start as int + spec_clock_budget(readings@) <= u64::MAX as int,
    ensures
        final(clock_out)@ == old(clock_out)@ + spec_clock(
            readings@,
            TickerState::Unarmed,
            start as int,
            start as int,
        ),
{
    let ghost orig_out = clock_out@;
    let mut ticker = VaryingTicker::new();
    let mut next_tick: u64 = start;
    let mut now: u64 = start;
    let mut k: usize = 0;
    proof {
        assert(readings@.skip(0) =~= readings@);
    }
    while k < readings.len()
        invariant
            k <= readings@.len(),
            clock_out@ + spec_clock(
                readings@.skip(k as int),
                ticker.spec_state(),
                next_tick as int,
                now as int,
            ) == orig_out + spec_clock(
                readings@,
                TickerState::Unarmed,
                start as int,
                start as int,
            ),
            (if next_tick > now {
                next_tick as int
            } else {
                now as int
            }) + spec_clock_budget(readings@.skip(k as int)) <= u64::MAX as int,
        decreases readings@.len() - k,
    {
        let ghost remaining = readings@.skip(k as int);
        let ghost pre_out = clock_out@;
        proof {
            assert(remaining[0] == readings@[k as int]);
            assert(remaining.drop_first() =~= readings@.skip(k as int + 1));
            lemma_clock_budget_nonneg(readings@.skip(k as int + 1));
        }
        let reading = readings[k];
        let rate = reading.0;
        let period = reading.1;
        let rearm = ticker.next(rate);
        let sched: u64 = if rearm {
            now + period
        } else {
            next_tick
        };
        let fire: u64 = if sched > now {
            sched
        } else {
            now
        };
        clock_out.emit_pulse_at(fire, CLOCK_PULSE_US);
        next_tick = sched + period;
        now = fire + CLOCK_PULSE_US;
        proof {
            let rest = spec_clock(
                readings@.skip(k as int + 1),
                TickerState::ArmedAt { rate },
                next_tick as int,
                now as int,
            );
            assert(pre_out.push(Pulse { time: fire, duration: CLOCK_PULSE_US }) + rest =~= pre_out
                + (seq![Pulse { time: fire, duration: CLOCK_PULSE_US }] + rest));
        }
        k = k + 1;
    }
    proof {
        assert(readings@.skip(readings@.len() as int) =~= Seq::<(u32, u64)>::empty());
    }
}

/// While the rate holds steady, the standing schedule continues without
/// drift from turn to turn: over any run of identical readings whose period
/// is at least one pulse wide, the clock fires exactly one pulse per turn,
/// the k-th at `start + (k + 1) * period` — re-quantization jitter cannot
/// creep in while the control value is stable.
pub proof fn lemma_clock_no_drift(readings: Seq<(u32, u64)>, rate: u32, period: u64, start: int)
    requires
        forall|i: int| 0 <= i < readings.len() ==> readings[i] == (rate, period),
        period >= CLOCK_PULSE_US,
    ensures
        spec_clock(readings, TickerState::Unarmed, start, start).len() == readings.len(),
        forall|k: int|
            0 <= k < readings.len() ==> spec_clock(readings, TickerState::Unarmed, start, start)[k]
                == (Pulse { time: (start + (k + 1) * period) as u64, duration: CLOCK_PULSE_US }),
{
    if readings.len() > 0 {
        let r = spec_clock(readings, TickerState::Unarmed, start, start);
        lemma_clock_armed_keeps_schedule(
            readings.drop_first(),
            rate,
            period,
            start + 2 * period,
            start + period + CLOCK_PULSE_US as int,
        );
        let tail = spec_clock(
            readings.drop_first(),
            TickerState::ArmedAt { rate },
            start + 2 * period,
            start + period + CLOCK_PULSE_US as int,
        );
        assert(r.drop_first() =~= tail);
        assert forall|k: int|
            0 <= k < readings.len() implies r[k] == (Pulse {
            time: (start + (k + 1) * period) as u64,
            duration: CLOCK_PULSE_US,
        }) by {
            if k == 0 {
                assert((k + 1) * period == period) by (nonlinear_arith)
                    requires
                        k == 0,
                ;
            } else {
                assert(r[k] == tail[k - 1]);
                assert((start + 2 * period) + (k - 1) * period == start + (k + 1) * period)
                    by (nonlinear_arith);
            }
        }
    }
}

/// An armed clock whose rate readings never change fires on its standing
/// grid: the k-th pulse of the run lands exactly `k` periods after the
/// scheduled tick.
proof fn lemma_clock_armed_keeps_schedule(
    readings: Seq<(u32, u64)>,
    rate: u32,
    period: u64,
    next_tick: int,
    now: int,
)
    requires
        forall|i: int| 0 <= i < readings.len() ==> readings[i] == (rate, period),
        period >= CLOCK_PULSE_US,
        now <= next_tick,
    ensures
        spec_clock(readings, TickerState::ArmedAt { rate }, next_tick, now).len()
            == readings.len(),
        forall|k: int|
            0 <= k < readings.len() ==> spec_clock(
                readings,
                TickerState::ArmedAt { rate },
                next_tick,
                now,
            )[k] == (Pulse { time: (next_tick + k * period) as u64, duration: CLOCK_PULSE_US }),
    decreases readings.len(),
{
    if readings.len() > 0 {
        let r = spec_clock(readings, TickerState::ArmedAt { rate }, next_tick, now);
        lemma_clock_armed_keeps_schedule(
            readings.drop_first(),
            rate,
            period,
            next_tick + period,
            next_tick + CLOCK_PULSE_US as int,
        );
        let tail = spec_clock(
            readings.drop_first(),
            TickerState::ArmedAt { rate },
            next_tick + period,
            next_tick + CLOCK_PULSE_US as int,
        );
        assert(r.drop_first() =~= tail);
        assert forall|k: int|
            0 <= k < readings.len() implies r[k] == (Pulse {
            time: (next_tick + k * period) as u64,
            duration: CLOCK_PULSE_US,
        }) by {
            if k > 0 {
                assert(r[k] == tail[k - 1]);
                assert((next_tick + period) + (k - 1) * period == next_tick + k * period)
                    by (nonlinear_arith);
            }
        }
    }
}

/// Every pulse of `r` begins strictly after `after`, has the fixed
/// `duration`, and each later pulse begins no earlier than the previous
/// pulse's completion.
pub open spec fn spaced_after(r: Seq<Pulse>, after: int, duration: u64) -> bool
    decreases r.len(),
{
    if r.len() == 0 {
        true
    } else {
        &&& r[0].time as int > after
        &&& r[0].duration == duration
        &&& spaced_after(r.drop_first(), r[0].time as int + duration as int, duration)
    }
}

/// At most one pulse is ever in flight: the pulses of the forward schedule
/// all have the fixed duration, begin strictly after the start time, and
/// never overlap — each pulse begins only at or after the completion of the
/// one before it.
pub proof fn lemma_forward_at_most_one_in_flight(events: Seq<u64>, now: int, duration: u64)
    ensures
        spaced_after(spec_forward(events, now, duration), now, duration),
    decreases events.len(),
{
    if events.len() == 0 {
    } else if events[0] as int <= now {
        lemma_forward_at_most_one_in_flight(events.drop_first(), now, duration);
    } else {
        lemma_forward_at_most_one_in_flight(
            events.drop_first(),
            events[0] as int + duration as int,
            duration,
        );
        let head = Pulse { time: events[0], duration };
        let tail = spec_forward(events.drop_first(), events[0] as int + duration as int, duration);
        let whole = seq![head] + tail;
        assert(whole[0] == head);
        assert(whole.drop_first() =~= tail);
    }
}

/// Index form of the spacing property: under `spaced_after`, every pulse has
/// the fixed duration and begins strictly after `after`, and consecutive
/// pulses are at least one duration apart.
pub proof fn lemma_spaced_indices(r: Seq<Pulse>, after: int, duration: u64)
    requires
        spaced_after(r, after, duration),
    ensures
        forall|i: int|
            0 <= i < r.len() ==> (#[trigger] r[i]).duration == duration && r[i].time as int
                > after,
        forall|i: int|
            0 <= i && i + 1 < r.len() ==> (#[trigger] r[i + 1]).time as int >= r[i].time as int
                + duration as int,
    decreases r.len(),
{
    if r.len() == 0 {
    } else {
        lemma_spaced_indices(r.drop_first(), r[0].time as int + duration as int, duration);
        assert forall|i: int|
            0 <= i < r.len() implies (#[trigger] r[i]).duration == duration && r[i].time as int
            > after by {
            if i > 0 {
                assert(r[i] == r.drop_first()[i - 1]);
            }
        }
        assert forall|i: int|
            0 <= i && i + 1 < r.len() implies (#[trigger] r[i + 1]).time as int >= r[i].time as int
            + duration as int by {
            assert(r[i + 1] == r.drop_first()[i]);
            if i > 0 {
                assert(r[i] == r.drop_first()[i - 1]);
            }
        }
    }
}

/// Inserting an element anywhere in a sequence adds exactly that element to
/// its multiset.
proof fn lemma_insert_to_multiset(s: Seq<u64>, idx: int, t: u64)
    requires
        0 <= idx <= s.len(),
    ensures
        s.insert(idx, t).to_multiset() == s.to_multiset().insert(t),
{
    broadcast use group_to_multiset_ensures;

    let left = s.subrange(0, idx);
    let right = s.subrange(idx, s.len() as int);
    assert(s =~= left + right);
    assert(s.insert(idx, t) =~= left.push(t) + right);
    lemma_multiset_commutative(left, right);
    lemma_multiset_commutative(left.push(t), right);
    assert(left.push(t).to_multiset() =~= left.to_multiset().insert(t));
    assert((left.push(t) + right).to_multiset() =~= (left + right).to_multiset().insert(t));
}

} // verus!
