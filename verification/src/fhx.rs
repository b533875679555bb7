//! Single-writer arbitration of the shared output expander.
//!
//! Many producer tasks drive one physical multi-channel peripheral. None of
//! them touches it directly: each holds a thin handle that enqueues a
//! command onto one bounded FIFO queue, and a single worker task — the only
//! owner of the peripheral — dequeues and applies the commands one at a
//! time, in arrival order.

use std::collections::VecDeque;
use vstd::prelude::*;

verus! {

/// Bank address of a CV (control-voltage) output group.
#[derive(Clone, Copy, Debug, PartialEq, Eq, Structural)]
pub enum CvAddress {
    Cv0,
    Cv1,
}

/// Bank address of a gate output group.
#[derive(Clone, Copy, Debug, PartialEq, Eq, Structural)]
pub enum GtAddress {
    Gt0,
    Gt1,
}

/// One CV output line within a bank.
#[derive(Clone, Copy, Debug, PartialEq, Eq, Structural)]
pub enum CvChannel {
    Channel1,
    Channel2,
    Channel3,
    Channel4,
    Channel5,
    Channel6,
    Channel7,
    Channel8,
}

/// One gate output line within a bank.
#[derive(Clone, Copy, Debug, PartialEq, Eq, Structural)]
pub enum GtChannel {
    Channel1,
    Channel2,
    Channel3,
    Channel4,
    Channel5,
    Channel6,
    Channel7,
    Channel8,
}

/// One command for the output expander: set a bank's polarity mask, set one
/// CV line to a 16-bit value, or set one gate line high or low. Commands are
/// value types; ownership moves to the queue on send and to the worker on
/// receive.
#[derive(Clone, Copy, Debug, PartialEq, Eq, Structural)]
pub enum FhxSetMessage {
    CvPolarity { address: CvAddress, polarity: u8 },
    Cv { address: CvAddress, channel: CvChannel, value: u16 },
    Gate { address: GtAddress, channel: GtChannel, value: bool },
}

/// The bounded FIFO command queue between the producers and the worker: a
/// send appends at the back when there is room, a receive takes from the
/// front. The capacity is a fixed backpressure bound chosen at construction
/// (five in the reference configuration).
pub struct CommandQueue {
    items: VecDeque<FhxSetMessage>,
    capacity: usize,
}

/// Capacity of the command queue in the reference configuration.
pub const COMMAND_QUEUE_CAPACITY: usize = 5;

impl View for CommandQueue {
    type V = Seq<FhxSetMessage>;

    closed spec fn view(&self) -> Seq<FhxSetMessage> {
        self.items@
    }
}

impl CommandQueue {
    #[verifier::type_invariant]
    spec fn wf(self) -> bool {
        self.items@.len() <= self.capacity
    }

    /// The backpressure bound this queue was built with.
    pub closed spec fn spec_capacity(&self) -> usize {
        self.capacity
    }

    /// An empty queue holding at most `capacity` outstanding commands.
    pub fn new(capacity: usize) -> (r: CommandQueue)
        ensures
            r@ == Seq::<FhxSetMessage>::empty(),
            r.spec_capacity() == capacity,
    {
        CommandQueue { items: VecDeque::new(), capacity }
    }

    /// The backpressure bound this queue was built with.
    pub fn capacity(&self) -> (r: usize)
        ensures
            r == self.spec_capacity(),
    {
        self.capacity
    }

    pub fn len(&self) -> (r: usize)
        ensures
            r == self@.len(),
    {
        self.items.len()
    }

    pub fn is_empty(&self) -> (r: bool)
        ensures
            r == (self@.len() == 0),
    {
        self.items.len() == 0
    }

    pub fn is_full(&self) -> (r: bool)
        ensures
            r == (self@.len() >= self.spec_capacity()),
    {
        self.items.len() >= self.capacity
    }

    /// Enqueue one command at the back. When the queue is full nothing is
    /// enqueued and the command comes back to the sender, which must retry
    /// once room is available (backpressure, never a silent drop).
    pub fn try_send(&mut self, msg: FhxSetMessage) -> (r: Result<(), FhxSetMessage>)
        ensures
            final(self).spec_capacity() == old(self).spec_capacity(),
            old(self)@.len() < old(self).spec_capacity() ==> r is Ok
                && final(self)@ == old(self)@.push(msg),
            old(self)@.len() >= old(self).spec_capacity() ==> (r matches Err(m) && m == msg)
                && final(self)@ == old(self)@,
    {
        proof {
            use_type_invariant(&*self);
        }
        if self.items.len() < self.capacity {
            let mut items: VecDeque<FhxSetMessage> = VecDeque::new();
            std::mem::swap(&mut items, &mut self.items);
            items.push_back(msg);
            self.items = items;
            Ok(())
        } else {
            Err(msg)
        }
    }

    /// Dequeue the oldest command, or nothing when the queue is empty.
    pub fn try_receive(&mut self) -> (r: Option<FhxSetMessage>)
        ensures
            final(self).spec_capacity() == old(self).spec_capacity(),
            old(self)@.len() == 0 ==> r is None && final(self)@ == old(self)@,
            old(self)@.len() > 0 ==> r == Some(old(self)@[0])
                && final(self)@ == old(self)@.drop_first(),
    {
        proof {
            use_type_invariant(&*self);
        }
        let mut items: VecDeque<FhxSetMessage> = VecDeque::new();
        std::mem::swap(&mut items, &mut self.items);
        let r = items.pop_front();
        self.items = items;
        proof {
            if old(self)@.len() > 0 {
                assert(final(self)@ =~= old(self)@.drop_first());
            }
        }
        r
    }
}

/// A producer handle for one CV output line: it may only enqueue commands
/// addressed to its own line.
pub struct FhxCv {
    address: CvAddress,
    channel: CvChannel,
}

impl FhxCv {
    pub closed spec fn spec_address(&self) -> CvAddress {
        self.address
    }

    pub closed spec fn spec_channel(&self) -> CvChannel {
        self.channel
    }

    pub fn new(address: CvAddress, channel: CvChannel) -> (r: FhxCv)
        ensures
            r.spec_address() == address,
            r.spec_channel() == channel,
    {
        FhxCv { address, channel }
    }

    /// The command this handle sends for a value.
    pub open spec fn spec_message(&self, value: u16) -> FhxSetMessage {
        FhxSetMessage::Cv { address: self.spec_address(), channel: self.spec_channel(), value }
    }

    /// Enqueue "set this CV line to `value`"; when the queue is full the
    /// command comes back and the sender must retry.
    pub fn set_value(&self, queue: &mut CommandQueue, value: u16) -> (r: Result<
        (),
        FhxSetMessage,
    >)
        ensures
            final(queue).spec_capacity() == old(queue).spec_capacity(),
            old(queue)@.len() < old(queue).spec_capacity() ==> r is Ok
                && final(queue)@ == old(queue)@.push(self.spec_message(value)),
            old(queue)@.len() >= old(queue).spec_capacity() ==> (r matches Err(m)
                && m == self.spec_message(value)) && final(queue)@ == old(queue)@,
    {
        queue.try_send(
            FhxSetMessage::Cv { address: self.address, channel: self.channel, value },
        )
    }
}

/// A producer handle for one gate output line: it may only enqueue commands
/// addressed to its own line.
pub struct FhxGate {
    address: GtAddress,
    channel: GtChannel,
}

impl FhxGate {
    pub closed spec fn spec_address(&self) -> GtAddress {
        self.address
    }

    pub closed spec fn spec_channel(&self) -> GtChannel {
        self.channel
    }

    pub fn new(address: GtAddress, channel: GtChannel) -> (r: FhxGate)
        ensures
            r.spec_address() == address,
            r.spec_channel() == channel,
    {
        FhxGate { address, channel }
    }

    /// The command this handle sends for a level.
    pub open spec fn spec_message(&self, value: bool) -> FhxSetMessage {
        FhxSetMessage::Gate { address: self.spec_address(), channel: self.spec_channel(), value }
    }

    /// Enqueue "set this gate line high".
    pub fn set_high(&self, queue: &mut CommandQueue) -> (r: Result<(), FhxSetMessage>)
        ensures
            final(queue).spec_capacity() == old(queue).spec_capacity(),
            old(queue)@.len() < old(queue).spec_capacity() ==> r is Ok
                && final(queue)@ == old(queue)@.push(self.spec_message(true)),
            old(queue)@.len() >= old(queue).spec_capacity() ==> (r matches Err(m)
                && m == self.spec_message(true)) && final(queue)@ == old(queue)@,
    {
        queue.try_send(
            FhxSetMessage::Gate { address: self.address, channel: self.channel, value: true },
        )
    }

    /// Enqueue "set this gate line low".
    pub fn set_low(&self, queue: &mut CommandQueue) -> (r: Result<(), FhxSetMessage>)
        ensures
            final(queue).spec_capacity() == old(queue).spec_capacity(),
            old(queue)@.len() < old(queue).spec_capacity() ==> r is Ok
                && final(queue)@ == old(queue)@.push(self.spec_message(false)),
            old(queue)@.len() >= old(queue).spec_capacity() ==> (r matches Err(m)
                && m == self.spec_message(false)) && final(queue)@ == old(queue)@,
    {
        queue.try_send(
            FhxSetMessage::Gate { address: self.address, channel: self.channel, value: false },
        )
    }
}

/// What the worker applies when it drains the queue: every outstanding
/// command, one at a time, exactly in arrival order (global FIFO across all
/// producers — no reordering, no priority). The returned vector is the
/// dispatch order.
pub fn fhx_worker_drain(queue: &mut CommandQueue) -> (r: Vec<FhxSetMessage>)
    ensures
        r@ == old(queue)@,
        final(queue)@.len() == 0,
        final(queue).spec_capacity() == old(queue).spec_capacity(),
{
    let mut dispatched: Vec<FhxSetMessage> = Vec::new();
    loop
        invariant
            dispatched@ + queue@ == old(queue)@,
            queue.spec_capacity() == old(queue).spec_capacity(),
        ensures
            dispatched@ == old(queue)@,
            queue@.len() == 0,
            queue.spec_capacity() == old(queue).spec_capacity(),
        decreases queue@.len(),
    {
        let ghost pre = queue@;
        match queue.try_receive() {
            None => {
                proof {
                    assert(dispatched@ + queue@ =~= dispatched@);
                }
                break ;
            },
            Some(msg) => {
                dispatched.push(msg);
                proof {
                    assert(dispatched@ + queue@ =~= old(queue)@);
                }
            },
        }
    }
    dispatched
}

/// One red-noise tick's commands in send order: sample to CV, gate high, gate low.
pub fn red_noise_tick(cv: &FhxCv, gate: &FhxGate, value: u16) -> (r: (
    FhxSetMessage,
    FhxSetMessage,
    FhxSetMessage,
))
    ensures
        r.0 == cv.spec_message(value),
        r.1 == gate.spec_message(true),
        r.2 == gate.spec_message(false),
{
    (
        FhxSetMessage::Cv { address: cv.address, channel: cv.channel, value },
        FhxSetMessage::Gate { address: gate.address, channel: gate.channel, value: true },
        FhxSetMessage::Gate { address: gate.address, channel: gate.channel, value: false },
    )
}

/// How many arrivals an interleaving takes from sender `id`.
pub open spec fn count_picks(pick: Seq<int>, id: int) -> nat
    decreases pick.len(),
{
    if pick.len() == 0 {
        0
    } else {
        (if pick[0] == id {
            1nat
        } else {
            0nat
        }) + count_picks(pick.drop_first(), id)
    }
}

/// An arrival order merged from the command streams of several concurrent
/// senders, each command tagged with its sender: the k-th arrival comes from
/// stream `pick[k]`, and each stream is consumed in its own order.
pub open spec fn interleave(
    streams: Seq<Seq<FhxSetMessage>>,
    pick: Seq<int>,
) -> Seq<(int, FhxSetMessage)>
    decreases pick.len(),
{
    if pick.len() == 0 {
        Seq::empty()
    } else {
        let s = pick[0];
        if 0 <= s < streams.len() && streams[s].len() > 0 {
            seq![(s, streams[s][0])] + interleave(
                streams.update(s, streams[s].drop_first()),
                pick.drop_first(),
            )
        } else {
            interleave(streams, pick.drop_first())
        }
    }
}

/// The commands of one sender, in the order they stand in a tagged command
/// sequence.
pub open spec fn sender_part(s: Seq<(int, FhxSetMessage)>, id: int) -> Seq<FhxSetMessage>
    decreases s.len(),
{
    if s.len() == 0 {
        Seq::empty()
    } else if s[0].0 == id {
        seq![s[0].1] + sender_part(s.drop_first(), id)
    } else {
        sender_part(s.drop_first(), id)
    }
}

/// The arbiter never reorders one sender's commands: the worker dispatches
/// the queue's arrivals exactly in arrival order (`fhx_worker_drain`), and
/// whatever arrival order any number of concurrent senders produced — any
/// interleaving of their streams — that order, restricted to one sender, is
/// exactly that sender's own enqueue order.
pub proof fn lemma_fifo_preserves_sender_order(
    streams: Seq<Seq<FhxSetMessage>>,
    pick: Seq<int>,
    id: int,
)
    requires
        forall|k: int| 0 <= k < pick.len() ==> 0 <= #[trigger] pick[k] < streams.len(),
        forall|s: int| 0 <= s < streams.len() ==> count_picks(pick, s) == (#[trigger] streams[s]).len(),
        0 <= id < streams.len(),
    ensures
        sender_part(interleave(streams, pick), id) == streams[id],
    decreases pick.len(),
{
    if pick.len() == 0 {
        assert(streams[id] =~= Seq::<FhxSetMessage>::empty());
        assert(sender_part(interleave(streams, pick), id) =~= streams[id]);
    } else {
        let s0 = pick[0];
        let streams2 = streams.update(s0, streams[s0].drop_first());
        let pick2 = pick.drop_first();
        assert(streams[s0].len() > 0) by {
            assert(count_picks(pick, s0) >= 1);
        }
        assert(forall|k: int| 0 <= k < pick2.len() ==> pick2[k] == pick[k + 1]);
        assert forall|s: int|
            0 <= s < streams2.len() implies count_picks(pick2, s) == (#[trigger] streams2[s]).len() by {
            assert(count_picks(pick, s) == (if pick[0] == s {
                1nat
            } else {
                0nat
            }) + count_picks(pick2, s));
        }
        lemma_fifo_preserves_sender_order(streams2, pick2, id);
        let rest = interleave(streams2, pick2);
        let whole = seq![(s0, streams[s0][0])] + rest;
        assert(whole[0] == (s0, streams[s0][0]));
        assert(whole.drop_first() =~= rest);
        if id == s0 {
            assert(sender_part(whole, id) =~= seq![streams[s0][0]] + sender_part(rest, id));
            assert(seq![streams[s0][0]] + streams[s0].drop_first() =~= streams[s0]);
        }
    }
}

} // verus!
