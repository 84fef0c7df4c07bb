//! A bounded FIFO channel modelled as a state machine.
//!
//! The channel owns a fixed-capacity buffer of tagged items, a count of open
//! sender handles, and closes — irreversibly — exactly when the last sender
//! handle is released.  `try_send` and `try_recv` are the non-blocking
//! transitions of the model: a caller that would block sees the buffer full
//! (respectively empty) and retries, which is how the scheduler in
//! `system` drives the model.

use vstd::prelude::*;

verus! {

/// One item in flight: the value together with the producer that emitted it.
#[derive(Debug, Clone, Copy, PartialEq, Eq, Structural)]
pub struct Item {
    pub producer: u32,
    pub value: u32,
}

/// The mathematical state of a channel.
#[verifier::ext_equal]
pub ghost struct ChannelModel {
    pub capacity: nat,
    pub buffer: Seq<Item>,
    pub senders: nat,
}

/// A channel is well formed when its buffer never exceeds its capacity.
pub open spec fn channel_wf(c: ChannelModel) -> bool {
    c.buffer.len() <= c.capacity
}

/// A channel is closed exactly when no sender handle remains.
pub open spec fn channel_closed(c: ChannelModel) -> bool {
    c.senders == 0
}

/// What one receive attempt observes.
#[derive(Debug, Clone, Copy, PartialEq, Eq, Structural)]
pub enum RecvOutcome {
    /// The buffer was non-empty; this item left it.
    Received(Item),
    /// The buffer was empty but senders remain: a blocking receiver waits.
    Empty,
    /// The buffer was empty and the channel closed: permanent end-of-stream.
    EndOfStream,
}

/// The outcome one receive attempt observes in state `c`.
pub open spec fn recv_outcome(c: ChannelModel) -> RecvOutcome {
    if c.buffer.len() > 0 {
        RecvOutcome::Received(c.buffer[0])
    } else if c.senders == 0 {
        RecvOutcome::EndOfStream
    } else {
        RecvOutcome::Empty
    }
}

/// The channel state after one receive attempt in state `c`.
pub open spec fn recv_next(c: ChannelModel) -> ChannelModel {
    if c.buffer.len() > 0 {
        ChannelModel { buffer: c.buffer.remove(0), ..c }
    } else {
        c
    }
}

/// End-of-stream is idempotent: once the channel is closed and drained,
/// a receive attempt observes end-of-stream and leaves the channel exactly
/// as it was, so every later attempt observes end-of-stream as well and
/// none of them blocks.
pub proof fn theorem_end_of_stream_idempotent(c: ChannelModel)
    requires
        channel_closed(c),
        c.buffer.len() == 0,
    ensures
        recv_outcome(c) == RecvOutcome::EndOfStream,
        recv_next(c) == c,
{
}

/// The bounded channel: a fixed-capacity FIFO buffer shared by senders and
/// receivers, which closes when the last sender handle is released.
pub struct Channel {
    buffer: Vec<Item>,
    capacity: usize,
    senders: u32,
}

impl View for Channel {
    type V = ChannelModel;

    closed spec fn view(&self) -> ChannelModel {
        ChannelModel {
            capacity: self.capacity as nat,
            buffer: self.buffer@,
            senders: self.senders as nat,
        }
    }
}

impl Channel {
    /// Create a channel of fixed capacity with one open sender handle,
    /// as handed to the orchestrator at construction.
    pub fn new(capacity: usize) -> (c: Channel)
        ensures
            c@ == (ChannelModel { capacity: capacity as nat, buffer: Seq::empty(), senders: 1 }),
            channel_wf(c@),
    {
        let c = Channel { buffer: Vec::new(), capacity, senders: 1 };
        proof {
            assert(c@.buffer =~= Seq::<Item>::empty());
        }
        c
    }

    /// Register one more sender handle, as cloning a handle does.
    pub fn clone_sender(&mut self)
        requires
            old(self)@.senders >= 1,
            old(self)@.senders < u32::MAX,
        ensures
            final(self)@ == (ChannelModel { senders: old(self)@.senders + 1, ..old(self)@ }),
    {
        self.senders = self.senders + 1;
    }

    /// Release one sender handle.  When the last one goes, the channel is
    /// closed from that point on, irreversibly: no handle remains to clone.
    pub fn drop_sender(&mut self)
        requires
            old(self)@.senders >= 1,
        ensures
            final(self)@ == (ChannelModel { senders: (old(self)@.senders - 1) as nat, ..old(self)@ }),
            channel_closed(final(self)@) <==> old(self)@.senders == 1,
    {
        self.senders = self.senders - 1;
    }

    /// Whether the channel is closed: no open sender handle remains.
    pub fn is_closed(&self) -> (r: bool)
        ensures
            r <==> channel_closed(self@),
    {
        self.senders == 0
    }

    /// How many items are buffered right now.
    pub fn len(&self) -> (n: usize)
        ensures
            n == self@.buffer.len(),
    {
        self.buffer.len()
    }

    /// One send attempt.  With room in the buffer the item is appended,
    /// preserving FIFO order; with the buffer at capacity nothing changes
    /// and the caller — a blocking sender — would wait and retry.
    pub fn try_send(&mut self, item: Item) -> (ok: bool)
        requires
            channel_wf(old(self)@),
            old(self)@.senders >= 1,
        ensures
            ok <==> old(self)@.buffer.len() < old(self)@.capacity,
            ok ==> final(self)@ == (ChannelModel {
                buffer: old(self)@.buffer.push(item),
                ..old(self)@
            }),
            !ok ==> final(self)@ == old(self)@,
            channel_wf(final(self)@),
    {
        if self.buffer.len() < self.capacity {
            self.buffer.push(item);
            true
        } else {
            false
        }
    }

    /// One receive attempt: the front item when the buffer is non-empty,
    /// end-of-stream when it is empty and the channel is closed, and
    /// `Empty` — a blocking receiver would wait and retry — otherwise.
    pub fn try_recv(&mut self) -> (r: RecvOutcome)
        requires
            channel_wf(old(self)@),
        ensures
            r == recv_outcome(old(self)@),
            final(self)@ == recv_next(old(self)@),
            channel_wf(final(self)@),
    {
        if self.buffer.len() > 0 {
            let item = self.buffer.remove(0);
            RecvOutcome::Received(item)
        } else if self.senders == 0 {
            RecvOutcome::EndOfStream
        } else {
            RecvOutcome::Empty
        }
    }
}

} // verus!
