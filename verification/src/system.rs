//! The whole-program model: producers, consumers, channel and barrier.
//!
//! Every task is modelled by its state, and the program by the set of task
//! states around one channel and one barrier.  One call of `step_producer`
//! or `step_consumer` is one scheduling of the corresponding task; a task
//! that would block (full buffer for a sender, empty open channel for a
//! receiver) leaves the state unchanged and is scheduled again later.  The
//! invariant `state_wf` is preserved by every step, and carries the facts
//! the library proves: the buffer never exceeds its capacity, no item is
//! lost or duplicated, and every producer's items travel in their original
//! order.

use vstd::prelude::*;

use crate::barrier::Barrier;
use crate::channel::Channel;
use crate::channel::ChannelModel;
use crate::channel::Item;
use crate::channel::RecvOutcome;
use crate::channel::channel_wf;
use crate::channel::recv_next;
use crate::channel::recv_outcome;

verus! {

/// The state of one producer task: how many items it has emitted so far,
/// and whether it still holds its sender handle.
#[derive(Debug, Clone, Copy)]
pub struct ProducerState {
    pub emitted: u32,
    pub sender_open: bool,
}

/// The mathematical state of one producer.
#[verifier::ext_equal]
pub ghost struct ProducerModel {
    pub emitted: nat,
    pub sender_open: bool,
}

/// The mathematical state of one producer task.
pub open spec fn producer_model(p: ProducerState) -> ProducerModel {
    ProducerModel { emitted: p.emitted as nat, sender_open: p.sender_open }
}

/// The mathematical state of the whole program.
#[verifier::ext_equal]
pub ghost struct StateModel {
    /// The shared bounded channel.
    pub channel: ChannelModel,
    /// One entry per producer task.
    pub producers: Seq<ProducerModel>,
    /// One entry per consumer task: whether it has observed end-of-stream.
    pub consumers_done: Seq<bool>,
    /// The completion barrier: consumers that have not signalled yet.
    pub barrier: nat,
    /// The combined consumption stream, in the order items were taken.
    pub consumed: Seq<Item>,
    /// How many items each producer is to emit.
    pub elems: nat,
}

/// How many producers still hold their sender handle.
pub open spec fn count_open(ps: Seq<ProducerModel>) -> nat
    decreases ps.len(),
{
    if ps.len() == 0 {
        0
    } else if ps.last().sender_open {
        count_open(ps.drop_last()) + 1
    } else {
        count_open(ps.drop_last())
    }
}

/// How many consumers have not observed end-of-stream yet.
pub open spec fn count_unfinished(cs: Seq<bool>) -> nat
    decreases cs.len(),
{
    if cs.len() == 0 {
        0
    } else if cs.last() {
        count_unfinished(cs.drop_last())
    } else {
        count_unfinished(cs.drop_last()) + 1
    }
}

/// How many items all producers together have emitted so far.
pub open spec fn total_emitted(ps: Seq<ProducerModel>) -> nat
    decreases ps.len(),
{
    if ps.len() == 0 {
        0
    } else {
        total_emitted(ps.drop_last()) + ps.last().emitted
    }
}

/// The values in `s` that originate from producer `id`, in stream order.
pub open spec fn origin_values(s: Seq<Item>, id: int) -> Seq<u32>
    decreases s.len(),
{
    if s.len() == 0 {
        Seq::empty()
    } else if s.last().producer == id {
        origin_values(s.drop_last(), id).push(s.last().value)
    } else {
        origin_values(s.drop_last(), id)
    }
}

/// The sequence `0, 1, ..., n - 1`: what a producer emits, in order.
pub open spec fn ascending(n: nat) -> Seq<u32> {
    Seq::new(n, |j: int| j as u32)
}

/// The system invariant.  It holds of the initial state and is preserved
/// by every producer and consumer step:
/// - the buffer never exceeds the configured capacity;
/// - the channel's sender count equals the number of producers that still
///   hold their handle, so the channel is closed exactly when the last
///   producer has released its handle;
/// - the barrier counts exactly the consumers that have not observed
///   end-of-stream;
/// - a producer that has not emitted everything still holds its handle;
/// - no item is lost or duplicated: consumed plus buffered equals emitted;
/// - per producer, the consumed items followed by the buffered ones are
///   exactly `0, 1, ..., emitted - 1`, in that order;
/// - a consumer observes end-of-stream only once the channel is closed
///   and drained, and from then on the buffer stays empty.
pub open spec fn state_wf(s: StateModel) -> bool {
    &&& channel_wf(s.channel)
    &&& s.producers.len() <= u32::MAX
    &&& s.consumers_done.len() <= u32::MAX
    &&& s.elems <= u32::MAX
    &&& s.channel.senders == count_open(s.producers)
    &&& s.barrier == count_unfinished(s.consumers_done)
    &&& (forall|i: int|
        0 <= i < s.producers.len() ==> (#[trigger] s.producers[i]).emitted <= s.elems)
    &&& (forall|i: int|
        0 <= i < s.producers.len() ==> ((#[trigger] s.producers[i]).emitted < s.elems
            ==> s.producers[i].sender_open))
    &&& s.consumed.len() + s.channel.buffer.len() == total_emitted(s.producers)
    &&& (forall|i: int|
        0 <= i < s.producers.len() ==> #[trigger] origin_values(s.consumed + s.channel.buffer, i)
            == ascending(s.producers[i].emitted))
    &&& ((exists|j: int| 0 <= j < s.consumers_done.len() && s.consumers_done[j]) ==> (
    s.channel.senders == 0 && s.channel.buffer.len() == 0))
}

/// One scheduling of producer `i`: emit the next item if the buffer has
/// room, block (no change) if it is full, release the sender handle once
/// everything is emitted, and do nothing after that.
pub open spec fn producer_step(s: StateModel, i: int) -> StateModel {
    let p = s.producers[i];
    if p.emitted < s.elems {
        if s.channel.buffer.len() < s.channel.capacity {
            StateModel {
                channel: ChannelModel {
                    buffer: s.channel.buffer.push(
                        Item { producer: i as u32, value: p.emitted as u32 },
                    ),
                    ..s.channel
                },
                producers: s.producers.update(
                    i,
                    ProducerModel { emitted: p.emitted + 1, ..p },
                ),
                ..s
            }
        } else {
            s
        }
    } else if p.sender_open {
        StateModel {
            channel: ChannelModel { senders: (s.channel.senders - 1) as nat, ..s.channel },
            producers: s.producers.update(i, ProducerModel { sender_open: false, ..p }),
            ..s
        }
    } else {
        s
    }
}

/// One scheduling of consumer `j`: take the front item if there is one,
/// block (no change) while the buffer is empty but senders remain, and on
/// end-of-stream signal the barrier and finish.  A finished consumer does
/// nothing.
pub open spec fn consumer_step(s: StateModel, j: int) -> StateModel {
    if s.consumers_done[j] {
        s
    } else {
        match recv_outcome(s.channel) {
            RecvOutcome::Received(item) => StateModel {
                channel: recv_next(s.channel),
                consumed: s.consumed.push(item),
                ..s
            },
            RecvOutcome::Empty => s,
            RecvOutcome::EndOfStream => StateModel {
                consumers_done: s.consumers_done.update(j, true),
                barrier: (s.barrier - 1) as nat,
                ..s
            },
        }
    }
}

/// The state right after the orchestrator has set everything up: the
/// channel holds one open sender per producer (the orchestrator's own
/// handle is already released), every producer is at its first item, no
/// consumer has finished, and the barrier counts all consumers.
pub open spec fn initial_state(p: nat, c: nat, b: nat, e: nat) -> StateModel {
    StateModel {
        channel: ChannelModel { capacity: b, buffer: Seq::empty(), senders: p },
        producers: Seq::new(p, |i: int| ProducerModel { emitted: 0, sender_open: true }),
        consumers_done: Seq::new(c, |j: int| false),
        barrier: c,
        consumed: Seq::empty(),
        elems: e,
    }
}

// ---------------------------------------------------------------------------
// Counting lemmas.
// ---------------------------------------------------------------------------

pub(crate) proof fn lemma_count_open_update(ps: Seq<ProducerModel>, i: int, q: ProducerModel)
    requires
        0 <= i < ps.len(),
    ensures
        count_open(ps.update(i, q)) == count_open(ps) - (if ps[i].sender_open {
            1int
        } else {
            0int
        }) + (if q.sender_open {
            1int
        } else {
            0int
        }),
    decreases ps.len(),
{
    if i == ps.len() - 1 {
        assert(ps.update(i, q).drop_last() =~= ps.drop_last());
        assert(ps.update(i, q).last() == q);
    } else {
        assert(ps.update(i, q).drop_last() =~= ps.drop_last().update(i, q));
        assert(ps.update(i, q).last() == ps.last());
        assert(ps.drop_last()[i] == ps[i]);
        lemma_count_open_update(ps.drop_last(), i, q);
    }
}

pub(crate) proof fn lemma_count_open_pos(ps: Seq<ProducerModel>, i: int)
    requires
        0 <= i < ps.len(),
        ps[i].sender_open,
    ensures
        count_open(ps) >= 1,
    decreases ps.len(),
{
    if i < ps.len() - 1 {
        assert(ps.drop_last()[i] == ps[i]);
        lemma_count_open_pos(ps.drop_last(), i);
    }
}

pub(crate) proof fn lemma_count_open_all_open(ps: Seq<ProducerModel>)
    requires
        forall|i: int| 0 <= i < ps.len() ==> (#[trigger] ps[i]).sender_open,
    ensures
        count_open(ps) == ps.len(),
    decreases ps.len(),
{
    if ps.len() > 0 {
        assert forall|i: int| 0 <= i < ps.drop_last().len() implies (#[trigger] ps.drop_last()[
            i
        ]).sender_open by {
            assert(ps.drop_last()[i] == ps[i]);
        }
        lemma_count_open_all_open(ps.drop_last());
        assert(ps.last() == ps[ps.len() - 1]);
    }
}

pub(crate) proof fn lemma_count_open_none_open(ps: Seq<ProducerModel>)
    requires
        forall|i: int| 0 <= i < ps.len() ==> !(#[trigger] ps[i]).sender_open,
    ensures
        count_open(ps) == 0,
    decreases ps.len(),
{
    if ps.len() > 0 {
        assert forall|i: int| 0 <= i < ps.drop_last().len() implies !(#[trigger] ps.drop_last()[
            i
        ]).sender_open by {
            assert(ps.drop_last()[i] == ps[i]);
        }
        lemma_count_open_none_open(ps.drop_last());
        assert(ps.last() == ps[ps.len() - 1]);
    }
}

pub(crate) proof fn lemma_count_unfinished_update(cs: Seq<bool>, j: int, v: bool)
    requires
        0 <= j < cs.len(),
    ensures
        count_unfinished(cs.update(j, v)) == count_unfinished(cs) - (if cs[j] {
            0int
        } else {
            1int
        }) + (if v {
            0int
        } else {
            1int
        }),
    decreases cs.len(),
{
    if j == cs.len() - 1 {
        assert(cs.update(j, v).drop_last() =~= cs.drop_last());
        assert(cs.update(j, v).last() == v);
    } else {
        assert(cs.update(j, v).drop_last() =~= cs.drop_last().update(j, v));
        assert(cs.update(j, v).last() == cs.last());
        assert(cs.drop_last()[j] == cs[j]);
        lemma_count_unfinished_update(cs.drop_last(), j, v);
    }
}

pub(crate) proof fn lemma_count_unfinished_pos(cs: Seq<bool>, j: int)
    requires
        0 <= j < cs.len(),
        !cs[j],
    ensures
        count_unfinished(cs) >= 1,
    decreases cs.len(),
{
    if j < cs.len() - 1 {
        assert(cs.drop_last()[j] == cs[j]);
        lemma_count_unfinished_pos(cs.drop_last(), j);
    }
}

pub(crate) proof fn lemma_count_unfinished_none_done(cs: Seq<bool>)
    requires
        forall|j: int| 0 <= j < cs.len() ==> !(#[trigger] cs[j]),
    ensures
        count_unfinished(cs) == cs.len(),
    decreases cs.len(),
{
    if cs.len() > 0 {
        assert forall|j: int| 0 <= j < cs.drop_last().len() implies !(#[trigger] cs.drop_last()[
            j
        ]) by {
            assert(cs.drop_last()[j] == cs[j]);
        }
        lemma_count_unfinished_none_done(cs.drop_last());
        assert(cs.last() == cs[cs.len() - 1]);
    }
}

pub(crate) proof fn lemma_count_unfinished_all_done(cs: Seq<bool>)
    requires
        forall|j: int| 0 <= j < cs.len() ==> #[trigger] cs[j],
    ensures
        count_unfinished(cs) == 0,
    decreases cs.len(),
{
    if cs.len() > 0 {
        assert forall|j: int| 0 <= j < cs.drop_last().len() implies #[trigger] cs.drop_last()[
            j
        ] by {
            assert(cs.drop_last()[j] == cs[j]);
        }
        lemma_count_unfinished_all_done(cs.drop_last());
        assert(cs.last() == cs[cs.len() - 1]);
    }
}

pub(crate) proof fn lemma_total_emitted_update(ps: Seq<ProducerModel>, i: int, q: ProducerModel)
    requires
        0 <= i < ps.len(),
    ensures
        total_emitted(ps.update(i, q)) == total_emitted(ps) - ps[i].emitted + q.emitted,
    decreases ps.len(),
{
    if i == ps.len() - 1 {
        assert(ps.update(i, q).drop_last() =~= ps.drop_last());
        assert(ps.update(i, q).last() == q);
    } else {
        assert(ps.update(i, q).drop_last() =~= ps.drop_last().update(i, q));
        assert(ps.update(i, q).last() == ps.last());
        assert(ps.drop_last()[i] == ps[i]);
        lemma_total_emitted_update(ps.drop_last(), i, q);
    }
}

pub(crate) proof fn lemma_total_emitted_all(ps: Seq<ProducerModel>, e: nat)
    requires
        forall|i: int| 0 <= i < ps.len() ==> (#[trigger] ps[i]).emitted == e,
    ensures
        total_emitted(ps) == ps.len() * e,
    decreases ps.len(),
{
    if ps.len() == 0 {
        assert(0nat * e == 0) by (nonlinear_arith);
    } else {
        assert forall|i: int| 0 <= i < ps.drop_last().len() implies (#[trigger] ps.drop_last()[
            i
        ]).emitted == e by {
            assert(ps.drop_last()[i] == ps[i]);
        }
        lemma_total_emitted_all(ps.drop_last(), e);
        assert(ps.last() == ps[ps.len() - 1]);
        assert((ps.len() - 1) * e + e == ps.len() * e) by (nonlinear_arith);
    }
}

// ---------------------------------------------------------------------------
// Lemmas about the per-producer value streams.
// ---------------------------------------------------------------------------

/// Appending one item extends exactly the stream of its own producer.
pub(crate) proof fn lemma_origin_push(s: Seq<Item>, x: Item, id: int)
    ensures
        origin_values(s.push(x), id) == (if x.producer == id {
            origin_values(s, id).push(x.value)
        } else {
            origin_values(s, id)
        }),
{
    assert(s.push(x).drop_last() =~= s);
    assert(s.push(x).last() == x);
}

/// Per-producer streams distribute over concatenation.
pub(crate) proof fn lemma_origin_distributes(a: Seq<Item>, b: Seq<Item>, id: int)
    ensures
        origin_values(a + b, id) == origin_values(a, id) + origin_values(b, id),
    decreases b.len(),
{
    if b.len() == 0 {
        assert(a + b =~= a);
        assert(origin_values(a, id) + origin_values(b, id) =~= origin_values(a, id));
    } else {
        assert((a + b).drop_last() =~= a + b.drop_last());
        assert((a + b).last() == b.last());
        lemma_origin_distributes(a, b.drop_last(), id);
        if b.last().producer == id {
            assert((origin_values(a, id) + origin_values(b.drop_last(), id)).push(b.last().value)
                =~= origin_values(a, id) + origin_values(b.drop_last(), id).push(b.last().value));
        }
    }
}

// ---------------------------------------------------------------------------
// The invariant holds initially and is preserved by every step.
// ---------------------------------------------------------------------------

/// The initial state is well formed.
pub proof fn lemma_initial_wf(p: nat, c: nat, b: nat, e: nat)
    requires
        p <= u32::MAX,
        c <= u32::MAX,
        e <= u32::MAX,
    ensures
        state_wf(initial_state(p, c, b, e)),
{
    let s = initial_state(p, c, b, e);
    lemma_count_open_all_open(s.producers);
    lemma_count_unfinished_none_done(s.consumers_done);
    lemma_total_emitted_all(s.producers, 0);
    assert(s.producers.len() * 0nat == 0) by (nonlinear_arith);
    assert forall|i: int|
        0 <= i < s.producers.len() implies #[trigger] origin_values(
        s.consumed + s.channel.buffer,
        i,
    ) == ascending(s.producers[i].emitted) by {
        assert(s.consumed + s.channel.buffer =~= Seq::<Item>::empty());
        assert(origin_values(s.consumed + s.channel.buffer, i) =~= ascending(0));
    }
}

/// Scheduling a producer preserves the invariant.
pub proof fn lemma_producer_step_wf(s: StateModel, i: int)
    requires
        state_wf(s),
        0 <= i < s.producers.len(),
    ensures
        state_wf(producer_step(s, i)),
{
    let p = s.producers[i];
    let t = producer_step(s, i);
    if p.emitted < s.elems {
        assert(p.sender_open);
        lemma_count_open_pos(s.producers, i);
        assert forall|j: int| 0 <= j < s.consumers_done.len() implies !(#[trigger] s.consumers_done[
            j
        ]) by {
            if s.consumers_done[j] {
                assert(exists|m: int| 0 <= m < s.consumers_done.len() && s.consumers_done[m]);
            }
        }
        if s.channel.buffer.len() < s.channel.capacity {
            let item = Item { producer: i as u32, value: p.emitted as u32 };
            let q = ProducerModel { emitted: p.emitted + 1, ..p };
            lemma_count_open_update(s.producers, i, q);
            lemma_total_emitted_update(s.producers, i, q);
            assert(t.consumed + t.channel.buffer =~= (s.consumed + s.channel.buffer).push(item));
            assert forall|k: int|
                0 <= k < t.producers.len() implies #[trigger] origin_values(
                t.consumed + t.channel.buffer,
                k,
            ) == ascending(t.producers[k].emitted) by {
                lemma_origin_push(s.consumed + s.channel.buffer, item, k);
                if k == i {
                    assert(item.producer == k);
                    assert(ascending(p.emitted).push(p.emitted as u32) =~= ascending(
                        p.emitted + 1,
                    ));
                } else {
                    assert(item.producer == i);
                    assert(item.producer != k);
                }
            }
        } else {
            // the buffer is full: the producer blocks and nothing changes
        }
    } else if p.sender_open {
        let q = ProducerModel { sender_open: false, ..p };
        lemma_count_open_pos(s.producers, i);
        lemma_count_open_update(s.producers, i, q);
        lemma_total_emitted_update(s.producers, i, q);
        assert forall|j: int| 0 <= j < s.consumers_done.len() implies !(#[trigger] s.consumers_done[
            j
        ]) by {
            if s.consumers_done[j] {
                assert(exists|m: int| 0 <= m < s.consumers_done.len() && s.consumers_done[m]);
            }
        }
        assert forall|k: int|
            0 <= k < t.producers.len() implies #[trigger] origin_values(
            t.consumed + t.channel.buffer,
            k,
        ) == ascending(t.producers[k].emitted) by {
            assert(t.producers[k].emitted == s.producers[k].emitted);
            assert(origin_values(s.consumed + s.channel.buffer, k) == ascending(
                s.producers[k].emitted,
            ));
        }
    } else {
        // the producer has emitted everything and released its handle
    }
}

/// Scheduling a consumer preserves the invariant.
pub proof fn lemma_consumer_step_wf(s: StateModel, j: int)
    requires
        state_wf(s),
        0 <= j < s.consumers_done.len(),
    ensures
        state_wf(consumer_step(s, j)),
{
    let t = consumer_step(s, j);
    if s.consumers_done[j] {
    } else if s.channel.buffer.len() > 0 {
        assert forall|m: int| 0 <= m < s.consumers_done.len() implies !(#[trigger] s.consumers_done[
            m
        ]) by {
            if s.consumers_done[m] {
                assert(exists|n: int| 0 <= n < s.consumers_done.len() && s.consumers_done[n]);
            }
        }
        assert(t.consumed + t.channel.buffer =~= s.consumed + s.channel.buffer);
        assert forall|k: int|
            0 <= k < t.producers.len() implies #[trigger] origin_values(
            t.consumed + t.channel.buffer,
            k,
        ) == ascending(t.producers[k].emitted) by {
            assert(origin_values(s.consumed + s.channel.buffer, k) == ascending(
                s.producers[k].emitted,
            ));
        }
    } else if s.channel.senders == 0 {
        lemma_count_unfinished_pos(s.consumers_done, j);
        lemma_count_unfinished_update(s.consumers_done, j, true);
    } else {
        // empty buffer, open channel: the consumer blocks and nothing changes
    }
}

// ---------------------------------------------------------------------------
// The executable system.
// ---------------------------------------------------------------------------

/// The trivial per-item computation a consumer performs: doubling, with the
/// wraparound the machine's unsigned arithmetic gives.  The result is
/// discarded; its only purpose is to model work.
pub fn process_item(x: u32) -> (r: u32)
    ensures
        r == (2 * x) % 0x1_0000_0000,
{
    let r = (x % 0x8000_0000) * 2;
    proof {
        if x < 0x8000_0000 {
            assert((2 * x) % 0x1_0000_0000 == 2 * x);
        } else {
            assert(x / 0x8000_0000 == 1);
            assert(x % 0x8000_0000 == x - 0x8000_0000);
            assert((2 * x) / 0x1_0000_0000 == 1);
            assert((2 * x) % 0x1_0000_0000 == 2 * x - 0x1_0000_0000);
        }
    }
    r
}

/// The whole program as an executable state machine: the shared channel,
/// every task's state, the completion barrier, and the combined consumption
/// stream.  Tasks advance one step at a time through `step_producer` and
/// `step_consumer`, in any order a scheduler picks.
pub struct System {
    channel: Channel,
    producers: Vec<ProducerState>,
    consumers_done: Vec<bool>,
    barrier: Barrier,
    consumed: Vec<Item>,
    elems_per_producer: u32,
}

impl View for System {
    type V = StateModel;

    closed spec fn view(&self) -> StateModel {
        StateModel {
            channel: self.channel@,
            producers: self.producers@.map_values(|p: ProducerState| producer_model(p)),
            consumers_done: self.consumers_done@,
            barrier: self.barrier@,
            consumed: self.consumed@,
            elems: self.elems_per_producer as nat,
        }
    }
}

impl System {
    /// Whether the system invariant holds of the current state.
    pub open spec fn wf(&self) -> bool {
        state_wf(self@)
    }

    /// Set the whole system up, as the orchestrator does: create the channel
    /// with the configured capacity, register one cloned sender handle per
    /// producer, release the orchestrator's own handle — so the channel
    /// closes exactly when the last producer finishes — and register every
    /// consumer with the barrier.
    pub fn new(p: u32, c: u32, b: usize, e: u32) -> (s: System)
        requires
            p < u32::MAX,
        ensures
            s@ == initial_state(p as nat, c as nat, b as nat, e as nat),
            s.wf(),
    {
        let mut channel = Channel::new(b);
        let mut k: u32 = 0;
        while k < p
            invariant
                k <= p,
                p < u32::MAX,
                channel@.capacity == b as nat,
                channel@.buffer == Seq::<Item>::empty(),
                channel@.senders == 1 + k,
            decreases p - k,
        {
            channel.clone_sender();
            k = k + 1;
        }
        channel.drop_sender();
        let mut producers: Vec<ProducerState> = Vec::new();
        let mut k: u32 = 0;
        while k < p
            invariant
                k <= p,
                producers@.len() == k,
                forall|m: int|
                    0 <= m < k ==> producers@[m] == (ProducerState {
                        emitted: 0,
                        sender_open: true,
                    }),
            decreases p - k,
        {
            producers.push(ProducerState { emitted: 0, sender_open: true });
            k = k + 1;
        }
        let mut consumers_done: Vec<bool> = Vec::new();
        let mut k: u32 = 0;
        while k < c
            invariant
                k <= c,
                consumers_done@.len() == k,
                forall|m: int| 0 <= m < k ==> !consumers_done@[m],
            decreases c - k,
        {
            consumers_done.push(false);
            k = k + 1;
        }
        let barrier = Barrier::new(c);
        let s = System {
            channel,
            producers,
            consumers_done,
            barrier,
            consumed: Vec::new(),
            elems_per_producer: e,
        };
        proof {
            let init = initial_state(p as nat, c as nat, b as nat, e as nat);
            assert(s@.producers =~= init.producers);
            assert(s@.consumers_done =~= init.consumers_done);
            assert(s@.consumed =~= init.consumed);
            assert(s@ =~~= init);
            lemma_initial_wf(p as nat, c as nat, b as nat, e as nat);
        }
        s
    }

    /// Schedule producer `i` for one step, as `producer_step` describes:
    /// it emits its next item when the buffer has room, blocks when the
    /// buffer is full, and releases its sender handle — closing the channel
    /// if it was the last one — once it has emitted everything.
    pub fn step_producer(&mut self, i: usize)
        requires
            old(self).wf(),
            i < old(self)@.producers.len(),
        ensures
            final(self)@ == producer_step(old(self)@, i as int),
            final(self).wf(),
    {
        proof {
            lemma_producer_step_wf(old(self)@, i as int);
        }
        let p = self.producers[i];
        if p.emitted < self.elems_per_producer {
            proof {
                assert(old(self)@.producers[i as int].sender_open);
                lemma_count_open_pos(old(self)@.producers, i as int);
            }
            let item = Item { producer: i as u32, value: p.emitted };
            let ok = self.channel.try_send(item);
            if ok {
                self.producers[i] = ProducerState { emitted: p.emitted + 1, ..p };
            }
        } else if p.sender_open {
            proof {
                lemma_count_open_pos(old(self)@.producers, i as int);
            }
            self.channel.drop_sender();
            self.producers[i] = ProducerState { sender_open: false, ..p };
        }
        proof {
            assert(self@.producers =~= producer_step(old(self)@, i as int).producers);
            assert(self@ =~~= producer_step(old(self)@, i as int));
        }
    }

    /// Schedule consumer `j` for one step, as `consumer_step` describes:
    /// it takes and processes the front item when there is one, blocks while
    /// the buffer is empty but senders remain, and on end-of-stream signals
    /// the barrier and finishes, for good.
    pub fn step_consumer(&mut self, j: usize)
        requires
            old(self).wf(),
            j < old(self)@.consumers_done.len(),
        ensures
            final(self)@ == consumer_step(old(self)@, j as int),
            final(self).wf(),
    {
        proof {
            lemma_consumer_step_wf(old(self)@, j as int);
        }
        if !self.consumers_done[j] {
            match self.channel.try_recv() {
                RecvOutcome::Received(item) => {
                    let _ = process_item(item.value);
                    self.consumed.push(item);
                },
                RecvOutcome::Empty => {},
                RecvOutcome::EndOfStream => {
                    proof {
                        lemma_count_unfinished_pos(old(self)@.consumers_done, j as int);
                    }
                    self.barrier.done();
                    self.consumers_done[j] = true;
                },
            }
        }
        proof {
            assert(self@ =~~= consumer_step(old(self)@, j as int));
        }
    }

    /// Whether the program has reached its terminal state: every consumer
    /// has observed end-of-stream and signalled the barrier, so the
    /// orchestrator's wait returns.
    pub fn is_done(&self) -> (r: bool)
        ensures
            r <==> self@.barrier == 0,
    {
        self.barrier.is_complete()
    }

    /// How many items the channel buffers right now.
    pub fn buffered(&self) -> (n: usize)
        ensures
            n == self@.channel.buffer.len(),
    {
        self.channel.len()
    }

    /// Whether the channel is closed: every sender handle released.
    pub fn is_closed(&self) -> (r: bool)
        ensures
            r <==> self@.channel.senders == 0,
    {
        self.channel.is_closed()
    }

    /// The combined consumption stream so far, each item tagged with the
    /// producer it originated from.
    pub fn consumed(&self) -> (items: &Vec<Item>)
        ensures
            items@ == self@.consumed,
    {
        &self.consumed
    }
}

/// Run the whole pipeline to completion under one fair schedule and return
/// the terminal state: every producer emits its `e` items and releases its
/// handle, the channel closes, the consumers drain it and observe
/// end-of-stream, and the barrier reaches zero.  The function provably
/// terminates — every loop carries a `decreases` measure — so for any
/// `p` and finite `e` the program reaches its terminal state in bounded
/// time: no deadlock.
pub fn run(p: u32, c: u32, b: usize, e: u32) -> (s: System)
    requires
        b >= 1,
        c >= 1,
        p < u32::MAX,
    ensures
        s.wf(),
        s@.barrier == 0,
        s@.channel.senders == 0,
        s@.channel.buffer.len() == 0,
        s@.producers.len() == p as nat,
        s@.consumers_done.len() == c as nat,
        s@.elems == e as nat,
        s@.channel.capacity == b as nat,
        s@.consumed.len() == (p as nat) * (e as nat),
        forall|j: int| 0 <= j < c ==> s@.consumers_done[j],
{
    let mut sys = System::new(p, c, b, e);
    let mut i: usize = 0;
    while i < p as usize
        invariant
            sys.wf(),
            i <= p as usize,
            c >= 1,
            b >= 1,
            sys@.producers.len() == p as nat,
            sys@.consumers_done.len() == c as nat,
            sys@.elems == e as nat,
            sys@.channel.capacity == b as nat,
            forall|k: int| 0 <= k < i ==> !(#[trigger] sys@.producers[k]).sender_open,
            forall|k: int| i <= k < p ==> (#[trigger] sys@.producers[k]).sender_open,
            forall|j: int| 0 <= j < c ==> !(#[trigger] sys@.consumers_done[j]),
        decreases p - i,
    {
        while sys.producers[i].emitted < sys.elems_per_producer
            invariant
                sys.wf(),
                i < p as usize,
                c >= 1,
                b >= 1,
                sys@.producers.len() == p as nat,
                sys@.consumers_done.len() == c as nat,
                sys@.elems == e as nat,
                sys@.channel.capacity == b as nat,
                forall|k: int| 0 <= k < i ==> !(#[trigger] sys@.producers[k]).sender_open,
                forall|k: int| i <= k < p ==> (#[trigger] sys@.producers[k]).sender_open,
                forall|j: int| 0 <= j < c ==> !(#[trigger] sys@.consumers_done[j]),
            decreases e - sys@.producers[i as int].emitted,
        {
            if sys.channel.len() == b {
                // the buffer is full: schedule a consumer to make room
                sys.step_consumer(0);
            }
            sys.step_producer(i);
        }
        // everything emitted: the producer releases its sender handle
        sys.step_producer(i);
        i = i + 1;
    }
    proof {
        // every producer has released its handle: the channel is closed
        lemma_count_open_none_open(sys@.producers);
    }
    while sys.channel.len() > 0
        invariant
            sys.wf(),
            c >= 1,
            sys@.producers.len() == p as nat,
            sys@.consumers_done.len() == c as nat,
            sys@.elems == e as nat,
            sys@.channel.capacity == b as nat,
            sys@.channel.senders == 0,
            forall|j: int| 0 <= j < c ==> !(#[trigger] sys@.consumers_done[j]),
        decreases sys@.channel.buffer.len(),
    {
        // the channel is closed but not yet drained: consumers keep receiving
        sys.step_consumer(0);
    }
    let mut j: usize = 0;
    while j < c as usize
        invariant
            sys.wf(),
            j <= c as usize,
            sys@.producers.len() == p as nat,
            sys@.consumers_done.len() == c as nat,
            sys@.elems == e as nat,
            sys@.channel.capacity == b as nat,
            sys@.channel.senders == 0,
            sys@.channel.buffer.len() == 0,
            forall|m: int| 0 <= m < j ==> #[trigger] sys@.consumers_done[m],
            forall|m: int| j <= m < c ==> !(#[trigger] sys@.consumers_done[m]),
        decreases c - j,
    {
        // closed and drained: the consumer observes end-of-stream and signals
        sys.step_consumer(j);
        j = j + 1;
    }
    proof {
        lemma_count_unfinished_all_done(sys@.consumers_done);
        assert forall|k: int| 0 <= k < p implies !(#[trigger] sys@.producers[k]).sender_open by {
            if sys@.producers[k].sender_open {
                lemma_count_open_pos(sys@.producers, k);
            }
        }
        assert forall|k: int|
            0 <= k < p implies (#[trigger] sys@.producers[k]).emitted == e as nat by {
            assert(sys@.producers[k].emitted <= sys@.elems);
        }
        lemma_total_emitted_all(sys@.producers, e as nat);
    }
    sys
}

} // verus!
