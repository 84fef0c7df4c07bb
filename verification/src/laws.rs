//! The properties the library guarantees, stated and proved over the
//! system model: they hold of the initial state and of every state any
//! interleaving of producer and consumer steps can reach from it.

use vstd::prelude::*;

use crate::channel::RecvOutcome;
use crate::channel::channel_closed;
use crate::channel::recv_outcome;
use crate::system::StateModel;
use crate::system::ascending;
use crate::system::consumer_step;
use crate::system::initial_state;
use crate::system::lemma_consumer_step_wf;
use crate::system::lemma_count_open_pos;
use crate::system::lemma_count_unfinished_pos;
use crate::system::lemma_origin_distributes;
use crate::system::lemma_producer_step_wf;
use crate::system::lemma_total_emitted_all;
use crate::system::origin_values;
use crate::system::producer_step;
use crate::system::state_wf;
use crate::system::total_emitted;

verus! {

/// One scheduling decision: which task runs next.
pub ghost enum Task {
    Producer { id: int },
    Consumer { id: int },
}

/// Run the scheduled task for one step.  A task that does not exist is a
/// stutter: scheduling it changes nothing.
pub open spec fn apply_task(s: StateModel, t: Task) -> StateModel {
    match t {
        Task::Producer { id } => if 0 <= id < s.producers.len() {
            producer_step(s, id)
        } else {
            s
        },
        Task::Consumer { id } => if 0 <= id < s.consumers_done.len() {
            consumer_step(s, id)
        } else {
            s
        },
    }
}

/// The state after running a whole schedule, task by task.
pub open spec fn run_schedule(s: StateModel, sched: Seq<Task>) -> StateModel
    decreases sched.len(),
{
    if sched.len() == 0 {
        s
    } else {
        run_schedule(apply_task(s, sched[0]), sched.drop_first())
    }
}

/// Every interleaving of producer and consumer steps preserves the system
/// invariant, and never changes the configuration: the channel capacity,
/// the task counts and the per-producer item count stay what they were.
pub proof fn theorem_schedule_preserves_wf(s: StateModel, sched: Seq<Task>)
    requires
        state_wf(s),
    ensures
        state_wf(run_schedule(s, sched)),
        run_schedule(s, sched).channel.capacity == s.channel.capacity,
        run_schedule(s, sched).producers.len() == s.producers.len(),
        run_schedule(s, sched).consumers_done.len() == s.consumers_done.len(),
        run_schedule(s, sched).elems == s.elems,
    decreases sched.len(),
{
    if sched.len() > 0 {
        let t = apply_task(s, sched[0]);
        match sched[0] {
            Task::Producer { id } => {
                if 0 <= id < s.producers.len() {
                    lemma_producer_step_wf(s, id);
                }
            },
            Task::Consumer { id } => {
                if 0 <= id < s.consumers_done.len() {
                    lemma_consumer_step_wf(s, id);
                }
            },
        }
        theorem_schedule_preserves_wf(t, sched.drop_first());
    }
}

/// The capacity invariant: starting from any well-formed state — the
/// initial state in particular — no interleaving of steps ever buffers
/// more items than the channel's configured capacity.
pub proof fn theorem_capacity_never_exceeded(s: StateModel, sched: Seq<Task>)
    requires
        state_wf(s),
    ensures
        run_schedule(s, sched).channel.buffer.len() <= s.channel.capacity,
{
    theorem_schedule_preserves_wf(s, sched);
}

/// No loss and no duplication: in any well-formed state in which the
/// barrier has reached zero and at least one consumer exists, the total
/// number of items consumed equals producers times items per producer.
pub proof fn theorem_total_consumed(s: StateModel)
    requires
        state_wf(s),
        s.barrier == 0,
        s.consumers_done.len() >= 1,
    ensures
        s.consumed.len() == s.producers.len() * s.elems,
{
    assert forall|j: int| 0 <= j < s.consumers_done.len() implies #[trigger] s.consumers_done[
        j
    ] by {
        if !s.consumers_done[j] {
            lemma_count_unfinished_pos(s.consumers_done, j);
        }
    }
    assert(s.consumers_done[0]);
    assert(s.channel.senders == 0 && s.channel.buffer.len() == 0);
    assert forall|i: int| 0 <= i < s.producers.len() implies (#[trigger] s.producers[
        i
    ]).emitted == s.elems by {
        if s.producers[i].sender_open {
            lemma_count_open_pos(s.producers, i);
        }
    }
    lemma_total_emitted_all(s.producers, s.elems);
}

/// Per-producer order: in any well-formed state, the subsequence of the
/// combined consumption stream that originates from producer `i` is exactly
/// an initial run `0, 1, 2, ...` of the values that producer emits — each
/// producer's items are consumed in their original, strictly increasing
/// order, with none skipped and none repeated.
pub proof fn theorem_per_producer_order(s: StateModel, i: int)
    requires
        state_wf(s),
        0 <= i < s.producers.len(),
    ensures
        origin_values(s.consumed, i).len() <= s.producers[i].emitted,
        forall|j: int|
            0 <= j < origin_values(s.consumed, i).len() ==> origin_values(s.consumed, i)[j] == j,
{
    lemma_origin_distributes(s.consumed, s.channel.buffer, i);
    assert(origin_values(s.consumed, i) + origin_values(s.channel.buffer, i) == ascending(
        s.producers[i].emitted,
    ));
    assert forall|j: int|
        0 <= j < origin_values(s.consumed, i).len() implies origin_values(s.consumed, i)[j]
        == j by {
        assert(origin_values(s.consumed, i)[j] == (origin_values(s.consumed, i) + origin_values(
            s.channel.buffer,
            i,
        ))[j]);
    }
}

/// The terminal state is terminal: once the barrier has reached zero (with
/// at least one consumer registered), no task can change anything — every
/// further scheduling of any producer or consumer is a stutter.
pub proof fn theorem_done_is_terminal(s: StateModel, t: Task)
    requires
        state_wf(s),
        s.barrier == 0,
        s.consumers_done.len() >= 1,
    ensures
        apply_task(s, t) == s,
{
    assert forall|j: int| 0 <= j < s.consumers_done.len() implies #[trigger] s.consumers_done[
        j
    ] by {
        if !s.consumers_done[j] {
            lemma_count_unfinished_pos(s.consumers_done, j);
        }
    }
    assert(s.consumers_done[0]);
    assert forall|i: int| 0 <= i < s.producers.len() implies !(#[trigger] s.producers[
        i
    ]).sender_open && s.producers[i].emitted == s.elems by {
        if s.producers[i].sender_open {
            lemma_count_open_pos(s.producers, i);
        }
    }
}

/// With no producers at all, the channel is closed from the start: the
/// orchestrator's own sender handle was the last one.  Every consumer
/// immediately observes end-of-stream, signals the barrier and finishes,
/// having consumed nothing.
pub proof fn theorem_no_producers_immediate_end_of_stream(c: nat, b: nat, e: nat, j: int)
    requires
        0 <= j < c,
    ensures
        channel_closed(initial_state(0, c, b, e).channel),
        recv_outcome(initial_state(0, c, b, e).channel) == RecvOutcome::EndOfStream,
        consumer_step(initial_state(0, c, b, e), j).consumers_done[j],
        consumer_step(initial_state(0, c, b, e), j).barrier == c - 1,
        consumer_step(initial_state(0, c, b, e), j).consumed.len() == 0,
{
    let s0 = initial_state(0, c, b, e);
    assert(!s0.consumers_done[j]);
    assert(s0.consumers_done.update(j, true)[j]);
}

} // verus!
