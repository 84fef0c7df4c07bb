//! The completion barrier: a countdown the orchestrator waits on.
//!
//! The counter starts at the number of consumer tasks; each consumer
//! signals once when it has observed end-of-stream, and the orchestrator's
//! wait returns exactly when the counter reaches zero.

use vstd::prelude::*;

verus! {

/// A countdown barrier over the consumers still running.
pub struct Barrier {
    remaining: u32,
}

impl View for Barrier {
    type V = nat;

    closed spec fn view(&self) -> nat {
        self.remaining as nat
    }
}

impl Barrier {
    /// A barrier that waits for `count` signals.
    pub fn new(count: u32) -> (b: Barrier)
        ensures
            b@ == count as nat,
    {
        Barrier { remaining: count }
    }

    /// One consumer signals completion.
    pub fn done(&mut self)
        requires
            old(self)@ >= 1,
        ensures
            final(self)@ == old(self)@ - 1,
    {
        self.remaining = self.remaining - 1;
    }

    /// Whether every registered consumer has signalled: the orchestrator's
    /// wait returns exactly then.
    pub fn is_complete(&self) -> (r: bool)
        ensures
            r <==> self@ == 0,
    {
        self.remaining == 0
    }
}

} // verus!
