//! A verified model of a bounded-buffer producer/consumer pipeline.
//!
//! Producers push sequential integers into a fixed-capacity FIFO channel,
//! consumers drain them, the channel closes when the last sender handle is
//! released, and a countdown barrier lets the orchestrator wait until every
//! consumer has observed end-of-stream.  The synchronization discipline is
//! modelled as a state machine and verified: no item is lost or duplicated,
//! each producer's items are consumed in their original order, the buffer
//! never exceeds its capacity, and end-of-stream is permanent.

pub mod barrier;
pub mod channel;
pub mod config;
pub mod laws;
pub mod system;
