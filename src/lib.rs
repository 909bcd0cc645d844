//! Job orchestration core of a beacon-chain light-client relay.
//!
//! The library holds the decisions of the relay: the job status taxonomy and its
//! lawful transitions, the persistent job store, the head-driven control loop, the
//! per-job state machine, the broadcast ordering, and the batch Merkle commitment.
//! Outside work (beacon reads, trace generation, the prover, settlement) is done by
//! the caller, which hands results back as plain values.

pub mod constants;
pub mod error;
pub mod status;
pub mod job;
pub mod store;
pub mod control;
pub mod dispatcher;
pub mod probe;
pub mod broadcast;
pub mod merkle;
pub mod hex;
pub mod assembly;
pub mod events;
pub mod validators;
