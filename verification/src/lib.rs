//! Coordinator for concurrent appends into a bounded pool of shared
//! append-only blob files.
//!
//! The engine hands out byte ranges inside a fixed set of file slots, guards
//! each slot with a time-bounded lease, tracks which logical keys are
//! committed, pending or unregistered, and queues allocation requests in
//! arrival order when every slot is busy. It never touches the blob bytes
//! itself: callers copy data out-of-band at the offsets the engine reserves.

pub mod blob;
pub mod decfmt;
pub mod errors;
pub mod http;
pub mod laws;
pub mod semver;
pub mod worker;
