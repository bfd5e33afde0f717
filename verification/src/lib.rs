//! Task dispatch and lease recovery for a distributed ID-space crawler.
//!
//! A coordinator carves a growing range of integer IDs into contiguous
//! chunks and leases each chunk to a worker. This crate holds the rules of
//! that scheme: how wide a chunk is, which lease a worker is handed, what a
//! heartbeat and a submission change, and how a worker moves through its
//! phases.

pub mod batch;
pub mod dispatch;
pub mod invariants;
pub mod laws;
pub mod model;
pub mod probe;
pub mod protocol;
pub mod store;
pub mod worker;
