//! Sharded blockchain event sink: the write-path logic of a producer
//! that fans one ordered event stream into N ordered shard logs,
//! together with the read-side queries a consumer group uses to pick
//! a producer and translate a seek request into concrete shard
//! offsets.
//!
//! This crate holds the decision and bookkeeping logic, fully
//! verified: the shard worker state machine with its period-commit
//! discipline, the round-robin router with its slot-progress window,
//! offset recovery, the producer lock manager's compute side, and the
//! producer queries. The surrounding I/O — database session,
//! distributed lock service, mailboxes and timers — lives outside and
//! feeds plain values in.

pub mod lockmgr;
pub mod queries;
pub mod recovery;
pub mod router;
pub mod shard;
pub mod types;
