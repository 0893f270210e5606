//! A synchronization engine for offline-first clients: an append-only log of
//! transaction batches, a materialized record store derived from it by
//! last-write-wins replay, and the incremental and full-snapshot read paths.

mod clock;
pub mod engine;
pub mod error;
pub mod laws;
pub mod replay;
pub mod store;
pub mod transaction;
pub mod tx_log;
