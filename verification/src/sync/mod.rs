//! Synchronization: backoff, retry policies and the decisions of the sync engine.
pub mod backoff;
pub mod engine;
pub mod retry;
