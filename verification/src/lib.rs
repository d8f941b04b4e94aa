//! A concurrency-safe in-memory data service: a key-value store, a pub/sub
//! channel registry with bounded per-subscriber delivery buffers, a
//! multi-channel subscribe race, and a request-filtering middleware.
//!
//! The state layer here is fully verified and purely sequential; a runtime
//! wraps it in a mutual-exclusion lock and drives the subscribe wait loop,
//! releasing the lock between polls so that no caller ever blocks the others
//! while waiting for a message.

pub mod api;
pub mod assoc;
pub mod filter;
pub mod laws;
pub mod registry;
pub mod service;
pub mod store;
pub mod topic;
