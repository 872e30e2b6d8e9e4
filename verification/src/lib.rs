//! A single-node durable key-value store core: an append-only log codec
//! with crash-truncation detection, a versioned in-memory index with
//! tombstone semantics, and log-driven recovery of the index.

pub mod bootstrap;
pub mod codec;
pub mod key_value;
pub mod storage;
pub mod versioned;
