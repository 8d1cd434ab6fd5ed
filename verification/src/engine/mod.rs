//! The storage engine: the materialized key-value state that consensus output
//! is applied to and reads are served from.
//!
//! The engine knows nothing of Paxos, terms or leaders. Each key maps to the
//! slot that last wrote it and a value or a tombstone. An operation is skipped
//! when its slot is not above the slot that the key already has, so replays
//! and out-of-order applies come out right: the highest slot wins.

pub mod key_order;
pub mod mem_engine;
pub mod op;
pub mod store_engine;
