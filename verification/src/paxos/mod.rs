//! Multi-Paxos vocabulary: ballots, log entries, phase replies and errors,
//! with the in-memory acceptor and learner.

pub mod acceptor;
pub mod error;
pub mod learner;
pub mod roles;

use vstd::prelude::*;

verus! {

/// Identifier of a consensus group.
pub type PxGroupId = u64;

/// Identifier of a replica within its group.
pub type PxNodeId = u64;

/// Leadership term.
pub type PxTerm = u64;

} // verus!
