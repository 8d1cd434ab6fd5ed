//! What all replicas have in common, and the messages they exchange.

use crate::paxos::PxNodeId;
use vstd::prelude::*;

verus! {

/// Metadata of a replica.
pub trait Replica {
    spec fn spec_id(&self) -> u64;

    spec fn spec_endpoint(&self) -> Option<Seq<char>>;

    spec fn spec_voting(&self) -> bool;

    /// Node id of this replica.
    fn id(&self) -> (r: u64)
        ensures
            r == self.spec_id(),
    ;

    /// Where this replica is reached over the network, if it is.
    fn endpoint(&self) -> (r: Option<&str>)
        ensures
            match (r, self.spec_endpoint()) {
                (Some(a), Some(b)) => a@ == b,
                (None, None) => true,
                _ => false,
            },
    ;

    /// Whether this replica counts toward quorums.
    fn voting(&self) -> (r: bool)
        ensures
            r == self.spec_voting(),
    ;
}

/// A peer could not be asked, or its answer could not be used.
#[derive(Debug)]
pub enum PxReplicaError {
    Internal(String),
}

/// A request for a vote, or for a pre-vote.
#[derive(Clone, Copy, Debug, PartialEq, Eq, Structural)]
pub struct VoteRequestPayload {
    pub term: u64,
    pub candidate_id: PxNodeId,
    pub last_chosen_slot: u64,
    pub last_chosen_term: u64,
}

/// The answer to a request for a vote.
#[derive(Clone, Copy, Debug, PartialEq, Eq, Structural)]
pub struct VoteReply {
    pub term: u64,
    pub granted: bool,
    pub contiguous_chosen: u64,
    pub last_chosen_term: u64,
    pub highest_seen_slot: u64,
}

/// A leader's heartbeat.
#[derive(Clone, Copy, Debug, PartialEq, Eq, Structural)]
pub struct HeartbeatRequestPayload {
    pub term: u64,
    pub leader_id: PxNodeId,
    pub prev_log_slot: u64,
    pub prev_log_term: u64,
    pub committed_safe_slot: u64,
    pub lease_grant_until_ms_mono: u64,
    pub t_send_ms_mono: u64,
}

/// The answer to a heartbeat.
#[derive(Clone, Copy, Debug, PartialEq, Eq, Structural)]
pub struct HeartbeatReply {
    pub term: u64,
    pub success: bool,
    pub contiguous_chosen: u64,
    pub last_chosen_term: u64,
    pub contiguous_applied: u64,
    pub highest_seen_slot: u64,
    pub durable_snapshot_slot: u64,
}

/// An operator's request that a leader give up leadership.
#[derive(Debug)]
pub struct StepDownRequestPayload {
    pub term: u64,
    pub target_leader_id: PxNodeId,
    pub reason: String,
}

/// The answer to a step-down request.
#[derive(Clone, Copy, Debug, PartialEq, Eq, Structural)]
pub struct StepDownReply {
    pub accepted: bool,
    pub current_term: u64,
    pub current_leader_id: PxNodeId,
}

} // verus!
