//! Ballots, log entries and the replies of the two Paxos phases.

use crate::common::payload::{buffer_bytes, buffer_clone};
use bytes::Bytes;
use vstd::prelude::*;

verus! {

/// Position in a group's replicated log.
pub type SlotIndex = u64;

/// A ballot number: rounds first, ties broken by the proposer's id.
#[derive(Clone, Copy, Debug, PartialEq, Eq, Structural)]
pub struct PxBallot {
    pub round: u64,
    pub leader_id: u64,
}

impl PxBallot {
    pub fn new(round: u64, leader_id: u64) -> (b: Self)
        ensures
            b == (PxBallot { round, leader_id }),
    {
        PxBallot { round, leader_id }
    }

    /// `self` is a strictly higher ballot than `other`.
    pub open spec fn above(self, other: PxBallot) -> bool {
        self.round > other.round || (self.round == other.round && self.leader_id > other.leader_id)
    }

    /// Whether `self` is a strictly higher ballot than `other`.
    pub fn is_above(&self, other: &PxBallot) -> (r: bool)
        ensures
            r == self.above(*other),
    {
        self.round > other.round || (self.round == other.round && self.leader_id > other.leader_id)
    }
}

/// What a log entry says, with its payload as plain bytes.
pub struct LogEntryView {
    pub slot: u64,
    pub ballot: PxBallot,
    pub term: u64,
    pub payload: Seq<u8>,
}

/// A value proposed, accepted or chosen at one slot.
#[derive(Debug)]
pub struct PxLogEntry {
    pub slot: u64,
    pub ballot: PxBallot,
    pub term: u64,
    pub payload: Bytes,
}

impl View for PxLogEntry {
    type V = LogEntryView;

    open spec fn view(&self) -> LogEntryView {
        LogEntryView {
            slot: self.slot,
            ballot: self.ballot,
            term: self.term,
            payload: buffer_bytes(self.payload),
        }
    }
}

impl Clone for PxLogEntry {
    fn clone(&self) -> (r: Self)
        ensures
            r@ == self@,
    {
        PxLogEntry {
            slot: self.slot,
            ballot: self.ballot,
            term: self.term,
            payload: buffer_clone(&self.payload),
        }
    }
}

/// What an optional entry says.
pub open spec fn entry_opt_view(e: Option<PxLogEntry>) -> Option<LogEntryView> {
    match e {
        Some(e) => Some(e@),
        None => None,
    }
}

/// Identifies one client operation across retries.
#[derive(Clone, Copy, Debug, PartialEq, Eq, Structural)]
pub struct DedupTag {
    pub client_id: u64,
    pub seq: u64,
}

/// Reply to a phase-1 request.
#[derive(Debug)]
pub enum PxPrepareReply {
    /// The ballot is promised; `accepted` is what was accepted before, if anything.
    Promised { slot: u64, accepted: Option<PxLogEntry> },
    /// A higher ballot has been promised.
    Rejected { slot: u64, current_promised: PxBallot },
    /// The responder is in a later term.
    TermStale { slot: u64, new_term: u64 },
    /// The responder is at another membership epoch.
    EpochMismatch { responder_epoch: u64 },
}

/// Reply to a phase-2 request.
#[derive(Clone, Copy, Debug, PartialEq, Eq, Structural)]
pub enum PxAcceptReply {
    /// The entry was accepted.
    Accepted { slot: u64, ballot: PxBallot },
    /// A higher ballot has been promised.
    Rejected { slot: u64, current_promised: PxBallot },
    /// The responder is in a later term.
    TermStale { slot: u64, new_term: u64 },
    /// The responder is at another membership epoch.
    EpochMismatch { responder_epoch: u64 },
}

/// Ballots are totally ordered: of two different ballots exactly one is above
/// the other, and being above is transitive.
pub proof fn ballots_are_totally_ordered(a: PxBallot, b: PxBallot, c: PxBallot)
    ensures
        !a.above(a),
        a != b ==> (a.above(b) <==> !b.above(a)),
        a.above(b) && b.above(c) ==> a.above(c),
{
}

/// A ballot of a later round is above one of an earlier round, whoever leads
/// them; within a round the higher leader id is above.
pub proof fn later_round_is_above(a: PxBallot, b: PxBallot)
    ensures
        a.round > b.round ==> a.above(b),
        a.round == b.round ==> (a.above(b) <==> a.leader_id > b.leader_id),
{
}

} // verus!
