//! Why a Paxos phase did not go through.

use crate::paxos::roles::PxBallot;
use vstd::prelude::*;

verus! {

/// The phase in which a quorum was missed.
#[derive(Clone, Copy, Debug, PartialEq, Eq, Structural)]
pub enum PxPaxosPhase {
    Prepare,
    Accept,
}

/// An error of one phase of one proposal.
#[derive(Clone, Copy, Debug, PartialEq, Eq, Structural)]
pub enum PxPaxosError {
    /// A peer had promised a higher ballot when it was asked to prepare.
    PrepareRejected { promised: PxBallot },
    /// A peer had promised a higher ballot when it was asked to accept.
    AcceptRejected { promised: PxBallot },
    /// A peer is in a later term: this proposer is a stale leader.
    TermStale { current_term: u64 },
    /// A peer is at another membership epoch.
    MembershipEpochMismatch { responder_epoch: u64 },
    /// Too few voting members answered.
    QuorumUnavailable { phase: PxPaxosPhase },
    /// Another proposer's value was chosen at this slot.
    ForeignValueChosen { slot: u64 },
}

impl PxPaxosError {
    /// Short name of the error, used in results and logs.
    pub open spec fn spec_keyword(self) -> Seq<char> {
        match self {
            PxPaxosError::PrepareRejected { .. } => "prepare_rejected"@,
            PxPaxosError::AcceptRejected { .. } => "accept_rejected"@,
            PxPaxosError::TermStale { .. } => "term_stale"@,
            PxPaxosError::MembershipEpochMismatch { .. } => "membership_epoch_mismatch"@,
            PxPaxosError::QuorumUnavailable { .. } => "quorum_unavailable"@,
            PxPaxosError::ForeignValueChosen { .. } => "foreign_value_chosen"@,
        }
    }

    /// Short name of the error, used in results and logs.
    pub fn keyword(&self) -> (s: &'static str)
        ensures
            s@ == self.spec_keyword(),
    {
        match self {
            PxPaxosError::PrepareRejected { .. } => "prepare_rejected",
            PxPaxosError::AcceptRejected { .. } => "accept_rejected",
            PxPaxosError::TermStale { .. } => "term_stale",
            PxPaxosError::MembershipEpochMismatch { .. } => "membership_epoch_mismatch",
            PxPaxosError::QuorumUnavailable { .. } => "quorum_unavailable",
            PxPaxosError::ForeignValueChosen { .. } => "foreign_value_chosen",
        }
    }
}

} // verus!
