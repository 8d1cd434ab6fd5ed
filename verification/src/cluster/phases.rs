//! The two Paxos phases, seen as a count of the members' replies.
//!
//! A phase sends one request to the local replica and one to every remote
//! member, and decides from all the replies at once. Here a reply is paired
//! with the voting right of the member that gave it; the decision is a function
//! of that sequence, the local replica first and the remote members in order.

use crate::common::counting::lemma_positions_counted;
use crate::common::payload::buffer_eq;
use crate::paxos::error::{PxPaxosError, PxPaxosPhase};
use crate::paxos::roles::{LogEntryView, PxAcceptReply, PxBallot, PxLogEntry, PxPrepareReply};
use vstd::prelude::*;

verus! {

/// What a phase-1 reply says.
pub enum PrepareReplyView {
    Promised { slot: u64, accepted: Option<LogEntryView> },
    Rejected { slot: u64, current_promised: PxBallot },
    TermStale { slot: u64, new_term: u64 },
    EpochMismatch { responder_epoch: u64 },
}

impl View for PxPrepareReply {
    type V = PrepareReplyView;

    open spec fn view(&self) -> PrepareReplyView {
        match self {
            PxPrepareReply::Promised { slot, accepted: Some(e) } => PrepareReplyView::Promised {
                slot: *slot,
                accepted: Some(e@),
            },
            PxPrepareReply::Promised { slot, accepted: None } => PrepareReplyView::Promised {
                slot: *slot,
                accepted: None,
            },
            PxPrepareReply::Rejected { slot, current_promised } => PrepareReplyView::Rejected {
                slot: *slot,
                current_promised: *current_promised,
            },
            PxPrepareReply::TermStale { slot, new_term } => PrepareReplyView::TermStale {
                slot: *slot,
                new_term: *new_term,
            },
            PxPrepareReply::EpochMismatch { responder_epoch } => PrepareReplyView::EpochMismatch {
                responder_epoch: *responder_epoch,
            },
        }
    }
}

/// A member's phase-1 reply with its voting right. The reply is `None` when
/// the member could not be reached.
pub struct PrepareCast {
    pub voting: bool,
    pub reply: Option<PrepareReplyView>,
}

impl PrepareCast {
    /// The entry that the member had accepted before, if its promise reports one.
    pub open spec fn accepted(self) -> Option<LogEntryView> {
        match self.reply {
            Some(PrepareReplyView::Promised { accepted, .. }) => accepted,
            _ => None,
        }
    }
}

/// A member's phase-2 reply with its voting right. The reply is `None` when
/// the member could not be reached.
pub struct AcceptCast {
    pub voting: bool,
    pub reply: Option<PxAcceptReply>,
}

/// The greater of two optional numbers; an absent one does not count.
pub open spec fn max_opt(a: Option<u64>, b: Option<u64>) -> Option<u64> {
    match (a, b) {
        (Some(x), Some(y)) => Some(if x >= y { x } else { y }),
        (Some(x), None) => Some(x),
        (None, y) => y,
    }
}

/// The greater of two optional numbers; an absent one does not count.
fn raise_max(a: Option<u64>, candidate: u64) -> (r: Option<u64>)
    ensures
        r == max_opt(a, Some(candidate)),
{
    match a {
        Some(x) => if x >= candidate {
            Some(x)
        } else {
            Some(candidate)
        },
        None => Some(candidate),
    }
}

// ── Phase 1 ──────────────────────────────────────────────────────
/// Number of voting members that promised.
pub open spec fn promise_count(s: Seq<PrepareCast>) -> nat
    decreases s.len(),
{
    if s.len() == 0 {
        0
    } else {
        promise_count(s.drop_last()) + if s.last().voting && s.last().reply matches Some(
            PrepareReplyView::Promised { .. },
        ) {
            1nat
        } else {
            0
        }
    }
}

/// Highest round among the ballots named in rejections.
pub open spec fn prepare_rejected_round(s: Seq<PrepareCast>) -> Option<u64>
    decreases s.len(),
{
    if s.len() == 0 {
        None
    } else {
        max_opt(
            prepare_rejected_round(s.drop_last()),
            match s.last().reply {
                Some(PrepareReplyView::Rejected { current_promised, .. }) => Some(
                    current_promised.round,
                ),
                _ => None,
            },
        )
    }
}

/// Highest term among the replies of members in a later term.
pub open spec fn prepare_seen_term(s: Seq<PrepareCast>) -> Option<u64>
    decreases s.len(),
{
    if s.len() == 0 {
        None
    } else {
        max_opt(
            prepare_seen_term(s.drop_last()),
            match s.last().reply {
                Some(PrepareReplyView::TermStale { new_term, .. }) => Some(new_term),
                _ => None,
            },
        )
    }
}

/// Epoch of the last member that answered from another membership epoch.
pub open spec fn prepare_epoch_mismatch(s: Seq<PrepareCast>) -> Option<u64>
    decreases s.len(),
{
    if s.len() == 0 {
        None
    } else {
        match s.last().reply {
            Some(PrepareReplyView::EpochMismatch { responder_epoch }) => Some(responder_epoch),
            _ => prepare_epoch_mismatch(s.drop_last()),
        }
    }
}

/// The accepted entry with the highest ballot that any promise reports, the
/// first one among equals. Promises of members without a vote count too.
pub open spec fn adopted_entry(s: Seq<PrepareCast>) -> Option<LogEntryView>
    decreases s.len(),
{
    if s.len() == 0 {
        None
    } else {
        let before = adopted_entry(s.drop_last());
        match (before, s.last().accepted()) {
            (Some(b), Some(c)) => if c.ballot.above(b.ballot) {
                Some(c)
            } else {
                before
            },
            (None, c) => c,
            (b, None) => b,
        }
    }
}

/// Outcome of one prepare phase.
#[derive(Debug)]
pub enum PrepareAttempt {
    /// A quorum promised: the accept phase may propose `entry`.
    Proceed { entry: PxLogEntry, foreign_value: bool },
    /// A higher ballot is around: try again above `next_min_round`.
    Retry { next_min_round: u64, error: PxPaxosError },
    /// The phase failed.
    Fail { error: PxPaxosError },
}

/// What the outcome of a prepare phase says.
pub enum PrepareAttemptView {
    Proceed { entry: LogEntryView, foreign_value: bool },
    Retry { next_min_round: u64, error: PxPaxosError },
    Fail { error: PxPaxosError },
}

impl View for PrepareAttempt {
    type V = PrepareAttemptView;

    open spec fn view(&self) -> PrepareAttemptView {
        match self {
            PrepareAttempt::Proceed { entry, foreign_value } => PrepareAttemptView::Proceed {
                entry: entry@,
                foreign_value: *foreign_value,
            },
            PrepareAttempt::Retry { next_min_round, error } => PrepareAttemptView::Retry {
                next_min_round: *next_min_round,
                error: *error,
            },
            PrepareAttempt::Fail { error } => PrepareAttemptView::Fail { error: *error },
        }
    }
}

/// What a prepare phase for `entry` comes to when the members answer `s`.
///
/// A later term wins over everything. Short of a quorum the phase is retried
/// above the highest rejected round, fails on a foreign membership epoch, or
/// fails for want of a quorum, in this order. With a quorum it proceeds with
/// the payload of the adopted entry, or with its own where none was reported.
pub open spec fn prepare_outcome(
    entry: LogEntryView,
    s: Seq<PrepareCast>,
    quorum: nat,
) -> PrepareAttemptView {
    match prepare_seen_term(s) {
        Some(t) => PrepareAttemptView::Fail { error: PxPaxosError::TermStale { current_term: t } },
        None => if promise_count(s) < quorum {
            match (prepare_rejected_round(s), prepare_epoch_mismatch(s)) {
                (Some(round), _) => PrepareAttemptView::Retry {
                    next_min_round: round,
                    error: PxPaxosError::PrepareRejected {
                        promised: PxBallot { round, leader_id: 0 },
                    },
                },
                (None, Some(responder_epoch)) => PrepareAttemptView::Fail {
                    error: PxPaxosError::MembershipEpochMismatch { responder_epoch },
                },
                (None, None) => PrepareAttemptView::Fail {
                    error: PxPaxosError::QuorumUnavailable { phase: PxPaxosPhase::Prepare },
                },
            }
        } else {
            match adopted_entry(s) {
                Some(prev) => PrepareAttemptView::Proceed {
                    entry: LogEntryView { payload: prev.payload, ..entry },
                    foreign_value: prev.payload != entry.payload,
                },
                None => PrepareAttemptView::Proceed { entry, foreign_value: false },
            }
        },
    }
}

/// Running count of phase-1 replies.
pub(crate) struct PrepareTally {
    pub promised: usize,
    pub highest_rejected_round: Option<u64>,
    pub highest_seen_term: Option<u64>,
    pub epoch_mismatch: Option<u64>,
    pub adopted: Option<PxLogEntry>,
}

impl PrepareTally {
    /// The tally counts exactly the replies `s`.
    pub(crate) closed spec fn counts(&self, s: Seq<PrepareCast>) -> bool {
        &&& self.promised == promise_count(s)
        &&& self.highest_rejected_round == prepare_rejected_round(s)
        &&& self.highest_seen_term == prepare_seen_term(s)
        &&& self.epoch_mismatch == prepare_epoch_mismatch(s)
        &&& match (self.adopted, adopted_entry(s)) {
            (Some(e), Some(v)) => e@ == v,
            (None, None) => true,
            _ => false,
        }
    }

    fn new() -> (t: Self)
        ensures
            t.counts(Seq::empty()),
    {
        PrepareTally {
            promised: 0,
            highest_rejected_round: None,
            highest_seen_term: None,
            epoch_mismatch: None,
            adopted: None,
        }
    }

    /// Adopt `candidate` if its ballot is above that of the entry adopted so far.
    fn consider_accepted(adopted: &mut Option<PxLogEntry>, candidate: &PxLogEntry)
        ensures
            match *old(adopted) {
                Some(current) if !candidate.ballot.above(current.ballot) => *final(adopted) == *old(
                    adopted,
                ),
                _ => *final(adopted) matches Some(e) && e@ == candidate@,
            },
    {
        let should_replace = match adopted {
            Some(current) => candidate.ballot.is_above(&current.ballot),
            None => true,
        };
        if should_replace {
            *adopted = Some(candidate.clone());
        }
    }

    fn record(&mut self, voting: bool, reply: &Option<PxPrepareReply>, Ghost(s): Ghost<Seq<PrepareCast>>)
        requires
            old(self).counts(s),
            old(self).promised < usize::MAX,
        ensures
            final(self).counts(s.push(prepare_cast(voting, *reply))),
            final(self).promised <= old(self).promised + 1,
    {
        let ghost next = s.push(prepare_cast(voting, *reply));
        proof {
            assert(next.drop_last() =~= s);
        }
        match reply {
            Some(PxPrepareReply::Promised { accepted, .. }) => {
                if voting {
                    self.promised = self.promised + 1;
                }
                if let Some(prev) = accepted {
                    Self::consider_accepted(&mut self.adopted, prev);
                }
            },
            Some(PxPrepareReply::Rejected { current_promised, .. }) => {
                self.highest_rejected_round = raise_max(
                    self.highest_rejected_round,
                    current_promised.round,
                );
            },
            Some(PxPrepareReply::TermStale { new_term, .. }) => {
                self.highest_seen_term = raise_max(self.highest_seen_term, *new_term);
            },
            Some(PxPrepareReply::EpochMismatch { responder_epoch }) => {
                self.epoch_mismatch = Some(*responder_epoch);
            },
            None => {},
        }
    }
}

/// A reply as the count sees it.
pub open spec fn prepare_cast(voting: bool, reply: Option<PxPrepareReply>) -> PrepareCast {
    PrepareCast {
        voting,
        reply: match reply {
            Some(r) => Some(r@),
            None => None,
        },
    }
}

/// All replies of a phase: the local replica, then the remote members.
pub open spec fn prepare_casts(
    local_voting: bool,
    local: Option<PxPrepareReply>,
    voting: Seq<bool>,
    replies: Seq<Option<PxPrepareReply>>,
) -> Seq<PrepareCast> {
    seq![prepare_cast(local_voting, local)] + Seq::new(
        replies.len(),
        |i: int| prepare_cast(voting[i], replies[i]),
    )
}

/// Decide a prepare phase for `entry` from the local reply and the replies of
/// the remote members, whose voting rights are `voting`.
pub fn decide_prepare(
    entry: PxLogEntry,
    quorum: usize,
    local_voting: bool,
    local: &Option<PxPrepareReply>,
    voting: &Vec<bool>,
    replies: &Vec<Option<PxPrepareReply>>,
) -> (r: PrepareAttempt)
    requires
        voting.len() == replies.len(),
        replies.len() < usize::MAX,
    ensures
        r@ == prepare_outcome(
            entry@,
            prepare_casts(local_voting, *local, voting@, replies@),
            quorum as nat,
        ),
{
    let ghost all = prepare_casts(local_voting, *local, voting@, replies@);
    let mut tally = PrepareTally::new();
    tally.record(local_voting, local, Ghost(Seq::empty()));
    proof {
        assert(Seq::<PrepareCast>::empty().push(prepare_cast(local_voting, *local)) =~= all.take(1));
    }
    let mut i: usize = 0;
    while i < replies.len()
        invariant
            i <= replies.len(),
            voting.len() == replies.len(),
            replies.len() < usize::MAX,
            all == prepare_casts(local_voting, *local, voting@, replies@),
            tally.counts(all.take(i + 1)),
            tally.promised <= i + 1,
        decreases replies.len() - i,
    {
        tally.record(voting[i], &replies[i], Ghost(all.take(i + 1)));
        proof {
            assert(all.take(i + 1).push(prepare_cast(voting[i as int], replies[i as int]))
                =~= all.take(i + 2));
        }
        i = i + 1;
    }
    proof {
        assert(all.take(i + 1) =~= all);
    }
    if let Some(new_term) = tally.highest_seen_term {
        return PrepareAttempt::Fail { error: PxPaxosError::TermStale { current_term: new_term } };
    }
    if tally.promised < quorum {
        if let Some(round) = tally.highest_rejected_round {
            return PrepareAttempt::Retry {
                next_min_round: round,
                error: PxPaxosError::PrepareRejected { promised: PxBallot::new(round, 0) },
            };
        }
        if let Some(responder_epoch) = tally.epoch_mismatch {
            return PrepareAttempt::Fail {
                error: PxPaxosError::MembershipEpochMismatch { responder_epoch },
            };
        }
        return PrepareAttempt::Fail {
            error: PxPaxosError::QuorumUnavailable { phase: PxPaxosPhase::Prepare },
        };
    }
    match tally.adopted {
        Some(prev) => {
            let foreign_value = !buffer_eq(&prev.payload, &entry.payload);
            PrepareAttempt::Proceed {
                entry: PxLogEntry {
                    slot: entry.slot,
                    ballot: entry.ballot,
                    term: entry.term,
                    payload: prev.payload,
                },
                foreign_value,
            }
        },
        None => PrepareAttempt::Proceed { entry, foreign_value: false },
    }
}

// ── Phase 2 ──────────────────────────────────────────────────────
/// Number of voting members that accepted.
pub open spec fn accept_count(s: Seq<AcceptCast>) -> nat
    decreases s.len(),
{
    if s.len() == 0 {
        0
    } else {
        accept_count(s.drop_last()) + if s.last().voting && (s.last().reply matches Some(
            PxAcceptReply::Accepted { .. },
        )) {
            1nat
        } else {
            0
        }
    }
}

/// Highest round among the ballots named in rejections.
pub open spec fn accept_rejected_round(s: Seq<AcceptCast>) -> Option<u64>
    decreases s.len(),
{
    if s.len() == 0 {
        None
    } else {
        max_opt(
            accept_rejected_round(s.drop_last()),
            match s.last().reply {
                Some(PxAcceptReply::Rejected { current_promised, .. }) => Some(current_promised.round),
                _ => None,
            },
        )
    }
}

/// Highest term among the replies of members in a later term.
pub open spec fn accept_seen_term(s: Seq<AcceptCast>) -> Option<u64>
    decreases s.len(),
{
    if s.len() == 0 {
        None
    } else {
        max_opt(
            accept_seen_term(s.drop_last()),
            match s.last().reply {
                Some(PxAcceptReply::TermStale { new_term, .. }) => Some(new_term),
                _ => None,
            },
        )
    }
}

/// Epoch of the last member that answered from another membership epoch.
pub open spec fn accept_epoch_mismatch(s: Seq<AcceptCast>) -> Option<u64>
    decreases s.len(),
{
    if s.len() == 0 {
        None
    } else {
        match s.last().reply {
            Some(PxAcceptReply::EpochMismatch { responder_epoch }) => Some(responder_epoch),
            _ => accept_epoch_mismatch(s.drop_last()),
        }
    }
}

/// Outcome of one accept phase.
#[derive(Clone, Copy, Debug, PartialEq, Eq, Structural)]
pub enum AcceptAttempt {
    /// A quorum accepted: the entry is chosen.
    Chosen,
    /// A higher ballot is around: prepare again from `next_min_round` on.
    Retry { next_min_round: u64, error: PxPaxosError },
    /// The phase failed.
    Fail { error: PxPaxosError },
}

/// What an accept phase comes to when the members answer `s`.
///
/// A quorum of acceptances wins over everything. Short of it a later term
/// fails the phase, a rejection has it retried above the rejected round, a
/// foreign membership epoch fails it, and so does the mere want of a quorum,
/// in this order.
pub open spec fn accept_outcome(s: Seq<AcceptCast>, quorum: nat) -> AcceptAttempt {
    if accept_count(s) >= quorum {
        AcceptAttempt::Chosen
    } else {
        match (accept_seen_term(s), accept_rejected_round(s), accept_epoch_mismatch(s)) {
            (Some(t), _, _) => AcceptAttempt::Fail {
                error: PxPaxosError::TermStale { current_term: t },
            },
            (None, Some(round), _) => AcceptAttempt::Retry {
                next_min_round: (round + 1) as u64,
                error: PxPaxosError::AcceptRejected {
                    promised: PxBallot { round, leader_id: 0 },
                },
            },
            (None, None, Some(responder_epoch)) => AcceptAttempt::Fail {
                error: PxPaxosError::MembershipEpochMismatch { responder_epoch },
            },
            (None, None, None) => AcceptAttempt::Fail {
                error: PxPaxosError::QuorumUnavailable { phase: PxPaxosPhase::Accept },
            },
        }
    }
}

/// Every rejection names a ballot that still has a successor round.
pub open spec fn rounds_have_successor(s: Seq<AcceptCast>) -> bool {
    forall|i: int|
        0 <= i < s.len() ==> (#[trigger] s[i].reply matches Some(
            PxAcceptReply::Rejected { current_promised, .. },
        ) ==> current_promised.round < u64::MAX)
}

proof fn lemma_rejected_round_has_successor(s: Seq<AcceptCast>)
    requires
        rounds_have_successor(s),
    ensures
        accept_rejected_round(s) matches Some(r) ==> r < u64::MAX,
    decreases s.len(),
{
    if s.len() > 0 {
        assert forall|i: int| 0 <= i < s.drop_last().len() implies (
        #[trigger] s.drop_last()[i].reply matches Some(
            PxAcceptReply::Rejected { current_promised, .. },
        ) ==> current_promised.round < u64::MAX) by {
            assert(s[i].reply == s.drop_last()[i].reply);
        }
        lemma_rejected_round_has_successor(s.drop_last());
        assert(s[s.len() - 1].reply == s.last().reply);
    }
}

/// Running count of phase-2 replies.
struct AcceptTally {
    accepted: usize,
    highest_rejected_round: Option<u64>,
    highest_seen_term: Option<u64>,
    epoch_mismatch: Option<u64>,
}

impl AcceptTally {
    /// The tally counts exactly the replies `s`.
    spec fn counts(&self, s: Seq<AcceptCast>) -> bool {
        &&& self.accepted == accept_count(s)
        &&& self.highest_rejected_round == accept_rejected_round(s)
        &&& self.highest_seen_term == accept_seen_term(s)
        &&& self.epoch_mismatch == accept_epoch_mismatch(s)
    }

    fn record(&mut self, voting: bool, reply: &Option<PxAcceptReply>, Ghost(s): Ghost<Seq<AcceptCast>>)
        requires
            old(self).counts(s),
            old(self).accepted < usize::MAX,
        ensures
            final(self).counts(s.push(AcceptCast { voting, reply: *reply })),
            final(self).accepted <= old(self).accepted + 1,
    {
        proof {
            assert(s.push(AcceptCast { voting, reply: *reply }).drop_last() =~= s);
        }
        match reply {
            Some(PxAcceptReply::Accepted { .. }) => {
                if voting {
                    self.accepted = self.accepted + 1;
                }
            },
            Some(PxAcceptReply::Rejected { current_promised, .. }) => {
                self.highest_rejected_round = raise_max(
                    self.highest_rejected_round,
                    current_promised.round,
                );
            },
            Some(PxAcceptReply::TermStale { new_term, .. }) => {
                self.highest_seen_term = raise_max(self.highest_seen_term, *new_term);
            },
            Some(PxAcceptReply::EpochMismatch { responder_epoch }) => {
                self.epoch_mismatch = Some(*responder_epoch);
            },
            None => {},
        }
    }
}

/// All replies of a phase: the local replica, then the remote members.
pub open spec fn accept_casts(
    local_voting: bool,
    local: Option<PxAcceptReply>,
    voting: Seq<bool>,
    replies: Seq<Option<PxAcceptReply>>,
) -> Seq<AcceptCast> {
    seq![AcceptCast { voting: local_voting, reply: local }] + Seq::new(
        replies.len(),
        |i: int| AcceptCast { voting: voting[i], reply: replies[i] },
    )
}

/// What an accept phase decides, and whether the local log write was left to
/// the background.
#[derive(Clone, Copy, Debug, PartialEq, Eq, Structural)]
pub struct AcceptDecision {
    pub attempt: AcceptAttempt,
    /// The entry is chosen and accepted locally, but its local log record is
    /// still to be written.
    pub persist_deferred: bool,
}

/// Decide an accept phase from the local reply and the replies of the remote
/// members, whose voting rights are `voting`.
///
/// With `early_ack` the local replica answered before its log record was
/// durable. If the entry is then chosen, that write is still owed.
pub fn decide_accept(
    quorum: usize,
    early_ack: bool,
    local_voting: bool,
    local: &Option<PxAcceptReply>,
    voting: &Vec<bool>,
    replies: &Vec<Option<PxAcceptReply>>,
) -> (r: AcceptDecision)
    requires
        voting.len() == replies.len(),
        replies.len() < usize::MAX,
        rounds_have_successor(accept_casts(local_voting, *local, voting@, replies@)),
    ensures
        r.attempt == accept_outcome(
            accept_casts(local_voting, *local, voting@, replies@),
            quorum as nat,
        ),
        r.persist_deferred == (early_ack && (*local matches Some(PxAcceptReply::Accepted { .. }))
            && r.attempt is Chosen),
{
    let ghost all = accept_casts(local_voting, *local, voting@, replies@);
    let mut tally = AcceptTally {
        accepted: 0,
        highest_rejected_round: None,
        highest_seen_term: None,
        epoch_mismatch: None,
    };
    tally.record(local_voting, local, Ghost(Seq::empty()));
    proof {
        assert(Seq::<AcceptCast>::empty().push(AcceptCast { voting: local_voting, reply: *local })
            =~= all.take(1));
    }
    let mut i: usize = 0;
    while i < replies.len()
        invariant
            i <= replies.len(),
            voting.len() == replies.len(),
            replies.len() < usize::MAX,
            all == accept_casts(local_voting, *local, voting@, replies@),
            tally.counts(all.take(i + 1)),
            tally.accepted <= i + 1,
        decreases replies.len() - i,
    {
        tally.record(voting[i], &replies[i], Ghost(all.take(i + 1)));
        proof {
            assert(all.take(i + 1).push(
                AcceptCast { voting: voting[i as int], reply: replies[i as int] },
            ) =~= all.take(i + 2));
        }
        i = i + 1;
    }
    proof {
        assert(all.take(i + 1) =~= all);
        lemma_rejected_round_has_successor(all);
    }
    let local_accepted = match local {
        Some(PxAcceptReply::Accepted { .. }) => true,
        _ => false,
    };
    if tally.accepted >= quorum {
        return AcceptDecision {
            attempt: AcceptAttempt::Chosen,
            persist_deferred: early_ack && local_accepted,
        };
    }
    let attempt = if let Some(new_term) = tally.highest_seen_term {
        AcceptAttempt::Fail { error: PxPaxosError::TermStale { current_term: new_term } }
    } else if let Some(round) = tally.highest_rejected_round {
        AcceptAttempt::Retry {
            next_min_round: round + 1,
            error: PxPaxosError::AcceptRejected { promised: PxBallot::new(round, 0) },
        }
    } else if let Some(responder_epoch) = tally.epoch_mismatch {
        AcceptAttempt::Fail { error: PxPaxosError::MembershipEpochMismatch { responder_epoch } }
    } else {
        AcceptAttempt::Fail {
            error: PxPaxosError::QuorumUnavailable { phase: PxPaxosPhase::Accept },
        }
    };
    AcceptDecision { attempt, persist_deferred: false }
}

// ── Laws of the phases ───────────────────────────────────────────
/// The adopted entry is one that some promise reports, and no promise reports
/// an entry with a higher ballot. It is absent only if no promise reports any.
pub proof fn adopted_entry_has_highest_ballot(s: Seq<PrepareCast>)
    ensures
        match adopted_entry(s) {
            Some(e) => {
                &&& exists|i: int| 0 <= i < s.len() && #[trigger] s[i].accepted() == Some(e)
                &&& forall|i: int|
                    0 <= i < s.len() ==> (#[trigger] s[i].accepted() matches Some(c)
                        ==> !c.ballot.above(e.ballot))
            },
            None => forall|i: int| 0 <= i < s.len() ==> (#[trigger] s[i].accepted()) is None,
        },
    decreases s.len(),
{
    if s.len() > 0 {
        let front = s.drop_last();
        adopted_entry_has_highest_ballot(front);
        assert forall|i: int| 0 <= i < front.len() implies #[trigger] s[i].accepted()
            == front[i].accepted() by {}
        assert(s[s.len() - 1] == s.last());
        match adopted_entry(s) {
            Some(e) => {
                if s.last().accepted() == Some(e) {
                    assert(s[s.len() - 1].accepted() == Some(e));
                } else {
                    let i = choose|i: int|
                        0 <= i < front.len() && #[trigger] front[i].accepted() == Some(e);
                    assert(s[i].accepted() == Some(e));
                }
                assert forall|i: int| 0 <= i < s.len() implies (#[trigger] s[i].accepted() matches Some(
                    c,
                ) ==> !c.ballot.above(e.ballot)) by {
                    if i < front.len() {
                        assert(front[i].accepted() == s[i].accepted());
                    }
                }
            },
            None => {
                assert forall|i: int| 0 <= i < s.len() implies (#[trigger] s[i].accepted()) is None by {
                    if i < front.len() {
                        assert(front[i].accepted() == s[i].accepted());
                    }
                }
            },
        }
    }
}

/// A prepare phase that proceeds has the promises of a quorum, keeps the
/// entry's slot, ballot and term, and proposes a value that was already
/// accepted somewhere wherever there is one: then the one with the highest
/// ballot of all that the members report.
pub proof fn prepare_proceeds_with_highest_accepted_value(
    entry: LogEntryView,
    s: Seq<PrepareCast>,
    quorum: nat,
)
    ensures
        prepare_outcome(entry, s, quorum) matches PrepareAttemptView::Proceed {
            entry: next,
            foreign_value,
        } ==> {
            &&& promise_count(s) >= quorum
            &&& next.slot == entry.slot && next.ballot == entry.ballot && next.term == entry.term
            &&& foreign_value == (next.payload != entry.payload)
            &&& (forall|i: int| 0 <= i < s.len() ==> (#[trigger] s[i].accepted()) is None)
                ==> next.payload == entry.payload
            &&& (exists|i: int| 0 <= i < s.len() && (#[trigger] s[i].accepted()) is Some) ==> exists|
                k: int,
            |
                0 <= k < s.len() && (#[trigger] s[k].accepted() matches Some(e) && {
                    &&& next.payload == e.payload
                    &&& forall|i: int|
                        0 <= i < s.len() ==> (#[trigger] s[i].accepted() matches Some(c)
                            ==> !c.ballot.above(e.ballot))
                })
        },
{
    adopted_entry_has_highest_ballot(s);
    if let PrepareAttemptView::Proceed { entry: next, foreign_value } = prepare_outcome(
        entry,
        s,
        quorum,
    ) {
        match adopted_entry(s) {
            Some(e) => {
                let k = choose|k: int| 0 <= k < s.len() && #[trigger] s[k].accepted() == Some(e);
                assert(s[k].accepted() == Some(e));
            },
            None => {},
        }
    }
}

proof fn lemma_promises_filtered(s: Seq<PrepareCast>, p: spec_fn(PrepareCast) -> bool)
    requires
        forall|c: PrepareCast| #[trigger]
            p(c) == (c.voting && c.reply matches Some(PrepareReplyView::Promised { .. })),
    ensures
        promise_count(s) == s.filter(p).len(),
    decreases s.len(),
{
    reveal(Seq::filter);
    if s.len() > 0 {
        lemma_promises_filtered(s.drop_last(), p);
    }
}

proof fn lemma_acceptances_filtered(s: Seq<AcceptCast>, p: spec_fn(AcceptCast) -> bool)
    requires
        forall|c: AcceptCast| #[trigger]
            p(c) == (c.voting && (c.reply matches Some(PxAcceptReply::Accepted { .. }))),
    ensures
        accept_count(s) == s.filter(p).len(),
    decreases s.len(),
{
    reveal(Seq::filter);
    if s.len() > 0 {
        lemma_acceptances_filtered(s.drop_last(), p);
    }
}

/// The entry is chosen exactly if the replies of voting members that accepted
/// it are at least a quorum, whatever the other members answer and however
/// many there are.
pub proof fn chosen_exactly_by_a_quorum(s: Seq<AcceptCast>, quorum: nat)
    ensures
        accept_outcome(s, quorum) is Chosen <==> s.filter(
            |c: AcceptCast| c.voting && (c.reply matches Some(PxAcceptReply::Accepted { .. })),
        ).len() >= quorum,
{
    let p = |c: AcceptCast| c.voting && (c.reply matches Some(PxAcceptReply::Accepted { .. }));
    lemma_acceptances_filtered(s, p);
}

/// Any members `who` that make a quorum, all voting and all having accepted,
/// choose the entry: it takes neither a reply of the others nor that they can
/// be reached. Member `0` is the local replica, member `i + 1` the remote `i`.
pub proof fn accepting_quorum_chooses(
    local_voting: bool,
    local: Option<PxAcceptReply>,
    voting: Seq<bool>,
    replies: Seq<Option<PxAcceptReply>>,
    quorum: nat,
    who: Set<int>,
)
    requires
        voting.len() == replies.len(),
        who.finite(),
        who.len() >= quorum,
        forall|m: int| #[trigger]
            who.contains(m) ==> {
                &&& 0 <= m <= replies.len()
                &&& m == 0 ==> local_voting && (local matches Some(PxAcceptReply::Accepted { .. }))
                &&& m > 0 ==> voting[m - 1] && (replies[m - 1] matches Some(
                    PxAcceptReply::Accepted { .. },
                ))
            },
    ensures
        accept_outcome(accept_casts(local_voting, local, voting, replies), quorum) is Chosen,
{
    let s = accept_casts(local_voting, local, voting, replies);
    let p = |c: AcceptCast| c.voting && (c.reply matches Some(PxAcceptReply::Accepted { .. }));
    lemma_acceptances_filtered(s, p);
    assert forall|m: int| #[trigger] who.contains(m) implies 0 <= m < s.len() && p(s[m]) by {
        if m > 0 {
            assert(s[m].voting == voting[m - 1] && s[m].reply == replies[m - 1]);
        }
    }
    lemma_positions_counted(s, p, who);
}

proof fn lemma_accept_terms(s: Seq<AcceptCast>)
    ensures
        match accept_seen_term(s) {
            Some(t) => {
                &&& exists|i: int|
                    0 <= i < s.len() && (#[trigger] s[i].reply matches Some(
                        PxAcceptReply::TermStale { new_term, .. },
                    ) && new_term == t)
                &&& forall|i: int|
                    0 <= i < s.len() ==> (#[trigger] s[i].reply matches Some(
                        PxAcceptReply::TermStale { new_term, .. },
                    ) ==> new_term <= t)
            },
            None => forall|i: int|
                0 <= i < s.len() ==> !(#[trigger] s[i].reply matches Some(
                    PxAcceptReply::TermStale { .. },
                )),
        },
    decreases s.len(),
{
    if s.len() > 0 {
        let front = s.drop_last();
        lemma_accept_terms(front);
        assert forall|i: int| 0 <= i < front.len() implies #[trigger] s[i].reply == front[i].reply by {}
        assert(s[s.len() - 1].reply == s.last().reply);
        if let Some(t) = accept_seen_term(front) {
            let i = choose|i: int|
                0 <= i < front.len() && (#[trigger] front[i].reply matches Some(
                    PxAcceptReply::TermStale { new_term, .. },
                ) && new_term == t);
            assert(s[i].reply == front[i].reply);
        }
        assert forall|i: int| 0 <= i < front.len() implies front[i].reply == #[trigger] s[i].reply by {}
    }
}

proof fn lemma_accept_rounds(s: Seq<AcceptCast>)
    ensures
        match accept_rejected_round(s) {
            Some(t) => {
                &&& exists|i: int|
                    0 <= i < s.len() && (#[trigger] s[i].reply matches Some(
                        PxAcceptReply::Rejected { current_promised, .. },
                    ) && current_promised.round == t)
                &&& forall|i: int|
                    0 <= i < s.len() ==> (#[trigger] s[i].reply matches Some(
                        PxAcceptReply::Rejected { current_promised, .. },
                    ) ==> current_promised.round <= t)
            },
            None => forall|i: int|
                0 <= i < s.len() ==> !(#[trigger] s[i].reply matches Some(
                    PxAcceptReply::Rejected { .. },
                )),
        },
    decreases s.len(),
{
    if s.len() > 0 {
        let front = s.drop_last();
        lemma_accept_rounds(front);
        assert(s[s.len() - 1].reply == s.last().reply);
        if let Some(t) = accept_rejected_round(front) {
            let i = choose|i: int|
                0 <= i < front.len() && (#[trigger] front[i].reply matches Some(
                    PxAcceptReply::Rejected { current_promised, .. },
                ) && current_promised.round == t);
            assert(s[i].reply == front[i].reply);
        }
        assert forall|i: int| 0 <= i < front.len() implies front[i].reply == #[trigger] s[i].reply by {}
    }
}

proof fn lemma_accept_epochs(s: Seq<AcceptCast>)
    ensures
        match accept_epoch_mismatch(s) {
            Some(e) => exists|i: int|
                0 <= i < s.len() && #[trigger] s[i].reply == Some(
                    PxAcceptReply::EpochMismatch { responder_epoch: e },
                ) && forall|j: int|
                    i < j < s.len() ==> !(#[trigger] s[j].reply matches Some(
                        PxAcceptReply::EpochMismatch { .. },
                    )),
            None => forall|i: int|
                0 <= i < s.len() ==> !(#[trigger] s[i].reply matches Some(
                    PxAcceptReply::EpochMismatch { .. },
                )),
        },
    decreases s.len(),
{
    if s.len() > 0 {
        let front = s.drop_last();
        lemma_accept_epochs(front);
        assert(s[s.len() - 1].reply == s.last().reply);
        if !(s.last().reply matches Some(PxAcceptReply::EpochMismatch { .. })) {
            if let Some(e) = accept_epoch_mismatch(front) {
                let i = choose|i: int|
                    0 <= i < front.len() && #[trigger] front[i].reply == Some(
                        PxAcceptReply::EpochMismatch { responder_epoch: e },
                    ) && forall|j: int|
                        i < j < front.len() ==> !(#[trigger] front[j].reply matches Some(
                            PxAcceptReply::EpochMismatch { .. },
                        ));
                assert(s[i].reply == front[i].reply);
                assert forall|j: int| i < j < s.len() implies !(#[trigger] s[j].reply matches Some(
                    PxAcceptReply::EpochMismatch { .. },
                )) by {
                    if j < front.len() {
                        assert(front[j].reply == s[j].reply);
                    }
                }
            }
        }
        assert forall|i: int| 0 <= i < front.len() implies front[i].reply == #[trigger] s[i].reply by {}
    }
}

/// What an accept phase short of a quorum comes to. A member in a later term
/// ends it, with the latest term that any member named. Without one, a
/// rejection has the proposer go on above every round that any member named,
/// and just above one of them. Without either, the phase fails on the foreign
/// epoch that was named last, or for want of a quorum where none was named.
pub proof fn unchosen_entry_reports_the_obstacle(s: Seq<AcceptCast>, quorum: nat)
    requires
        rounds_have_successor(s),
        s.filter(
            |c: AcceptCast| c.voting && (c.reply matches Some(PxAcceptReply::Accepted { .. })),
        ).len() < quorum,
    ensures
        match accept_outcome(s, quorum) {
            AcceptAttempt::Chosen => false,
            AcceptAttempt::Fail { error: PxPaxosError::TermStale { current_term } } => {
                &&& exists|i: int|
                    0 <= i < s.len() && (#[trigger] s[i].reply matches Some(
                        PxAcceptReply::TermStale { new_term, .. },
                    ) && new_term == current_term)
                &&& forall|i: int|
                    0 <= i < s.len() ==> (#[trigger] s[i].reply matches Some(
                        PxAcceptReply::TermStale { new_term, .. },
                    ) ==> new_term <= current_term)
            },
            AcceptAttempt::Retry { next_min_round, error } => {
                &&& exists|i: int|
                    0 <= i < s.len() && (#[trigger] s[i].reply matches Some(
                        PxAcceptReply::Rejected { current_promised, .. },
                    ) && next_min_round == current_promised.round + 1 && error
                        == (PxPaxosError::AcceptRejected {
                        promised: PxBallot { round: current_promised.round, leader_id: 0 },
                    }))
                &&& forall|i: int|
                    0 <= i < s.len() ==> (#[trigger] s[i].reply matches Some(r) ==> {
                        &&& !(r is TermStale)
                        &&& r matches PxAcceptReply::Rejected { current_promised, .. }
                            ==> current_promised.round < next_min_round
                    })
            },
            AcceptAttempt::Fail { error } => {
                &&& forall|i: int|
                    0 <= i < s.len() ==> (#[trigger] s[i].reply matches Some(r) ==> !(
                    r is TermStale) && !(r is Rejected))
                &&& match error {
                    PxPaxosError::MembershipEpochMismatch { responder_epoch } => exists|i: int|
                        0 <= i < s.len() && #[trigger] s[i].reply == Some(
                            PxAcceptReply::EpochMismatch { responder_epoch },
                        ) && forall|j: int|
                            i < j < s.len() ==> !(#[trigger] s[j].reply matches Some(
                                PxAcceptReply::EpochMismatch { .. },
                            )),
                    _ => {
                        &&& error == (PxPaxosError::QuorumUnavailable {
                            phase: PxPaxosPhase::Accept,
                        })
                        &&& forall|i: int|
                            0 <= i < s.len() ==> (#[trigger] s[i].reply matches Some(r) ==> !(
                            r is EpochMismatch))
                    },
                }
            },
        },
{
    let p = |c: AcceptCast| c.voting && (c.reply matches Some(PxAcceptReply::Accepted { .. }));
    lemma_acceptances_filtered(s, p);
    lemma_accept_terms(s);
    lemma_accept_rounds(s);
    lemma_accept_epochs(s);
    lemma_rejected_round_has_successor(s);
}

proof fn lemma_prepare_terms(s: Seq<PrepareCast>)
    ensures
        match prepare_seen_term(s) {
            Some(t) => {
                &&& exists|i: int|
                    0 <= i < s.len() && (#[trigger] s[i].reply matches Some(
                        PrepareReplyView::TermStale { new_term, .. },
                    ) && new_term == t)
                &&& forall|i: int|
                    0 <= i < s.len() ==> (#[trigger] s[i].reply matches Some(
                        PrepareReplyView::TermStale { new_term, .. },
                    ) ==> new_term <= t)
            },
            None => forall|i: int|
                0 <= i < s.len() ==> !(#[trigger] s[i].reply matches Some(
                    PrepareReplyView::TermStale { .. },
                )),
        },
    decreases s.len(),
{
    if s.len() > 0 {
        let front = s.drop_last();
        lemma_prepare_terms(front);
        assert forall|i: int| 0 <= i < front.len() implies #[trigger] s[i].reply == front[i].reply by {}
        assert(s[s.len() - 1].reply == s.last().reply);
        if let Some(t) = prepare_seen_term(front) {
            let i = choose|i: int|
                0 <= i < front.len() && (#[trigger] front[i].reply matches Some(
                    PrepareReplyView::TermStale { new_term, .. },
                ) && new_term == t);
            assert(s[i].reply == front[i].reply);
        }
        assert forall|i: int| 0 <= i < front.len() implies front[i].reply == #[trigger] s[i].reply by {}
    }
}

proof fn lemma_prepare_rounds(s: Seq<PrepareCast>)
    ensures
        match prepare_rejected_round(s) {
            Some(t) => {
                &&& exists|i: int|
                    0 <= i < s.len() && (#[trigger] s[i].reply matches Some(
                        PrepareReplyView::Rejected { current_promised, .. },
                    ) && current_promised.round == t)
                &&& forall|i: int|
                    0 <= i < s.len() ==> (#[trigger] s[i].reply matches Some(
                        PrepareReplyView::Rejected { current_promised, .. },
                    ) ==> current_promised.round <= t)
            },
            None => forall|i: int|
                0 <= i < s.len() ==> !(#[trigger] s[i].reply matches Some(
                    PrepareReplyView::Rejected { .. },
                )),
        },
    decreases s.len(),
{
    if s.len() > 0 {
        let front = s.drop_last();
        lemma_prepare_rounds(front);
        assert(s[s.len() - 1].reply == s.last().reply);
        if let Some(t) = prepare_rejected_round(front) {
            let i = choose|i: int|
                0 <= i < front.len() && (#[trigger] front[i].reply matches Some(
                    PrepareReplyView::Rejected { current_promised, .. },
                ) && current_promised.round == t);
            assert(s[i].reply == front[i].reply);
        }
        assert forall|i: int| 0 <= i < front.len() implies front[i].reply == #[trigger] s[i].reply by {}
    }
}

proof fn lemma_prepare_epochs(s: Seq<PrepareCast>)
    ensures
        match prepare_epoch_mismatch(s) {
            Some(e) => exists|i: int|
                0 <= i < s.len() && #[trigger] s[i].reply == Some(
                    PrepareReplyView::EpochMismatch { responder_epoch: e },
                ) && forall|j: int|
                    i < j < s.len() ==> !(#[trigger] s[j].reply matches Some(
                        PrepareReplyView::EpochMismatch { .. },
                    )),
            None => forall|i: int|
                0 <= i < s.len() ==> !(#[trigger] s[i].reply matches Some(
                    PrepareReplyView::EpochMismatch { .. },
                )),
        },
    decreases s.len(),
{
    if s.len() > 0 {
        let front = s.drop_last();
        lemma_prepare_epochs(front);
        assert(s[s.len() - 1].reply == s.last().reply);
        if !(s.last().reply matches Some(PrepareReplyView::EpochMismatch { .. })) {
            if let Some(e) = prepare_epoch_mismatch(front) {
                let i = choose|i: int|
                    0 <= i < front.len() && #[trigger] front[i].reply == Some(
                        PrepareReplyView::EpochMismatch { responder_epoch: e },
                    ) && forall|j: int|
                        i < j < front.len() ==> !(#[trigger] front[j].reply matches Some(
                            PrepareReplyView::EpochMismatch { .. },
                        ));
                assert(s[i].reply == front[i].reply);
                assert forall|j: int| i < j < s.len() implies !(#[trigger] s[j].reply matches Some(
                    PrepareReplyView::EpochMismatch { .. },
                )) by {
                    if j < front.len() {
                        assert(front[j].reply == s[j].reply);
                    }
                }
            }
        }
        assert forall|i: int| 0 <= i < front.len() implies front[i].reply == #[trigger] s[i].reply by {}
    }
}

/// A prepare phase proceeds exactly if no member is in a later term and the
/// promises of voting members are at least a quorum, whatever the others
/// answer and however many there are.
pub proof fn proceeds_exactly_by_a_quorum(
    entry: LogEntryView,
    s: Seq<PrepareCast>,
    quorum: nat,
)
    ensures
        prepare_outcome(entry, s, quorum) is Proceed <==> {
            &&& s.filter(
                |c: PrepareCast|
                    c.voting && c.reply matches Some(PrepareReplyView::Promised { .. }),
            ).len() >= quorum
            &&& forall|i: int|
                0 <= i < s.len() ==> !(#[trigger] s[i].reply matches Some(
                    PrepareReplyView::TermStale { .. },
                ))
        },
{
    let p = |c: PrepareCast| c.voting && c.reply matches Some(PrepareReplyView::Promised { .. });
    lemma_promises_filtered(s, p);
    lemma_prepare_terms(s);
    if let Some(t) = prepare_seen_term(s) {
        let i = choose|i: int|
            0 <= i < s.len() && (#[trigger] s[i].reply matches Some(
                PrepareReplyView::TermStale { new_term, .. },
            ) && new_term == t);
        assert(s[i].reply matches Some(PrepareReplyView::TermStale { .. }));
    }
}

/// Any members `who` that make a quorum, all voting and all having promised,
/// let the phase proceed unless a member is in a later term: it takes neither
/// a reply of the others nor that they can be reached. Member `0` is the local
/// replica, member `i + 1` the remote `i`.
pub proof fn promising_quorum_proceeds(
    entry: LogEntryView,
    local_voting: bool,
    local: Option<PxPrepareReply>,
    voting: Seq<bool>,
    replies: Seq<Option<PxPrepareReply>>,
    quorum: nat,
    who: Set<int>,
)
    requires
        voting.len() == replies.len(),
        who.finite(),
        who.len() >= quorum,
        forall|m: int| #[trigger]
            who.contains(m) ==> {
                &&& 0 <= m <= replies.len()
                &&& m == 0 ==> local_voting && (local matches Some(PxPrepareReply::Promised { .. }))
                &&& m > 0 ==> voting[m - 1] && (replies[m - 1] matches Some(
                    PxPrepareReply::Promised { .. },
                ))
            },
        !(local matches Some(PxPrepareReply::TermStale { .. })),
        forall|i: int|
            0 <= i < replies.len() ==> !(#[trigger] replies[i] matches Some(
                PxPrepareReply::TermStale { .. },
            )),
    ensures
        prepare_outcome(
            entry,
            prepare_casts(local_voting, local, voting, replies),
            quorum,
        ) is Proceed,
{
    let s = prepare_casts(local_voting, local, voting, replies);
    let p = |c: PrepareCast| c.voting && c.reply matches Some(PrepareReplyView::Promised { .. });
    proceeds_exactly_by_a_quorum(entry, s, quorum);
    assert forall|m: int| 0 <= m < s.len() implies #[trigger] s[m] == if m == 0 {
        prepare_cast(local_voting, local)
    } else {
        prepare_cast(voting[m - 1], replies[m - 1])
    } by {}
    assert forall|m: int| #[trigger] who.contains(m) implies 0 <= m < s.len() && p(s[m]) by {
        if m > 0 {
            assert(s[m] == prepare_cast(voting[m - 1], replies[m - 1]));
        }
    }
    lemma_positions_counted(s, p, who);
    assert forall|m: int| 0 <= m < s.len() implies !(#[trigger] s[m].reply matches Some(
        PrepareReplyView::TermStale { .. },
    )) by {
        if m > 0 {
            assert(!(replies[m - 1] matches Some(PxPrepareReply::TermStale { .. })));
        }
    }
}

/// What a prepare phase that does not proceed comes to. A member in a later
/// term ends it, with the latest term that any member named. Without one, a
/// rejection has the proposer go on from the highest round that any member
/// named. Without either, the phase fails on the foreign epoch that was named
/// last, or for want of a quorum where none was named.
pub proof fn unprepared_entry_reports_the_obstacle(
    entry: LogEntryView,
    s: Seq<PrepareCast>,
    quorum: nat,
)
    ensures
        match prepare_outcome(entry, s, quorum) {
            PrepareAttemptView::Proceed { .. } => true,
            PrepareAttemptView::Fail { error: PxPaxosError::TermStale { current_term } } => {
                &&& exists|i: int|
                    0 <= i < s.len() && (#[trigger] s[i].reply matches Some(
                        PrepareReplyView::TermStale { new_term, .. },
                    ) && new_term == current_term)
                &&& forall|i: int|
                    0 <= i < s.len() ==> (#[trigger] s[i].reply matches Some(
                        PrepareReplyView::TermStale { new_term, .. },
                    ) ==> new_term <= current_term)
            },
            PrepareAttemptView::Retry { next_min_round, error } => {
                &&& exists|i: int|
                    0 <= i < s.len() && (#[trigger] s[i].reply matches Some(
                        PrepareReplyView::Rejected { current_promised, .. },
                    ) && next_min_round == current_promised.round)
                &&& error == (PxPaxosError::PrepareRejected {
                    promised: PxBallot { round: next_min_round, leader_id: 0 },
                })
                &&& forall|i: int|
                    0 <= i < s.len() ==> (#[trigger] s[i].reply matches Some(r) ==> {
                        &&& !(r is TermStale)
                        &&& r matches PrepareReplyView::Rejected { current_promised, .. }
                            ==> current_promised.round <= next_min_round
                    })
            },
            PrepareAttemptView::Fail { error } => {
                &&& forall|i: int|
                    0 <= i < s.len() ==> (#[trigger] s[i].reply matches Some(r) ==> !(
                    r is TermStale) && !(r is Rejected))
                &&& match error {
                    PxPaxosError::MembershipEpochMismatch { responder_epoch } => exists|i: int|
                        0 <= i < s.len() && #[trigger] s[i].reply == Some(
                            PrepareReplyView::EpochMismatch { responder_epoch },
                        ) && forall|j: int|
                            i < j < s.len() ==> !(#[trigger] s[j].reply matches Some(
                                PrepareReplyView::EpochMismatch { .. },
                            )),
                    _ => {
                        &&& error == (PxPaxosError::QuorumUnavailable {
                            phase: PxPaxosPhase::Prepare,
                        })
                        &&& forall|i: int|
                            0 <= i < s.len() ==> (#[trigger] s[i].reply matches Some(r) ==> !(
                            r is EpochMismatch))
                    },
                }
            },
        },
{
    lemma_prepare_terms(s);
    lemma_prepare_rounds(s);
    lemma_prepare_epochs(s);
}

} // verus!
