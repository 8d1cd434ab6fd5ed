//! A proposal on its way to a chosen slot.
//!
//! A proposal tries up to three slots, and each slot up to three times. A turn
//! of the proposal is one phase: the program around it runs the phase and hands
//! the outcome back, and gets told what to do next.

use crate::cluster::group::PxGroup;
use crate::cluster::inflight::{asked, waited_for, Admission};
use crate::cluster::local_replica::{PxLocalReplica, PxLocalReplicaRole};
use crate::cluster::phases::{AcceptAttempt, PrepareAttempt, PrepareAttemptView};
use crate::cluster::proposer::clone_tags;
use crate::cluster::watermarks::later;
use crate::common::config::{
    AdmissionPolicy, MAX_PAXOS_RETRIES, MAX_SLOT_RETRIES, RETRY_BASE_BACKOFF_MS,
};
use crate::common::payload::{buffer_bytes, buffer_clone, buffer_eq};
use crate::common::text::concat2;
use crate::paxos::error::PxPaxosError;
use crate::paxos::learner::{
    dedup_slot, learned, other_operations_stay_known, recorded_operation_is_found,
};
use crate::paxos::roles::{DedupTag, LogEntryView, PxBallot, PxLogEntry};
use bytes::Bytes;
use vstd::prelude::*;

verus! {

/// What a proposal comes to.
#[derive(Debug)]
pub enum ProposeResult {
    /// The value is chosen at this slot.
    Chosen { slot: u64 },
    /// This replica does not lead; the hint is the leader's endpoint, if known.
    NotLeader { leader_hint: String },
    /// Too many proposals are in flight. The caller may try again shortly.
    Busy,
    /// The proposal failed.
    Failed(String),
}

/// What a result says.
pub enum ProposeResultView {
    Chosen { slot: u64 },
    NotLeader { leader_hint: Seq<char> },
    Busy,
    Failed(Seq<char>),
}

impl View for ProposeResult {
    type V = ProposeResultView;

    open spec fn view(&self) -> ProposeResultView {
        match self {
            ProposeResult::Chosen { slot } => ProposeResultView::Chosen { slot: *slot },
            ProposeResult::NotLeader { leader_hint } => ProposeResultView::NotLeader {
                leader_hint: leader_hint@,
            },
            ProposeResult::Busy => ProposeResultView::Busy,
            ProposeResult::Failed(msg) => ProposeResultView::Failed(msg@),
        }
    }
}

/// Two to the power `n`.
pub open spec fn doubled(n: nat) -> nat
    decreases n,
{
    if n == 0 {
        1
    } else {
        2 * doubled((n - 1) as nat)
    }
}

/// Pause behind an attempt: it doubles with every attempt, six times at most.
pub open spec fn spec_retry_backoff(attempt: nat) -> nat {
    5 * doubled(
        if attempt <= 6 {
            attempt
        } else {
            6
        },
    )
}

/// Pause behind an attempt, in milliseconds.
pub fn retry_backoff(attempt: usize) -> (ms: u64)
    ensures
        ms == spec_retry_backoff(attempt as nat),
{
    let steps: usize = if attempt <= 6 {
        attempt
    } else {
        6
    };
    proof {
        reveal_with_fuel(doubled, 7);
    }
    let mut factor: u64 = 1;
    let mut i: usize = 0;
    while i < steps
        invariant
            i <= steps <= 6,
            factor == doubled(i as nat),
            factor <= 64,
        decreases steps - i,
    {
        proof {
            reveal_with_fuel(doubled, 7);
        }
        factor = factor * 2;
        i = i + 1;
    }
    RETRY_BASE_BACKOFF_MS * factor
}

/// Phase that a proposal is in.
#[derive(Debug)]
pub enum ProposalPhase {
    /// Asking for promises.
    Preparing,
    /// Asking the members to accept `entry`.
    Accepting { entry: PxLogEntry, foreign_value: bool },
    /// Nothing is left to do.
    Done,
}

/// A proposal on its way.
#[derive(Debug)]
pub struct Proposal {
    pub payload: Bytes,
    pub dedup_tags: Vec<DedupTag>,
    /// Queue of the admission permit that the proposal holds.
    pub queue: usize,
    /// Members needed for a quorum.
    pub quorum: usize,
    pub slot: u64,
    /// Term in which the proposal took this slot.
    pub base_term: u64,
    /// Slots given up so far.
    pub slot_attempt: usize,
    /// Attempts at this slot given up so far.
    pub attempt: usize,
    /// Run the prepare phase before the accept phase.
    pub force_prepare: bool,
    /// Round that ballots must be above.
    pub min_round: u64,
    pub last_error: Option<PxPaxosError>,
    pub phase: ProposalPhase,
}

impl Proposal {
    /// The proposal is within its budget, and what it asks the members to
    /// accept is for its slot.
    pub open spec fn wf(&self) -> bool {
        &&& self.slot >= 1
        &&& self.slot_attempt < MAX_SLOT_RETRIES
        &&& self.attempt < MAX_PAXOS_RETRIES
        &&& self.phase matches ProposalPhase::Accepting { entry, .. } ==> entry.slot == self.slot
    }

    /// The proposal's admission permit is still taken.
    pub open spec fn holds_permit(&self, g: PxGroup) -> bool {
        &&& self.queue < g.inflight.queue_count
        &&& g.inflight.available@[self.queue as int] < g.inflight.window_per_queue
    }

    /// The members are asked to accept the proposal's own value.
    pub open spec fn own_value(&self) -> bool {
        self.phase matches ProposalPhase::Accepting { entry, foreign_value } && !foreign_value
            && buffer_bytes(entry.payload) == buffer_bytes(self.payload)
    }

    /// Whether the members are asked to accept the proposal's own value.
    fn carries_own_value(&self) -> (r: bool)
        ensures
            r == self.own_value(),
    {
        match &self.phase {
            ProposalPhase::Accepting { entry, foreign_value } => !*foreign_value && buffer_eq(
                &entry.payload,
                &self.payload,
            ),
            _ => false,
        }
    }

    /// Operations of clients that go with the value that the members are asked
    /// to accept: those of the proposal with its own value, and none with the
    /// value of another proposer.
    pub fn accept_tags(&self) -> (tags: Vec<DedupTag>)
        ensures
            tags@ == tags_if(self.own_value(), self.dedup_tags@),
    {
        if self.carries_own_value() {
            clone_tags(&self.dedup_tags)
        } else {
            Vec::new()
        }
    }

    /// Turns that the proposal may still take.
    pub open spec fn budget(&self) -> int {
        ((MAX_SLOT_RETRIES - self.slot_attempt) * MAX_PAXOS_RETRIES + (MAX_PAXOS_RETRIES
            - self.attempt)) * 2 + if self.phase is Preparing {
            1int
        } else {
            0
        }
    }
}

/// What the program around a proposal does next.
#[derive(Debug)]
pub enum ProposeStep {
    /// Run the prepare phase for the proposal's slot.
    Prepare,
    /// Run the accept phase for the proposal's entry.
    Accept,
    /// Report the result.
    Finished(ProposeResult),
}

/// A turn of a proposal: pause, and go on.
#[derive(Debug)]
pub struct ProposeTurn {
    pub pause_ms: u64,
    pub step: ProposeStep,
}

/// Result of a proposal that is out of attempts.
pub open spec fn exhausted(last_error: Option<PxPaxosError>) -> Seq<char> {
    match last_error {
        None => "paxos retry exhausted"@,
        Some(e) => e.spec_keyword() + " (after 3 paxos retries, 3 slot retries)"@,
    }
}

fn exhausted_text(last_error: &Option<PxPaxosError>) -> (s: String)
    ensures
        s@ == exhausted(*last_error),
{
    match last_error {
        None => "paxos retry exhausted".to_owned(),
        Some(e) => concat2(e.keyword(), " (after 3 paxos retries, 3 slot retries)"),
    }
}

/// `p` has started an attempt, and `turn` asks for its first phase: the
/// prepare phase, or the accept phase of the proposal's own value under the
/// lowest ballot.
pub open spec fn attempt_started(p: Proposal, leader_id: u64, turn: ProposeTurn) -> bool {
    if p.force_prepare {
        p.phase is Preparing && turn.step is Prepare
    } else {
        &&& turn.step is Accept
        &&& p.phase matches ProposalPhase::Accepting { entry, foreign_value } && {
            &&& !foreign_value
            &&& entry@ == (LogEntryView {
                slot: p.slot,
                ballot: PxBallot { round: p.min_round, leader_id },
                term: p.base_term,
                payload: buffer_bytes(p.payload),
            })
        }
    }
}

/// The proposal gave up an attempt with `error` and moves on: to another
/// attempt at the same slot if `same_slot` and one is left, else to a new slot
/// if one is left, else to its end. A new slot is taken in either of the last
/// two cases.
pub open spec fn moved_on(
    g0: PxGroup,
    p0: Proposal,
    g1: PxGroup,
    p1: Proposal,
    turn: ProposeTurn,
    error: PxPaxosError,
    same_slot: bool,
    min_round: u64,
    force_prepare: bool,
    pause_ms: nat,
) -> bool {
    &&& p1.last_error == Some(error)
    &&& p1.payload == p0.payload
    &&& p1.dedup_tags == p0.dedup_tags
    &&& p1.queue == p0.queue
    &&& p1.quorum == p0.quorum
    &&& turn.pause_ms == pause_ms
    &&& if same_slot && p0.attempt + 1 < MAX_PAXOS_RETRIES {
        &&& g1 == g0
        &&& p1.slot == p0.slot
        &&& p1.base_term == p0.base_term
        &&& p1.slot_attempt == p0.slot_attempt
        &&& p1.attempt == p0.attempt + 1
        &&& p1.force_prepare == force_prepare
        &&& p1.min_round == min_round
        &&& attempt_started(p1, g0.local_replica.id, turn)
    } else if p0.slot_attempt + 1 < MAX_SLOT_RETRIES {
        &&& g1 == (PxGroup { next_slot: (g0.next_slot + 1) as u64, ..g0 })
        &&& p1.slot == g0.next_slot
        &&& p1.base_term == g0.local_replica.current_term
        &&& p1.slot_attempt == p0.slot_attempt + 1
        &&& p1.attempt == 0
        &&& p1.force_prepare == g0.config.force_classic
        &&& p1.min_round == 0
        &&& attempt_started(p1, g0.local_replica.id, turn)
    } else {
        &&& turn.step matches ProposeStep::Finished(r) && r@ == ProposeResultView::Failed(
            exhausted(Some(error)),
        )
        &&& p1.phase is Done
        &&& g1.inflight.spec_occupied() == g0.inflight.spec_occupied() - 1
        &&& g1.inflight.available@ == g0.inflight.available@.update(
            p0.queue as int,
            (g0.inflight.available@[p0.queue as int] + 1) as usize,
        )
        &&& g1 == (PxGroup {
            next_slot: (g0.next_slot + 1) as u64,
            inflight: g1.inflight,
            ..g0
        })
    }
}

/// The proposal ends because a member is in the later term `term`: the replica
/// follows in that term, and the permit is given back.
pub open spec fn stepped_down(
    g0: PxGroup,
    p0: Proposal,
    g1: PxGroup,
    p1: Proposal,
    turn: ProposeTurn,
    term: u64,
) -> bool {
    &&& turn.pause_ms == 0
    &&& turn.step matches ProposeStep::Finished(r) && r@ == (ProposeResultView::NotLeader {
        leader_hint: g1.leader_hint(),
    })
    &&& p1.phase is Done
    &&& g1.local_replica == (PxLocalReplica {
        role: PxLocalReplicaRole::Follower,
        current_term: later(g0.local_replica.current_term, term),
        voted_for: if term > g0.local_replica.current_term {
            None
        } else {
            g0.local_replica.voted_for
        },
        believed_leader: None,
        lease_read_until_ms: 0,
        ..g0.local_replica
    })
    &&& g1.inflight.spec_occupied() == g0.inflight.spec_occupied() - 1
    &&& g1.inflight.available@ == g0.inflight.available@.update(
        p0.queue as int,
        (g0.inflight.available@[p0.queue as int] + 1) as usize,
    )
    &&& g1 == (PxGroup { local_replica: g1.local_replica, inflight: g1.inflight, ..g0 })
}

/// A failed phase: a later term ends the proposal, a foreign membership epoch
/// is adopted and the slot tried again, and any other error gives the slot up.
pub open spec fn phase_failed(
    g0: PxGroup,
    p0: Proposal,
    g1: PxGroup,
    p1: Proposal,
    turn: ProposeTurn,
    error: PxPaxosError,
) -> bool {
    match error {
        PxPaxosError::TermStale { current_term } => stepped_down(
            g0,
            p0,
            g1,
            p1,
            turn,
            current_term,
        ),
        PxPaxosError::MembershipEpochMismatch { responder_epoch } => moved_on(
            PxGroup { membership_epoch: later(g0.membership_epoch, responder_epoch), ..g0 },
            p0,
            g1,
            p1,
            turn,
            error,
            true,
            p0.min_round,
            p0.force_prepare,
            spec_retry_backoff(p0.attempt as nat),
        ),
        _ => moved_on(g0, p0, g1, p1, turn, error, false, 0, false, 0),
    }
}

impl PxGroup {
    /// This replica leads, in the term in which it proposes.
    pub open spec fn may_propose(&self) -> bool {
        self.local_replica.role is Leader && self.local_replica.current_term == self.proposing_term
    }

    /// Whether this replica leads, in the term in which it proposes.
    fn gate_passed(&self) -> (r: bool)
        ensures
            r == self.may_propose(),
    {
        self.local_replica.is_leader() && self.local_replica.current_term == self.proposing_term
    }

    fn not_leader(&self) -> (r: ProposeResult)
        ensures
            r@ == (ProposeResultView::NotLeader { leader_hint: self.leader_hint() }),
    {
        let leader_hint: String = match self.leader_endpoint() {
            Some(e) => e,
            None => String::new(),
        };
        proof {
            assert(leader_hint@ =~= self.leader_hint());
        }
        ProposeResult::NotLeader { leader_hint }
    }

    fn start_attempt(&self, p: &mut Proposal, pause_ms: u64) -> (turn: ProposeTurn)
        ensures
            turn.pause_ms == pause_ms,
            attempt_started(*final(p), self.local_replica.id, turn),
            *final(p) == (Proposal { phase: final(p).phase, ..*old(p) }),
            final(p).phase matches ProposalPhase::Accepting { entry, .. } ==> entry.slot == old(
                p,
            ).slot,
            !(final(p).phase is Done),
    {
        if p.force_prepare {
            p.phase = ProposalPhase::Preparing;
            ProposeTurn { pause_ms, step: ProposeStep::Prepare }
        } else {
            let entry = PxLogEntry {
                slot: p.slot,
                ballot: PxBallot::new(p.min_round, self.local_replica.id),
                term: p.base_term,
                payload: buffer_clone(&p.payload),
            };
            p.phase = ProposalPhase::Accepting { entry, foreign_value: false };
            ProposeTurn { pause_ms, step: ProposeStep::Accept }
        }
    }

    fn move_on(
        &mut self,
        p: &mut Proposal,
        error: PxPaxosError,
        same_slot: bool,
        min_round: u64,
        force_prepare: bool,
        pause_ms: u64,
    ) -> (turn: ProposeTurn)
        requires
            old(self).wf(),
            old(p).wf(),
            old(p).holds_permit(*old(self)),
            old(self).next_slot < u64::MAX,
        ensures
            final(self).wf(),
            turn.step is Finished || (final(p).wf() && final(p).holds_permit(*final(self))
                && final(p).budget() < old(p).budget() && final(p).attempt + final(p).slot_attempt
                > 0),
            moved_on(
                *old(self),
                *old(p),
                *final(self),
                *final(p),
                turn,
                error,
                same_slot,
                min_round,
                force_prepare,
                pause_ms as nat,
            ),
    {
        p.last_error = Some(error);
        if same_slot && p.attempt + 1 < MAX_PAXOS_RETRIES {
            p.attempt = p.attempt + 1;
            p.force_prepare = force_prepare;
            p.min_round = min_round;
            return self.start_attempt(p, pause_ms);
        }
        let slot: u64 = self.next_slot;
        self.next_slot = slot + 1;
        if p.slot_attempt + 1 < MAX_SLOT_RETRIES {
            p.slot = slot;
            p.base_term = self.local_replica.current_term;
            p.slot_attempt = p.slot_attempt + 1;
            p.attempt = 0;
            p.force_prepare = self.config.force_classic;
            p.min_round = 0;
            return self.start_attempt(p, pause_ms);
        }
        p.phase = ProposalPhase::Done;
        self.inflight.release(p.queue);
        ProposeTurn {
            pause_ms,
            step: ProposeStep::Finished(ProposeResult::Failed(exhausted_text(&p.last_error))),
        }
    }

    fn fail_phase(&mut self, p: &mut Proposal, error: PxPaxosError) -> (turn: ProposeTurn)
        requires
            old(self).wf(),
            old(p).wf(),
            old(p).holds_permit(*old(self)),
            old(self).next_slot < u64::MAX,
        ensures
            final(self).wf(),
            turn.step is Finished || (final(p).wf() && final(p).holds_permit(*final(self))
                && final(p).budget() < old(p).budget()),
            phase_failed(*old(self), *old(p), *final(self), *final(p), turn, error),
    {
        match error {
            PxPaxosError::TermStale { current_term } => {
                self.local_replica.become_follower(current_term);
                p.phase = ProposalPhase::Done;
                self.inflight.release(p.queue);
                ProposeTurn { pause_ms: 0, step: ProposeStep::Finished(self.not_leader()) }
            },
            PxPaxosError::MembershipEpochMismatch { responder_epoch } => {
                self.adopt_membership_epoch(responder_epoch);
                let pause: u64 = retry_backoff(p.attempt);
                let min_round: u64 = p.min_round;
                let force_prepare = p.force_prepare;
                self.move_on(p, error, true, min_round, force_prepare, pause)
            },
            _ => self.move_on(p, error, false, 0, false, 0),
        }
    }

    /// Go on after a prepare phase.
    pub fn on_prepare_attempt(&mut self, p: &mut Proposal, attempt: PrepareAttempt) -> (turn:
        ProposeTurn)
        requires
            old(self).wf(),
            old(p).wf(),
            old(p).phase is Preparing,
            old(p).holds_permit(*old(self)),
            old(self).next_slot < u64::MAX,
            attempt matches PrepareAttempt::Proceed { entry, .. } ==> entry.slot == old(p).slot,
        ensures
            final(self).wf(),
            turn.step is Finished || (final(p).wf() && final(p).holds_permit(*final(self))
                && final(p).budget() < old(p).budget()),
            prepare_taken(*old(self), *old(p), attempt@, *final(self), *final(p), turn),
            match attempt@ {
                PrepareAttemptView::Proceed { entry, foreign_value } => {
                    &&& turn.pause_ms == 0
                    &&& turn.step is Accept
                    &&& *final(self) == *old(self)
                    &&& *final(p) == (Proposal { phase: final(p).phase, ..*old(p) })
                    &&& final(p).phase matches ProposalPhase::Accepting { entry: e, foreign_value: f }
                        && e@ == entry && f == foreign_value
                },
                PrepareAttemptView::Retry { next_min_round, error } => moved_on(
                    *old(self),
                    *old(p),
                    *final(self),
                    *final(p),
                    turn,
                    error,
                    true,
                    next_min_round,
                    old(p).force_prepare,
                    spec_retry_backoff(old(p).attempt as nat),
                ),
                PrepareAttemptView::Fail { error } => phase_failed(
                    *old(self),
                    *old(p),
                    *final(self),
                    *final(p),
                    turn,
                    error,
                ),
            },
    {
        match attempt {
            PrepareAttempt::Proceed { entry, foreign_value } => {
                p.phase = ProposalPhase::Accepting { entry, foreign_value };
                ProposeTurn { pause_ms: 0, step: ProposeStep::Accept }
            },
            PrepareAttempt::Retry { next_min_round, error } => {
                let pause: u64 = retry_backoff(p.attempt);
                let force_prepare = p.force_prepare;
                self.move_on(p, error, true, next_min_round, force_prepare, pause)
            },
            PrepareAttempt::Fail { error } => self.fail_phase(p, error),
        }
    }

    /// Go on after an accept phase. A chosen entry is handed out, for the
    /// notices to the members; unless applying is left to the background, it
    /// is learned here. If it carries another proposer's value, the client's
    /// value goes to a new slot. The client's operations are recorded as done
    /// only where its own value was chosen.
    pub fn on_accept_attempt(&mut self, p: &mut Proposal, attempt: AcceptAttempt) -> (r: (
        ProposeTurn,
        Option<PxLogEntry>,
    ))
        requires
            old(self).wf(),
            old(p).wf(),
            old(p).phase is Accepting,
            old(p).holds_permit(*old(self)),
            old(self).next_slot < u64::MAX,
        ensures
            final(self).wf(),
            r.0.step is Finished || (final(p).wf() && final(p).holds_permit(*final(self))
                && final(p).budget() < old(p).budget()),
            accept_taken(*old(self), *old(p), attempt, *final(self), *final(p), r.0, r.1),
            match (attempt, old(p).phase) {
                (AcceptAttempt::Chosen, ProposalPhase::Accepting { entry, .. }) => {
                    &&& r.1 matches Some(e) && e@ == entry@
                    &&& chosen_outcome(
                        *old(self),
                        *old(p),
                        entry,
                        old(p).own_value(),
                        *final(self),
                        *final(p),
                        r.0,
                    )
                },
                (AcceptAttempt::Retry { next_min_round, error }, _) => {
                    &&& r.1 is None
                    &&& moved_on(
                        *old(self),
                        *old(p),
                        *final(self),
                        *final(p),
                        r.0,
                        error,
                        true,
                        next_min_round,
                        true,
                        spec_retry_backoff(old(p).attempt as nat),
                    )
                },
                (AcceptAttempt::Fail { error }, _) => {
                    &&& r.1 is None
                    &&& phase_failed(*old(self), *old(p), *final(self), *final(p), r.0, error)
                },
                _ => false,
            },
    {
        match attempt {
            AcceptAttempt::Chosen => {
                let own = p.carries_own_value();
                let chosen = match &p.phase {
                    ProposalPhase::Accepting { entry, .. } => Some(entry.clone()),
                    _ => None,
                };
                let tags: Vec<DedupTag> = p.accept_tags();
                if !self.config.async_engine_apply {
                    if let ProposalPhase::Accepting { entry, .. } = &p.phase {
                        self.local_replica.learn(entry, &tags);
                    }
                }
                let ghost g = *self;
                proof {
                    assert(chosen_learned(
                        *old(self),
                        g,
                        old(p).phase->entry,
                        tags_if(own, old(p).dedup_tags@),
                    ));
                }
                if own {
                    let slot: u64 = p.slot;
                    p.phase = ProposalPhase::Done;
                    self.inflight.release(p.queue);
                    (
                        ProposeTurn {
                            pause_ms: 0,
                            step: ProposeStep::Finished(ProposeResult::Chosen { slot }),
                        },
                        chosen,
                    )
                } else {
                    let error = PxPaxosError::ForeignValueChosen { slot: p.slot };
                    (self.move_on(p, error, false, 0, false, 0), chosen)
                }
            },
            AcceptAttempt::Retry { next_min_round, error } => {
                let pause: u64 = retry_backoff(p.attempt);
                (self.move_on(p, error, true, next_min_round, true, pause), None)
            },
            AcceptAttempt::Fail { error } => (self.fail_phase(p, error), None),
        }
    }
}

/// `tags` if the client's own value was chosen, and none otherwise.
pub open spec fn tags_if(own: bool, tags: Seq<DedupTag>) -> Seq<DedupTag> {
    if own {
        tags
    } else {
        Seq::empty()
    }
}

/// `g1` is `g0` after `entry` was chosen: the local replica has learned it with
/// `tags`, unless applying is left to the background.
pub open spec fn chosen_learned(
    g0: PxGroup,
    g1: PxGroup,
    entry: PxLogEntry,
    tags: Seq<DedupTag>,
) -> bool {
    if g0.config.async_engine_apply {
        g1 == g0
    } else {
        &&& learned(g0.local_replica.learner, g1.local_replica.learner, entry, tags)
        &&& g1.local_replica.wf()
        &&& g1.local_replica == (PxLocalReplica {
            learner: g1.local_replica.learner,
            highest_seen_slot: later(g0.local_replica.highest_seen_slot, entry.slot),
            ..g0.local_replica
        })
        &&& g1 == (PxGroup { local_replica: g1.local_replica, ..g0 })
    }
}

/// A proposal goes on after `entry` was chosen and learned: it is done at its
/// slot if the value is its own, and moves on to a new slot otherwise.
pub open spec fn chosen_outcome(
    g0: PxGroup,
    p0: Proposal,
    entry: PxLogEntry,
    own: bool,
    g1: PxGroup,
    p1: Proposal,
    turn: ProposeTurn,
) -> bool {
    exists|g: PxGroup| #[trigger]
        chosen_learned(g0, g, entry, tags_if(own, p0.dedup_tags@)) && if own {
            &&& turn.pause_ms == 0
            &&& turn.step matches ProposeStep::Finished(res) && res@ == (ProposeResultView::Chosen {
                slot: p0.slot,
            })
            &&& p1.phase is Done
            &&& g1.inflight.spec_occupied() == g.inflight.spec_occupied() - 1
            &&& g1.inflight.available@ == g.inflight.available@.update(
                p0.queue as int,
                (g.inflight.available@[p0.queue as int] + 1) as usize,
            )
            &&& g1 == (PxGroup { inflight: g1.inflight, ..g })
        } else {
            moved_on(
                g,
                p0,
                g1,
                p1,
                turn,
                PxPaxosError::ForeignValueChosen { slot: p0.slot },
                false,
                0,
                false,
                0,
            )
        }
}

/// A proposal that waits for an admission permit.
#[derive(Debug)]
pub struct WaitingProposal {
    pub payload: Bytes,
    pub dedup_tags: Vec<DedupTag>,
    pub queue: usize,
}

/// How a proposal starts.
#[derive(Debug)]
pub enum ProposeStart {
    /// It is over already.
    Finished(ProposeResult),
    /// It waits for a permit.
    Waiting(WaitingProposal),
    /// It is on its way, and this is its first turn.
    Running(Proposal, ProposeTurn),
    /// It was added to the batch that is being collected. The program arms the
    /// batch's timer if it is the first of its batch, and flushes the batch at
    /// once if it is full.
    Coalesced { arm_timer: bool, flush_now: bool },
}

/// `p` is a new proposal that took the next slot of `g`, and `turn` asks for
/// its first phase.
pub open spec fn proposal_started(
    g: PxGroup,
    p: Proposal,
    turn: ProposeTurn,
    payload: Seq<u8>,
    tags: Seq<DedupTag>,
    queue: usize,
) -> bool {
    &&& buffer_bytes(p.payload) == payload
    &&& p.dedup_tags@ == tags
    &&& p.queue == queue
    &&& p.quorum == g.cached_quorum
    &&& p.slot == g.next_slot
    &&& p.base_term == g.local_replica.current_term
    &&& p.slot_attempt == 0
    &&& p.attempt == 0
    &&& p.force_prepare == g.config.force_classic
    &&& p.min_round == 0
    &&& p.last_error is None
    &&& turn.pause_ms == 0
    &&& attempt_started(p, g.local_replica.id, turn)
}

impl PxGroup {
    fn launch(&mut self, payload: Bytes, dedup_tags: Vec<DedupTag>, queue: usize) -> (r: (
        Proposal,
        ProposeTurn,
    ))
        requires
            old(self).wf(),
            old(self).next_slot < u64::MAX,
            queue < old(self).inflight.queue_count,
            old(self).inflight.available@[queue as int] < old(self).inflight.window_per_queue,
        ensures
            final(self).wf(),
            *final(self) == (PxGroup {
                next_slot: (old(self).next_slot + 1) as u64,
                ..*old(self)
            }),
            r.0.wf(),
            r.0.holds_permit(*final(self)),
            proposal_started(*old(self), r.0, r.1, buffer_bytes(payload), dedup_tags@, queue),
    {
        let slot: u64 = self.next_slot;
        self.next_slot = slot + 1;
        let mut p = Proposal {
            payload,
            dedup_tags,
            queue,
            quorum: self.cached_quorum,
            slot,
            base_term: self.local_replica.current_term,
            slot_attempt: 0,
            attempt: 0,
            force_prepare: self.config.force_classic,
            min_round: 0,
            last_error: None,
            phase: ProposalPhase::Done,
        };
        let turn = self.start_attempt(&mut p, 0);
        (p, turn)
    }

    /// Start a proposal. It needs leadership and an admission permit, which it
    /// holds until its end; then it takes a slot.
    pub fn propose_inner(&mut self, payload: Bytes, dedup_tags: Vec<DedupTag>) -> (r: ProposeStart)
        requires
            old(self).wf(),
            old(self).may_propose() && old(self).inflight.grants_next() ==> old(self).next_slot
                < u64::MAX,
        ensures
            final(self).wf(),
            if !old(self).may_propose() {
                &&& r matches ProposeStart::Finished(res) && res@ == (ProposeResultView::NotLeader {
                    leader_hint: old(self).leader_hint(),
                })
                &&& *final(self) == *old(self)
            } else {
                let q = old(self).inflight.next_queue();
                &&& *final(self) == (PxGroup {
                    inflight: final(self).inflight,
                    next_slot: final(self).next_slot,
                    ..*old(self)
                })
                &&& asked(old(self).inflight, final(self).inflight)
                &&& if old(self).inflight.grants_next() {
                    &&& r matches ProposeStart::Running(p, turn) && {
                        &&& p.wf()
                        &&& p.holds_permit(*final(self))
                        &&& proposal_started(
                            *old(self),
                            p,
                            turn,
                            buffer_bytes(payload),
                            dedup_tags@,
                            q,
                        )
                    }
                    &&& final(self).next_slot == old(self).next_slot + 1
                } else {
                    &&& final(self).next_slot == old(self).next_slot
                    &&& match old(self).inflight.policy {
                        AdmissionPolicy::Reject => r matches ProposeStart::Finished(res) && res@
                            == ProposeResultView::Busy,
                        AdmissionPolicy::Queue => r matches ProposeStart::Waiting(w) && w.queue == q
                            && w.payload == payload && w.dedup_tags == dedup_tags,
                    }
                }
            },
    {
        if !self.gate_passed() {
            return ProposeStart::Finished(self.not_leader());
        }
        match self.inflight.acquire_permit() {
            Admission::Refused => ProposeStart::Finished(ProposeResult::Busy),
            Admission::Waiting { queue } => ProposeStart::Waiting(
                WaitingProposal { payload, dedup_tags, queue },
            ),
            Admission::Granted { queue } => {
                let (p, turn) = self.launch(payload, dedup_tags, queue);
                ProposeStart::Running(p, turn)
            },
        }
    }

    /// Start a proposal that waited `wait_us` for a permit of its queue, if one
    /// is free now.
    pub fn admit_waiting(&mut self, w: WaitingProposal, wait_us: u64) -> (r: ProposeStart)
        requires
            old(self).wf(),
            w.queue < old(self).inflight.queue_count,
            old(self).inflight.available@[w.queue as int] > 0 ==> old(self).next_slot < u64::MAX,
        ensures
            final(self).wf(),
            if old(self).inflight.available@[w.queue as int] > 0 {
                &&& r matches ProposeStart::Running(p, turn) && {
                    &&& p.wf()
                    &&& p.holds_permit(*final(self))
                    &&& proposal_started(
                        *old(self),
                        p,
                        turn,
                        buffer_bytes(w.payload),
                        w.dedup_tags@,
                        w.queue,
                    )
                }
                &&& final(self).next_slot == old(self).next_slot + 1
                &&& waited_for(old(self).inflight, final(self).inflight, w.queue, wait_us)
                &&& *final(self) == (PxGroup {
                    inflight: final(self).inflight,
                    next_slot: final(self).next_slot,
                    ..*old(self)
                })
            } else {
                &&& r == ProposeStart::Waiting(w)
                &&& *final(self) == *old(self)
            },
    {
        if !self.inflight.grant_waiting(w.queue, wait_us) {
            return ProposeStart::Waiting(w);
        }
        let (p, turn) = self.launch(w.payload, w.dedup_tags, w.queue);
        ProposeStart::Running(p, turn)
    }
}

// ── Laws of proposals ────────────────────────────────────────────
/// A proposal starts with a budget of at most twenty-five turns. Every turn
/// takes from it, so a proposal ends.
pub proof fn proposal_budget_is_small(p: Proposal)
    requires
        p.wf(),
    ensures
        0 < p.budget() <= 25,
{
}

/// Moving on takes from the budget.
pub proof fn moving_on_takes_from_the_budget(
    g0: PxGroup,
    p0: Proposal,
    g1: PxGroup,
    p1: Proposal,
    turn: ProposeTurn,
    error: PxPaxosError,
    same_slot: bool,
    min_round: u64,
    force_prepare: bool,
    pause_ms: nat,
)
    requires
        p0.wf(),
        moved_on(g0, p0, g1, p1, turn, error, same_slot, min_round, force_prepare, pause_ms),
        !(turn.step is Finished),
    ensures
        p1.budget() < p0.budget(),
{
}

/// A replica that stepped down for a later term proposes no more: its next
/// proposal is turned away, until it is elected again.
pub proof fn no_proposal_after_stepping_down(
    g0: PxGroup,
    p0: Proposal,
    g1: PxGroup,
    p1: Proposal,
    turn: ProposeTurn,
    term: u64,
)
    requires
        stepped_down(g0, p0, g1, p1, turn, term),
    ensures
        !g1.may_propose(),
        g1.local_replica.current_term >= g0.local_replica.current_term,
        g1.local_replica.current_term >= term,
{
}

/// A proposal is reported as chosen only at the end of an accept phase that
/// chose its own value: neither moving on, nor a failed phase, nor the choice
/// of another proposer's value ends in that report.
pub proof fn only_an_own_value_is_reported_as_chosen(
    g0: PxGroup,
    p0: Proposal,
    g1: PxGroup,
    p1: Proposal,
    turn: ProposeTurn,
    error: PxPaxosError,
    entry: PxLogEntry,
)
    requires
        phase_failed(g0, p0, g1, p1, turn, error) || chosen_outcome(
            g0,
            p0,
            entry,
            false,
            g1,
            p1,
            turn,
        ),
    ensures
        turn.step matches ProposeStep::Finished(r) ==> !(r@ is Chosen),
{
}

/// The pause behind an attempt is short at first and doubles with every
/// further attempt, until it stays the same.
pub proof fn backoff_doubles_up_to_a_limit(attempt: nat)
    ensures
        spec_retry_backoff(0) == 5,
        attempt < 6 ==> spec_retry_backoff(attempt + 1) == 2 * spec_retry_backoff(attempt),
        attempt >= 6 ==> spec_retry_backoff(attempt) == 320,
{
    reveal_with_fuel(doubled, 8);
}

/// A proposal whose own value was chosen is reported as chosen, at its slot.
/// Unless applying is left to the background, the entry is learned by then and
/// the client's operations are recorded with it.
pub proof fn chosen_own_value_is_reported(
    g0: PxGroup,
    p0: Proposal,
    entry: PxLogEntry,
    g1: PxGroup,
    p1: Proposal,
    turn: ProposeTurn,
)
    requires
        chosen_outcome(g0, p0, entry, true, g1, p1, turn),
    ensures
        turn.step matches ProposeStep::Finished(r) && r@ == (ProposeResultView::Chosen {
            slot: p0.slot,
        }),
        !g0.config.async_engine_apply ==> {
            &&& g1.local_replica.learner.chosen(entry.slot)
            &&& forall|tag: DedupTag| #[trigger]
                p0.dedup_tags@.contains(tag) && tag.client_id != 0 ==> dedup_slot(
                    g1.local_replica.learner.dedup(),
                    tag,
                ) == Some(entry.slot)
        },
{
    let g = choose|g: PxGroup| #[trigger]
        chosen_learned(g0, g, entry, tags_if(true, p0.dedup_tags@)) && {
            &&& turn.pause_ms == 0
            &&& turn.step matches ProposeStep::Finished(res) && res@ == (ProposeResultView::Chosen {
                slot: p0.slot,
            })
            &&& p1.phase is Done
            &&& g1.inflight.spec_occupied() == g.inflight.spec_occupied() - 1
            &&& g1.inflight.available@ == g.inflight.available@.update(
                p0.queue as int,
                (g.inflight.available@[p0.queue as int] + 1) as usize,
            )
            &&& g1 == (PxGroup { inflight: g1.inflight, ..g })
        };
    if !g0.config.async_engine_apply {
        assert forall|tag: DedupTag| #[trigger]
            p0.dedup_tags@.contains(tag) && tag.client_id != 0 implies dedup_slot(
            g1.local_replica.learner.dedup(),
            tag,
        ) == Some(entry.slot) by {
            recorded_operation_is_found(
                g0.local_replica.learner.dedup(),
                p0.dedup_tags@,
                entry.slot,
                tag,
            );
        }
    }
}

/// A proposal that meets another proposer's value is not over while it may
/// still take a slot: it goes on with its own value at a slot that nobody has
/// taken. The client's operations are not recorded with the other's value.
pub proof fn foreign_value_sends_the_proposal_on(
    g0: PxGroup,
    p0: Proposal,
    entry: PxLogEntry,
    g1: PxGroup,
    p1: Proposal,
    turn: ProposeTurn,
    tag: DedupTag,
)
    requires
        chosen_outcome(g0, p0, entry, false, g1, p1, turn),
        p0.slot_attempt < 2,
        g0.next_slot < u64::MAX,
    ensures
        !(turn.step is Finished),
        p1.payload == p0.payload,
        p1.dedup_tags == p0.dedup_tags,
        p1.slot == g0.next_slot,
        g1.next_slot == g0.next_slot + 1,
        dedup_slot(g1.local_replica.learner.dedup(), tag) == dedup_slot(
            g0.local_replica.learner.dedup(),
            tag,
        ),
{
    other_operations_stay_known(
        g0.local_replica.learner.dedup(),
        Seq::empty(),
        entry.slot,
        tag,
    );
}

/// An attempt that may be repeated is: the proposal tries its slot three
/// times, and takes three slots, before it gives up. It keeps its value, and
/// its permit for as long as it goes on; at its end the permit is given back.
pub proof fn proposal_tries_three_slots_three_times(
    g0: PxGroup,
    p0: Proposal,
    g1: PxGroup,
    p1: Proposal,
    turn: ProposeTurn,
    error: PxPaxosError,
    same_slot: bool,
    min_round: u64,
    force_prepare: bool,
    pause_ms: nat,
)
    requires
        p0.wf(),
        g0.next_slot < u64::MAX,
        moved_on(g0, p0, g1, p1, turn, error, same_slot, min_round, force_prepare, pause_ms),
    ensures
        p1.payload == p0.payload,
        same_slot && p0.attempt < 2 ==> {
            &&& !(turn.step is Finished)
            &&& p1.slot == p0.slot
            &&& p1.min_round == min_round
            &&& force_prepare ==> turn.step is Prepare
            &&& g1 == g0
        },
        !(same_slot && p0.attempt < 2) && p0.slot_attempt < 2 ==> {
            &&& !(turn.step is Finished)
            &&& p1.slot == g0.next_slot
            &&& p1.attempt == 0
            &&& g1.next_slot == g0.next_slot + 1
            &&& g1.inflight == g0.inflight
        },
        turn.step is Finished <==> !(same_slot && p0.attempt < 2) && p0.slot_attempt == 2,
        turn.step is Finished ==> g1.inflight.spec_occupied() == g0.inflight.spec_occupied() - 1,
{
}

/// A proposal starts with the accept phase of its value, at the next slot and
/// under the lowest ballot of this leader; where the classic rounds are forced
/// it starts with the prepare phase.
pub proof fn proposal_starts_without_a_prepare_phase(
    g: PxGroup,
    p: Proposal,
    turn: ProposeTurn,
    payload: Seq<u8>,
    tags: Seq<DedupTag>,
    queue: usize,
)
    requires
        proposal_started(g, p, turn, payload, tags, queue),
    ensures
        p.slot == g.next_slot,
        g.config.force_classic ==> turn.step is Prepare,
        !g.config.force_classic ==> turn.step is Accept && p.own_value() && (
        p.phase matches ProposalPhase::Accepting { entry, .. } && entry@ == (LogEntryView {
            slot: g.next_slot,
            ballot: PxBallot { round: 0, leader_id: g.local_replica.id },
            term: g.local_replica.current_term,
            payload,
        })),
{
}

/// A failed phase does not lose the proposal for nothing. A foreign membership
/// epoch is adopted where it is later, and the slot is tried again while
/// attempts are left. A later term ends the proposal, and the caller is told
/// that this replica does not lead. Any other failure goes on to a new slot
/// while there is one to take.
pub proof fn failed_phase_goes_on_where_it_can(
    g0: PxGroup,
    p0: Proposal,
    g1: PxGroup,
    p1: Proposal,
    turn: ProposeTurn,
    error: PxPaxosError,
)
    requires
        p0.wf(),
        g0.next_slot < u64::MAX,
        phase_failed(g0, p0, g1, p1, turn, error),
    ensures
        error matches PxPaxosError::MembershipEpochMismatch { responder_epoch } ==> {
            &&& g1.membership_epoch >= responder_epoch
            &&& g1.membership_epoch >= g0.membership_epoch
            &&& p0.attempt < 2 ==> !(turn.step is Finished) && p1.slot == p0.slot
        },
        error matches PxPaxosError::TermStale { current_term } ==> {
            &&& turn.step matches ProposeStep::Finished(r) && r@ is NotLeader
            &&& g1.local_replica.role is Follower
            &&& g1.local_replica.current_term >= current_term
        },
        !(error is TermStale) && p0.slot_attempt < 2 ==> !(turn.step is Finished),
        !(error is TermStale) && !(error is MembershipEpochMismatch) && p0.slot_attempt < 2
            ==> p1.slot == g0.next_slot,
        turn.step is Finished ==> g1.inflight.spec_occupied() == g0.inflight.spec_occupied() - 1,
{
}

/// A proposal whose own value was chosen is over: it gives its permit back to
/// its queue and to no other, and leaves the slots and the replica's term, role
/// and promises alone.
pub proof fn chosen_proposal_gives_its_permit_back(
    g0: PxGroup,
    p0: Proposal,
    entry: PxLogEntry,
    g1: PxGroup,
    p1: Proposal,
    turn: ProposeTurn,
    queue: int,
)
    requires
        chosen_outcome(g0, p0, entry, true, g1, p1, turn),
        p0.holds_permit(g0),
        g0.inflight.available@.len() == g0.inflight.queue_count,
        0 <= queue < g0.inflight.queue_count,
    ensures
        p1.phase is Done,
        turn.pause_ms == 0,
        g1.inflight.spec_occupied() == g0.inflight.spec_occupied() - 1,
        g1.inflight.available@[queue] == g0.inflight.available@[queue] + (if queue == p0.queue {
            1int
        } else {
            0
        }),
        g1.next_slot == g0.next_slot,
        g1.membership_epoch == g0.membership_epoch,
        g1.local_replica.role == g0.local_replica.role,
        g1.local_replica.current_term == g0.local_replica.current_term,
        g1.local_replica.voted_for == g0.local_replica.voted_for,
        g1.local_replica.acceptor == g0.local_replica.acceptor,
        g1.local_replica.highest_seen_slot >= g0.local_replica.highest_seen_slot,
{
}

/// A proposal that meets a later term is over: the replica follows in that term
/// without a leader, a vote of its own or a read lease, and the proposal's permit
/// is free again.
pub proof fn later_term_ends_the_proposal(
    g0: PxGroup,
    p0: Proposal,
    g1: PxGroup,
    p1: Proposal,
    turn: ProposeTurn,
    term: u64,
)
    requires
        stepped_down(g0, p0, g1, p1, turn, term),
        term > g0.local_replica.current_term,
        p0.holds_permit(g0),
        g0.inflight.available@.len() == g0.inflight.queue_count,
    ensures
        turn.step matches ProposeStep::Finished(r) && r@ is NotLeader,
        turn.pause_ms == 0,
        p1.phase is Done,
        g1.local_replica.role is Follower,
        g1.local_replica.current_term == term,
        g1.local_replica.voted_for is None,
        g1.local_replica.believed_leader is None,
        g1.local_replica.lease_read_until_ms == 0,
        g1.local_replica.learner == g0.local_replica.learner,
        g1.local_replica.acceptor == g0.local_replica.acceptor,
        g1.inflight.spec_occupied() == g0.inflight.spec_occupied() - 1,
        g1.inflight.available@[p0.queue as int] == g0.inflight.available@[p0.queue as int] + 1,
        g1.next_slot == g0.next_slot,
{
}

/// A proposal that moves on keeps its payload, its tags, its queue and its
/// quorum. At the slot that it has it makes the next attempt, in the term in
/// which it took the slot; at a new slot it starts over, in the replica's
/// present term. It ends, with its permit given back, only when no slot is left.
pub proof fn proposal_moves_on_with_what_it_has(
    g0: PxGroup,
    p0: Proposal,
    g1: PxGroup,
    p1: Proposal,
    turn: ProposeTurn,
    error: PxPaxosError,
    same_slot: bool,
    min_round: u64,
    force_prepare: bool,
    pause_ms: nat,
)
    requires
        moved_on(g0, p0, g1, p1, turn, error, same_slot, min_round, force_prepare, pause_ms),
        p0.holds_permit(g0),
        g0.inflight.available@.len() == g0.inflight.queue_count,
        g0.next_slot < u64::MAX,
    ensures
        p1.payload == p0.payload && p1.dedup_tags == p0.dedup_tags,
        p1.queue == p0.queue && p1.quorum == p0.quorum,
        p1.last_error == Some(error),
        turn.pause_ms == pause_ms,
        same_slot && p0.attempt < 2 ==> {
            &&& g1 == g0
            &&& p1.slot == p0.slot && p1.base_term == p0.base_term
            &&& p1.attempt == p0.attempt + 1 && p1.slot_attempt == p0.slot_attempt
            &&& p1.min_round == min_round
            &&& force_prepare ==> p1.phase is Preparing && turn.step is Prepare
            &&& !force_prepare ==> turn.step is Accept && p1.own_value()
        },
        !(same_slot && p0.attempt < 2) ==> g1.next_slot == g0.next_slot + 1,
        !(same_slot && p0.attempt < 2) && p0.slot_attempt < 2 ==> {
            &&& p1.slot == g0.next_slot && p1.base_term == g0.local_replica.current_term
            &&& p1.attempt == 0 && p1.slot_attempt == p0.slot_attempt + 1
            &&& p1.min_round == 0
            &&& g0.config.force_classic ==> p1.phase is Preparing && turn.step is Prepare
            &&& !g0.config.force_classic ==> turn.step is Accept && p1.own_value() && (
            p1.phase matches ProposalPhase::Accepting { entry, .. } && entry@.slot == g0.next_slot
                && entry@.ballot.round == 0 && entry@.payload == buffer_bytes(p0.payload))
            &&& g1.inflight == g0.inflight
        },
        !(same_slot && p0.attempt < 2) && p0.slot_attempt >= 2 ==> {
            &&& p1.phase is Done
            &&& turn.step matches ProposeStep::Finished(r) && r@ is Failed
            &&& g1.inflight.spec_occupied() == g0.inflight.spec_occupied() - 1
            &&& g1.inflight.available@[p0.queue as int] == g0.inflight.available@[p0.queue as int]
                + 1
        },
{
}

/// What the end of an accept phase makes of a group and a proposal; `handed` is
/// the entry whose choice is to be told to the members.
pub open spec fn accept_taken(
    g0: PxGroup,
    p0: Proposal,
    attempt: AcceptAttempt,
    g1: PxGroup,
    p1: Proposal,
    turn: ProposeTurn,
    handed: Option<PxLogEntry>,
) -> bool {
    match attempt {
        AcceptAttempt::Chosen => {
            &&& p0.phase matches ProposalPhase::Accepting { entry, .. }
            &&& handed matches Some(e)
            &&& e@ == entry@
            &&& chosen_outcome(g0, p0, entry, p0.own_value(), g1, p1, turn)
        },
        AcceptAttempt::Retry { next_min_round, error } => {
            &&& handed is None
            &&& moved_on(
                g0,
                p0,
                g1,
                p1,
                turn,
                error,
                true,
                next_min_round,
                true,
                spec_retry_backoff(p0.attempt as nat),
            )
        },
        AcceptAttempt::Fail { error } => {
            &&& handed is None
            &&& phase_failed(g0, p0, g1, p1, turn, error)
        },
    }
}

/// What the end of a prepare phase makes of a group and a proposal.
pub open spec fn prepare_taken(
    g0: PxGroup,
    p0: Proposal,
    attempt: PrepareAttemptView,
    g1: PxGroup,
    p1: Proposal,
    turn: ProposeTurn,
) -> bool {
    match attempt {
        PrepareAttemptView::Proceed { entry, foreign_value } => {
            &&& turn.pause_ms == 0
            &&& turn.step is Accept
            &&& g1 == g0
            &&& p1 == (Proposal { phase: p1.phase, ..p0 })
            &&& p1.phase matches ProposalPhase::Accepting { entry: e, foreign_value: f } && e@
                == entry && f == foreign_value
        },
        PrepareAttemptView::Retry { next_min_round, error } => moved_on(
            g0,
            p0,
            g1,
            p1,
            turn,
            error,
            true,
            next_min_round,
            p0.force_prepare,
            spec_retry_backoff(p0.attempt as nat),
        ),
        PrepareAttemptView::Fail { error } => phase_failed(g0, p0, g1, p1, turn, error),
    }
}

/// A choice is told to the members, and nothing else is. An own value that was
/// chosen ends the proposal as chosen at its slot.
pub proof fn choice_is_handed_out(
    g0: PxGroup,
    p0: Proposal,
    attempt: AcceptAttempt,
    g1: PxGroup,
    p1: Proposal,
    turn: ProposeTurn,
    handed: Option<PxLogEntry>,
)
    requires
        accept_taken(g0, p0, attempt, g1, p1, turn, handed),
    ensures
        attempt is Chosen <==> handed is Some,
        attempt is Chosen ==> (p0.phase matches ProposalPhase::Accepting { entry, .. }
            && handed->Some_0@ == entry@),
        attempt is Chosen && p0.own_value() ==> (turn.step matches ProposeStep::Finished(r) && r@
            == (ProposeResultView::Chosen { slot: p0.slot })),
{
}

/// An accept phase that met a higher ballot is followed by a prepare phase at the
/// same slot, above that ballot, while attempts are left. Nothing is taken from
/// the group for it.
pub proof fn rejected_accept_phase_is_prepared_anew(
    g0: PxGroup,
    p0: Proposal,
    next_min_round: u64,
    error: PxPaxosError,
    g1: PxGroup,
    p1: Proposal,
    turn: ProposeTurn,
    handed: Option<PxLogEntry>,
)
    requires
        accept_taken(
            g0,
            p0,
            AcceptAttempt::Retry { next_min_round, error },
            g1,
            p1,
            turn,
            handed,
        ),
        p0.attempt < 2,
    ensures
        g1 == g0,
        p1.slot == p0.slot,
        p1.payload == p0.payload,
        p1.min_round == next_min_round,
        p1.phase is Preparing,
        turn.step is Prepare,
        handed is None,
{
}

/// The entry that a prepare phase ends with is what the members are asked to
/// accept next, at the same slot and for the same proposal.
pub proof fn prepared_entry_is_put_to_the_members(
    g0: PxGroup,
    p0: Proposal,
    entry: LogEntryView,
    foreign_value: bool,
    g1: PxGroup,
    p1: Proposal,
    turn: ProposeTurn,
)
    requires
        prepare_taken(
            g0,
            p0,
            PrepareAttemptView::Proceed { entry, foreign_value },
            g1,
            p1,
            turn,
        ),
    ensures
        turn.step is Accept,
        turn.pause_ms == 0,
        g1 == g0,
        p1.phase matches ProposalPhase::Accepting { entry: e, foreign_value: f } && e@ == entry && f
            == foreign_value,
        p1.slot == p0.slot && p1.payload == p0.payload && p1.queue == p0.queue,
        p1.attempt == p0.attempt && p1.slot_attempt == p0.slot_attempt,
        foreign_value ==> !p1.own_value(),
{
}

} // verus!
