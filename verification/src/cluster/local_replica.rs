//! The local member of a group: acceptor, learner, and election state.

use crate::cluster::health::HealthReport;
use crate::cluster::phases::PrepareReplyView;
use crate::cluster::replica::{Replica, StepDownReply, StepDownRequestPayload};
use crate::cluster::shutdown::ShutdownReport;
use crate::cluster::snapshot::{KvStoreSnapshot, LocalReplicaSnapshot};
use crate::cluster::status::{KvStoreStatus, ReplicaStatus, StatusLevel};
use crate::common::text::{concat3, dec, decimal, texts};
use crate::engine::store_engine::{live_count, Engine, EntryView};
use crate::paxos::acceptor::{
    acceptance_is_answered_truly, promise_is_answered_truly, PxAcceptor, SlotView,
};
use crate::paxos::learner::{learned, PxLearner};
use crate::paxos::roles::{
    entry_opt_view, DedupTag, LogEntryView, PxAcceptReply, PxBallot, PxLogEntry, PxPrepareReply,
};
use crate::paxos::PxNodeId;
use vstd::prelude::*;

verus! {

/// Role of a replica in its group.
#[derive(Clone, Copy, Debug, PartialEq, Eq, Structural)]
pub enum PxLocalReplicaRole {
    /// Drives the two phases and tracks quorums.
    Leader,
    /// Serves the acceptor's side only.
    Follower,
    /// Asks whether an election would succeed.
    PreCandidate,
    /// Runs for election.
    Candidate,
}

impl PxLocalReplicaRole {
    pub open spec fn name(self) -> Seq<char> {
        match self {
            PxLocalReplicaRole::Leader => "leader"@,
            _ => "follower"@,
        }
    }

    /// Role shown to operators: leader or not.
    pub fn as_str(self) -> (s: &'static str)
        ensures
            s@ == self.name(),
    {
        match self {
            PxLocalReplicaRole::Leader => "leader",
            _ => "follower",
        }
    }
}

/// Why leaders stepped down, and how often.
#[derive(Clone, Copy, Debug, PartialEq, Eq, Structural)]
pub struct ElectionMetrics {
    pub step_down_higher_term: u64,
    pub step_down_lease_unrenewable: u64,
    pub step_down_admin: u64,
}

/// The local member of a group.
#[derive(Debug)]
pub struct PxLocalReplica {
    pub id: u64,
    pub role: PxLocalReplicaRole,
    pub acceptor: PxAcceptor,
    pub learner: PxLearner,
    pub voting: bool,
    pub shutdown_started: bool,
    /// Where peers reach this replica, once its server runs.
    pub own_endpoint: Option<String>,
    pub current_term: u64,
    /// Candidate that got this replica's vote in the current term.
    pub voted_for: Option<PxNodeId>,
    /// The leader, as far as this replica knows.
    pub believed_leader: Option<PxNodeId>,
    /// Highest slot seen in any request.
    pub highest_seen_slot: u64,
    /// Slot up to which the local log is durably snapshotted; `None` without a log.
    pub durable_snapshot: Option<u64>,
    /// End of the lease under which this replica may serve reads as leader.
    pub lease_read_until_ms: u64,
    /// When a heartbeat round last reached a quorum.
    pub last_quorum_heartbeat_ms: u64,
    /// An operator asked this replica to step down.
    pub admin_step_down: bool,
    pub election_metrics: ElectionMetrics,
}

impl Replica for PxLocalReplica {
    open spec fn spec_id(&self) -> u64 {
        self.id
    }

    open spec fn spec_endpoint(&self) -> Option<Seq<char>> {
        None
    }

    open spec fn spec_voting(&self) -> bool {
        self.voting
    }

    fn id(&self) -> (r: u64) {
        self.id
    }

    /// The local replica is called in process.
    fn endpoint(&self) -> (r: Option<&str>) {
        None
    }

    fn voting(&self) -> (r: bool) {
        self.voting
    }
}

impl PxLocalReplica {
    /// The learner's state is consistent.
    pub open spec fn wf(&self) -> bool {
        self.learner.wf()
    }

    /// This is a voting replica in term 0 that knows of nothing.
    pub open spec fn is_new(&self, id: u64, role: PxLocalReplicaRole) -> bool {
        &&& self.id == id
        &&& self.role == role
        &&& self.voting
        &&& !self.shutdown_started
        &&& self.own_endpoint is None
        &&& self.current_term == 0
        &&& self.voted_for is None
        &&& self.believed_leader == if role is Leader {
            Some(id)
        } else {
            None::<u64>
        }
        &&& self.highest_seen_slot == 0
        &&& self.durable_snapshot is None
        &&& self.lease_read_until_ms == 0
        &&& self.last_quorum_heartbeat_ms == 0
        &&& !self.admin_step_down
        &&& self.learner.frontier() == 0
        &&& self.learner.last_slot() == 0
        &&& self.learner.last_term() == 0
        &&& self.learner.entries() == Seq::<EntryView>::empty()
        &&& self.learner.dedup() == Seq::<(DedupTag, u64)>::empty()
        &&& forall|s: u64| #[trigger] self.acceptor.promised(s) is None
        &&& forall|s: u64| #[trigger] self.acceptor.accepted(s) is None
        &&& forall|s: u64| !#[trigger] self.learner.chosen(s)
        &&& self.election_metrics == (ElectionMetrics {
            step_down_higher_term: 0,
            step_down_lease_unrenewable: 0,
            step_down_admin: 0,
        })
    }

    /// A voting replica in term 0 that knows of nothing.
    pub fn new(id: u64, role: PxLocalReplicaRole) -> (r: Self)
        ensures
            r.wf(),
            r.is_new(id, role),
    {
        PxLocalReplica {
            id,
            role,
            acceptor: PxAcceptor::new(),
            learner: PxLearner::new(),
            voting: true,
            shutdown_started: false,
            own_endpoint: None,
            current_term: 0,
            voted_for: None,
            believed_leader: match role {
                PxLocalReplicaRole::Leader => Some(id),
                _ => None,
            },
            highest_seen_slot: 0,
            durable_snapshot: None,
            lease_read_until_ms: 0,
            last_quorum_heartbeat_ms: 0,
            admin_step_down: false,
            election_metrics: ElectionMetrics {
                step_down_higher_term: 0,
                step_down_lease_unrenewable: 0,
                step_down_admin: 0,
            },
        }
    }

    /// The same replica with the given voting right.
    pub fn with_voting(self, voting: bool) -> (r: Self)
        ensures
            r == (PxLocalReplica { voting, ..self }),
    {
        let mut r = self;
        r.voting = voting;
        r
    }

    /// Shut the replica down. Its report is always clean; later calls do nothing.
    pub fn shutdown(&mut self) -> (r: ShutdownReport)
        ensures
            r.errors@ == Seq::<String>::empty(),
            *final(self) == (PxLocalReplica { shutdown_started: true, ..*old(self) }),
    {
        self.shutdown_started = true;
        ShutdownReport::new()
    }

    /// Whether this replica leads its group.
    pub fn is_leader(&self) -> (r: bool)
        ensures
            r == (self.role is Leader),
    {
        self.role == PxLocalReplicaRole::Leader
    }

    pub fn set_role(&mut self, role: PxLocalReplicaRole)
        ensures
            *final(self) == (PxLocalReplica { role, ..*old(self) }),
    {
        self.role = role;
    }

    /// Where peers reach this replica.
    pub fn set_endpoint(&mut self, endpoint: String)
        ensures
            *final(self) == (PxLocalReplica { own_endpoint: Some(endpoint), ..*old(self) }),
    {
        self.own_endpoint = Some(endpoint);
    }

    /// Snapshot for the topology report.
    pub fn snapshot(&self) -> (s: LocalReplicaSnapshot)
        ensures
            s.id == self.id,
            s.role@ == self.role.name(),
            s.voting == self.voting,
            s.kv_store.key_count == live_count(self.learner.entries()),
    {
        LocalReplicaSnapshot {
            id: self.id,
            role: self.role.as_str(),
            voting: self.voting,
            kv_store: KvStoreSnapshot {
                key_count: self.learner.engine().live_key_count() as u64,
            },
        }
    }

    /// What a replica that has been shut down is reported with.
    pub open spec fn shut_down_message(self) -> Seq<char> {
        "local replica "@ + dec(self.id as nat) + " has been shut down"@
    }

    fn shut_down_text(&self) -> (s: String)
        ensures
            s@ == self.shut_down_message(),
    {
        let id: String = decimal(self.id);
        concat3("local replica ", id.as_str(), " has been shut down")
    }

    /// Unhealthy once it has been shut down, healthy before.
    pub fn health(&self) -> (r: HealthReport)
        ensures
            if self.shutdown_started {
                r.status is Unhealthy && texts(r.messages@) == seq![self.shut_down_message()]
            } else {
                r.status is Healthy && r.messages@ == Seq::<String>::empty()
            },
    {
        if self.shutdown_started {
            let r = HealthReport::unhealthy(self.shut_down_text());
            proof {
                assert(texts(r.messages@) =~= seq![self.shut_down_message()]);
            }
            r
        } else {
            HealthReport::ok()
        }
    }

    /// `s` is the status of this replica.
    pub open spec fn reported_by(&self, s: ReplicaStatus) -> bool {
        &&& s.id == self.id
        &&& s.role@ == self.role.name()
        &&& s.voting == self.voting
        &&& s.status == if self.shutdown_started {
            StatusLevel::Unhealthy
        } else {
            StatusLevel::Healthy
        }
        &&& texts(s.messages@) == if self.shutdown_started {
            seq![self.shut_down_message()]
        } else {
            Seq::<Seq<char>>::empty()
        }
        &&& s.kv_store.key_count == live_count(self.learner.entries())
        &&& s.kv_store.engine_healthy
        &&& s.kv_store.crowtree_stats is None
    }

    /// Status of this replica.
    pub fn status(&self) -> (s: ReplicaStatus)
        ensures
            self.reported_by(s),
    {
        let mut messages: Vec<String> = Vec::new();
        proof {
            assert(texts(messages@) =~= Seq::empty());
        }
        let mut status = StatusLevel::Healthy;
        if self.shutdown_started {
            status = StatusLevel::Unhealthy;
            messages.push(self.shut_down_text());
            proof {
                assert(texts(messages@) =~= seq![self.shut_down_message()]);
            }
        }
        ReplicaStatus {
            id: self.id,
            role: self.role.as_str().to_owned(),
            voting: self.voting,
            status,
            messages,
            kv_store: KvStoreStatus {
                key_count: self.learner.engine().live_key_count() as u64,
                engine_healthy: true,
                crowtree_stats: None,
            },
        }
    }

    /// The answer to a phase-1 request of a proposer in `term`.
    pub open spec fn prepare_answer(
        &self,
        slot: u64,
        ballot: PxBallot,
        term: u64,
    ) -> PrepareReplyView {
        if term < self.current_term {
            PrepareReplyView::TermStale { slot, new_term: self.current_term }
        } else {
            self.acceptor.slot(slot).prepare_answer(slot, ballot)
        }
    }

    /// The slot after a phase-1 request of a proposer in `term`.
    pub open spec fn slot_prepared(&self, slot: u64, ballot: PxBallot, term: u64) -> SlotView {
        if term < self.current_term {
            self.acceptor.slot(slot)
        } else {
            self.acceptor.slot(slot).prepared(ballot)
        }
    }

    /// The answer to a phase-2 request.
    pub open spec fn accept_answer(&self, entry: LogEntryView) -> PxAcceptReply {
        if entry.term < self.current_term {
            PxAcceptReply::TermStale { slot: entry.slot, new_term: self.current_term }
        } else {
            self.acceptor.slot(entry.slot).accept_answer(entry.slot, entry.ballot)
        }
    }

    /// The slot after a phase-2 request.
    pub open spec fn slot_accepted(&self, entry: LogEntryView) -> SlotView {
        if entry.term < self.current_term {
            self.acceptor.slot(entry.slot)
        } else {
            self.acceptor.slot(entry.slot).after_accept(entry)
        }
    }

    /// Phase-1 handler. A proposer of an earlier term is told the current one.
    pub fn on_prepare(&mut self, slot: u64, ballot: PxBallot, term: u64) -> (reply: PxPrepareReply)
        ensures
            *final(self) == (PxLocalReplica { acceptor: final(self).acceptor, ..*old(self) }),
            reply@ == old(self).prepare_answer(slot, ballot, term),
            final(self).acceptor.slot(slot) == old(self).slot_prepared(slot, ballot, term),
            if term < old(self).current_term {
                &&& reply@ == (PrepareReplyView::TermStale {
                    slot,
                    new_term: old(self).current_term,
                })
                &&& final(self).acceptor == old(self).acceptor
            } else {
                match old(self).acceptor.promised(slot) {
                    Some(p) if !ballot.above(p) => {
                        &&& reply@ == (PrepareReplyView::Rejected { slot, current_promised: p })
                        &&& final(self).acceptor.promised(slot) == Some(p)
                    },
                    _ => {
                        &&& reply@ == (PrepareReplyView::Promised {
                            slot,
                            accepted: old(self).acceptor.accepted(slot),
                        })
                        &&& final(self).acceptor.promised(slot) == Some(ballot)
                    },
                }
            },
            forall|s: u64| #[trigger]
                final(self).acceptor.accepted(s) == old(self).acceptor.accepted(s),
            forall|s: u64|
                s != slot ==> #[trigger] final(self).acceptor.promised(s) == old(
                    self,
                ).acceptor.promised(s),
    {
        if term < self.current_term {
            return PxPrepareReply::TermStale { slot, new_term: self.current_term };
        }
        self.acceptor.prepare(slot, ballot)
    }

    /// Phase-2 handler. A proposer of an earlier term is told the current one.
    pub fn on_accept(&mut self, entry: &PxLogEntry) -> (reply: PxAcceptReply)
        ensures
            *final(self) == (PxLocalReplica {
                acceptor: final(self).acceptor,
                highest_seen_slot: final(self).highest_seen_slot,
                ..*old(self)
            }),
            reply == old(self).accept_answer(entry@),
            final(self).acceptor.slot(entry.slot) == old(self).slot_accepted(entry@),
            if entry.term < old(self).current_term {
                &&& reply == (PxAcceptReply::TermStale {
                    slot: entry.slot,
                    new_term: old(self).current_term,
                })
                &&& *final(self) == *old(self)
            } else {
                &&& match old(self).acceptor.promised(entry.slot) {
                    Some(p) if p.above(entry.ballot) => {
                        &&& reply == (PxAcceptReply::Rejected { slot: entry.slot, current_promised: p })
                        &&& final(self).acceptor.promised(entry.slot) == Some(p)
                        &&& final(self).acceptor.accepted(entry.slot) == old(
                            self,
                        ).acceptor.accepted(entry.slot)
                    },
                    _ => {
                        &&& reply == (PxAcceptReply::Accepted {
                            slot: entry.slot,
                            ballot: entry.ballot,
                        })
                        &&& final(self).acceptor.promised(entry.slot) == Some(entry.ballot)
                        &&& final(self).acceptor.accepted(entry.slot) == Some(entry@)
                    },
                }
                &&& final(self).highest_seen_slot == if entry.slot > old(self).highest_seen_slot {
                    entry.slot
                } else {
                    old(self).highest_seen_slot
                }
            },
            forall|s: u64|
                s != entry.slot ==> #[trigger] final(self).acceptor.accepted(s) == old(
                    self,
                ).acceptor.accepted(s),
            forall|s: u64|
                s != entry.slot ==> #[trigger] final(self).acceptor.promised(s) == old(
                    self,
                ).acceptor.promised(s),
    {
        if entry.term < self.current_term {
            return PxAcceptReply::TermStale { slot: entry.slot, new_term: self.current_term };
        }
        if entry.slot > self.highest_seen_slot {
            self.highest_seen_slot = entry.slot;
        }
        self.acceptor.accept(entry)
    }

    /// Learn a chosen entry.
    pub fn learn(&mut self, entry: &PxLogEntry, tags: &Vec<DedupTag>)
        requires
            old(self).wf(),
            entry.slot > 0,
        ensures
            final(self).wf(),
            *final(self) == (PxLocalReplica {
                learner: final(self).learner,
                highest_seen_slot: if entry.slot > old(self).highest_seen_slot {
                    entry.slot
                } else {
                    old(self).highest_seen_slot
                },
                ..*old(self)
            }),
            learned(old(self).learner, final(self).learner, *entry, tags@),
    {
        if entry.slot > self.highest_seen_slot {
            self.highest_seen_slot = entry.slot;
        }
        self.learner.learn(entry, tags);
    }

    /// The entry accepted at `slot`, if any.
    pub fn accepted_at(&self, slot: u64) -> (r: Option<PxLogEntry>)
        ensures
            entry_opt_view(r) == self.acceptor.accepted(slot),
    {
        self.acceptor.accepted_at(slot)
    }

    /// The ballot promised at `slot`, if any.
    pub fn promised_at(&self, slot: u64) -> (r: Option<PxBallot>)
        ensures
            r == self.acceptor.promised(slot),
    {
        self.acceptor.promised_at(slot)
    }

    /// Become a follower in `term`, or in the current term if that is later.
    /// The vote is kept within a term; the lease and the known leader are not.
    pub fn become_follower(&mut self, term: u64)
        ensures
            *final(self) == (PxLocalReplica {
                role: PxLocalReplicaRole::Follower,
                current_term: if term > old(self).current_term {
                    term
                } else {
                    old(self).current_term
                },
                voted_for: if term > old(self).current_term {
                    None
                } else {
                    old(self).voted_for
                },
                believed_leader: None,
                lease_read_until_ms: 0,
                ..*old(self)
            }),
    {
        if term > self.current_term {
            self.current_term = term;
            self.voted_for = None;
        }
        self.role = PxLocalReplicaRole::Follower;
        self.believed_leader = None;
        self.lease_read_until_ms = 0;
    }

    /// Ask for pre-votes.
    pub fn become_precandidate(&mut self)
        ensures
            *final(self) == (PxLocalReplica {
                role: PxLocalReplicaRole::PreCandidate,
                ..*old(self)
            }),
    {
        self.role = PxLocalReplicaRole::PreCandidate;
    }

    /// Run for election in `term`, with this replica's own vote.
    pub fn become_candidate(&mut self, term: u64)
        requires
            term > old(self).current_term,
        ensures
            *final(self) == (PxLocalReplica {
                role: PxLocalReplicaRole::Candidate,
                current_term: term,
                voted_for: Some(old(self).id),
                believed_leader: None,
                ..*old(self)
            }),
    {
        self.role = PxLocalReplicaRole::Candidate;
        self.current_term = term;
        self.voted_for = Some(self.id);
        self.believed_leader = None;
    }

    /// Lead the group in the current term.
    pub fn become_leader(&mut self)
        ensures
            *final(self) == (PxLocalReplica {
                role: PxLocalReplicaRole::Leader,
                believed_leader: Some(old(self).id),
                ..*old(self)
            }),
    {
        self.role = PxLocalReplicaRole::Leader;
        self.believed_leader = Some(self.id);
    }

    /// Handle a step-down request. It is accepted only if it names this
    /// replica, in its current term, while it leads; then the term is kept and
    /// the driver is told.
    pub fn handle_step_down(&mut self, req: &StepDownRequestPayload) -> (r: StepDownReply)
        ensures
            step_down_answered(*old(self), *final(self), req.term, req.target_leader_id, r),
            r.accepted == (old(self).role is Leader && req.term == old(self).current_term
                && req.target_leader_id == old(self).id),
            r.current_term == old(self).current_term,
            r.current_leader_id == match final(self).believed_leader {
                Some(l) => l,
                None => 0,
            },
            if r.accepted {
                *final(self) == (PxLocalReplica {
                    role: PxLocalReplicaRole::Follower,
                    believed_leader: None,
                    lease_read_until_ms: 0,
                    admin_step_down: true,
                    ..*old(self)
                })
            } else {
                *final(self) == *old(self)
            },
    {
        let accepted = self.is_leader() && req.term == self.current_term && req.target_leader_id
            == self.id;
        if accepted {
            let term: u64 = self.current_term;
            self.become_follower(term);
            self.admin_step_down = true;
        }
        StepDownReply {
            accepted,
            current_term: self.current_term,
            current_leader_id: match self.believed_leader {
                Some(l) => l,
                None => 0,
            },
        }
    }

    /// Start a tenure without a lease.
    pub fn reset_lease_to(&mut self, now_ms: u64)
        ensures
            *final(self) == (PxLocalReplica {
                lease_read_until_ms: 0,
                last_quorum_heartbeat_ms: now_ms,
                ..*old(self)
            }),
    {
        self.lease_read_until_ms = 0;
        self.last_quorum_heartbeat_ms = now_ms;
    }

    /// Extend the read lease; it never gets shorter.
    pub fn extend_lease_read_until(&mut self, until_ms: u64)
        ensures
            *final(self) == (PxLocalReplica {
                lease_read_until_ms: if until_ms > old(self).lease_read_until_ms {
                    until_ms
                } else {
                    old(self).lease_read_until_ms
                },
                ..*old(self)
            }),
    {
        if until_ms > self.lease_read_until_ms {
            self.lease_read_until_ms = until_ms;
        }
    }

    /// Note a heartbeat quorum; the time never goes back.
    pub fn record_quorum_heartbeat(&mut self, now_ms: u64)
        ensures
            *final(self) == (PxLocalReplica {
                last_quorum_heartbeat_ms: if now_ms > old(self).last_quorum_heartbeat_ms {
                    now_ms
                } else {
                    old(self).last_quorum_heartbeat_ms
                },
                ..*old(self)
            }),
    {
        if now_ms > self.last_quorum_heartbeat_ms {
            self.last_quorum_heartbeat_ms = now_ms;
        }
    }

    /// A copy of the identity and election state of `prior`, with its acceptor
    /// and learner taken over.
    pub fn new_inheriting_election_state(prior: PxLocalReplica) -> (r: Self)
        ensures
            r == (PxLocalReplica { shutdown_started: false, admin_step_down: false, ..prior }),
    {
        let mut r = prior;
        r.shutdown_started = false;
        r.admin_step_down = false;
        r
    }

    /// Highest slot up to which every slot is chosen.
    pub fn contiguous_chosen(&self) -> (s: u64)
        ensures
            s == self.learner.frontier(),
    {
        self.learner.contiguous_chosen()
    }

    /// Highest slot up to which every slot is applied to the engine.
    pub fn contiguous_applied(&self) -> (s: u64)
        ensures
            s == self.learner.frontier(),
    {
        self.learner.contiguous_chosen()
    }

    /// Highest chosen slot, `0` if none.
    pub fn last_chosen_slot(&self) -> (s: u64)
        ensures
            s == self.learner.last_slot(),
    {
        self.learner.last_chosen_slot()
    }
}

// ── Laws of the phase handlers ───────────────────────────────────
/// A replica turns away the proposers of earlier terms, tells them its own
/// term, and changes nothing for them. To all others it answers as its
/// acceptor does; it never speaks of epochs.
pub proof fn earlier_terms_are_turned_away(
    r: PxLocalReplica,
    slot: u64,
    ballot: PxBallot,
    term: u64,
    entry: LogEntryView,
)
    ensures
        term < r.current_term ==> r.prepare_answer(slot, ballot, term)
            == (PrepareReplyView::TermStale { slot, new_term: r.current_term }) && r.slot_prepared(
            slot,
            ballot,
            term,
        ) == r.acceptor.slot(slot),
        term >= r.current_term ==> !(r.prepare_answer(slot, ballot, term) is TermStale),
        entry.term < r.current_term ==> r.accept_answer(entry) == (PxAcceptReply::TermStale {
            slot: entry.slot,
            new_term: r.current_term,
        }) && r.slot_accepted(entry) == r.acceptor.slot(entry.slot),
        entry.term >= r.current_term ==> !(r.accept_answer(entry) is TermStale),
        !(r.prepare_answer(slot, ballot, term) is EpochMismatch),
        !(r.accept_answer(entry) is EpochMismatch),
{
}

/// A replica that is not in a later term promises every ballot above what it
/// promised at the slot, and accepts an entry of the ballot that it promised,
/// or of any ballot where it promised none.
pub proof fn proposer_of_the_term_is_served(
    r: PxLocalReplica,
    slot: u64,
    ballot: PxBallot,
    term: u64,
    entry: LogEntryView,
)
    requires
        term >= r.current_term,
        entry.term >= r.current_term,
    ensures
        (r.acceptor.promised(slot) matches Some(p) ==> ballot.above(p)) ==> {
            &&& r.prepare_answer(slot, ballot, term) == (PrepareReplyView::Promised {
                slot,
                accepted: r.acceptor.accepted(slot),
            })
            &&& r.slot_prepared(slot, ballot, term).promised == Some(ballot)
        },
        (r.acceptor.promised(entry.slot) matches Some(p) ==> p == entry.ballot) ==> {
            &&& r.accept_answer(entry) == (PxAcceptReply::Accepted {
                slot: entry.slot,
                ballot: entry.ballot,
            })
            &&& r.slot_accepted(entry).accepted == Some(entry)
        },
{
    promise_is_answered_truly(r.acceptor.slot(slot), slot, ballot);
    acceptance_is_answered_truly(r.acceptor.slot(entry.slot), entry);
}

/// `after` and `r` are what a request to step down makes of `before`.
pub open spec fn step_down_answered(
    before: PxLocalReplica,
    after: PxLocalReplica,
    term: u64,
    target_leader_id: u64,
    r: StepDownReply,
) -> bool {
    &&& r.current_term == before.current_term
    &&& r.current_leader_id == match after.believed_leader {
        Some(l) => l,
        None => 0,
    }
    &&& if before.role is Leader && term == before.current_term && target_leader_id == before.id {
        &&& r.accepted
        &&& after == (PxLocalReplica {
            role: PxLocalReplicaRole::Follower,
            believed_leader: None,
            lease_read_until_ms: 0,
            admin_step_down: true,
            ..before
        })
    } else {
        !r.accepted && after == before
    }
}

/// A leader steps down for a request that means it, in its own term: it follows
/// then, without a read lease, and keeps its term, its vote and its log. Any
/// other request changes nothing.
pub proof fn leader_steps_down_when_it_is_meant(
    before: PxLocalReplica,
    after: PxLocalReplica,
    term: u64,
    target_leader_id: u64,
    r: StepDownReply,
)
    requires
        step_down_answered(before, after, term, target_leader_id, r),
    ensures
        before.role is Leader && term == before.current_term && target_leader_id == before.id ==> {
            &&& r.accepted
            &&& after.role is Follower
            &&& after.lease_read_until_ms == 0
            &&& after.admin_step_down
            &&& r.current_leader_id == 0
        },
        !(before.role is Leader) || term != before.current_term || target_leader_id != before.id
            ==> !r.accepted && after == before,
        r.current_term == before.current_term,
        after.current_term == before.current_term,
        after.voted_for == before.voted_for,
        after.acceptor == before.acceptor,
        after.learner == before.learner,
{
}

} // verus!
