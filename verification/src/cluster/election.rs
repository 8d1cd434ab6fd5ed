//! Leader election: the randomized deadline, the pre-vote and vote rounds, the
//! leader's heartbeats and lease, and stepping down.
//!
//! The driver runs next to each group. While the replica follows it sleeps
//! until a randomized deadline and then runs for election; while it leads it
//! sends heartbeats. The functions here take what happened and say what to do.

use crate::cluster::group::{PendingLeaderHandoff, PxGroup, RemoteReplicaKind};
use crate::cluster::local_replica::{ElectionMetrics, PxLocalReplica, PxLocalReplicaRole};
use crate::cluster::replica::{
    HeartbeatReply, HeartbeatRequestPayload, VoteReply, VoteRequestPayload,
};
use crate::cluster::watermarks::{earlier, later};
use crate::common::config::PxElectionConfig;
use crate::common::counting::{lemma_filter_from_front, lemma_positions_counted};
use crate::paxos::PxNodeId;
use vstd::prelude::*;

verus! {

// ── The random deadline ──────────────────────────────────────────
/// One step of the generator's state.
pub open spec fn xorshift(x: u64) -> u64 {
    let a = x ^ (x << 13);
    let b = a ^ (a >> 7);
    b ^ (b << 17)
}

/// The state that a generator starts with. `0` would stay `0` for ever, so a
/// constant takes its place.
pub open spec fn seeded(seed: u64) -> u64 {
    if seed == 0 {
        0x9E37_79B9_7F4A_7C15
    } else {
        seed
    }
}

/// A xorshift64* generator, used to spread election deadlines.
#[derive(Debug)]
pub struct XorShift64 {
    state: u64,
}

impl XorShift64 {
    /// State of the generator.
    pub closed spec fn spec_state(&self) -> u64 {
        self.state
    }

    /// A generator with this seed.
    pub fn new(seed: u64) -> (r: Self)
        ensures
            r.spec_state() == seeded(seed),
            r.spec_state() != 0,
    {
        XorShift64 {
            state: if seed == 0 {
                0x9E37_79B9_7F4A_7C15
            } else {
                seed
            },
        }
    }

    /// The next number.
    pub fn next_u64(&mut self) -> (v: u64)
        ensures
            final(self).spec_state() == xorshift(old(self).spec_state()),
            v == xorshift(old(self).spec_state()).wrapping_mul(0x2545_F491_4F6C_DD1D),
    {
        let mut x: u64 = self.state;
        x = x ^ (x << 13);
        x = x ^ (x >> 7);
        x = x ^ (x << 17);
        self.state = x;
        x.wrapping_mul(0x2545_F491_4F6C_DD1D)
    }

    /// A number from `lo` to `hi`, both included.
    pub fn random_between_ms(&mut self, lo: u64, hi: u64) -> (v: u64)
        requires
            lo <= hi,
            hi - lo < u64::MAX,
        ensures
            lo <= v <= hi,
            v == drawn(old(self).spec_state(), lo, hi),
            final(self).spec_state() == state_after(old(self).spec_state(), lo, hi),
    {
        if lo == hi {
            return lo;
        }
        let span: u64 = hi - lo + 1;
        lo + self.next_u64() % span
    }
}

/// The generator never runs into `0`, where it would get stuck.
pub proof fn generator_never_gets_stuck(x: u64)
    requires
        x != 0,
    ensures
        xorshift(x) != 0,
{
    let a = x ^ (x << 13);
    let b = a ^ (a >> 7);
    assert(a != 0) by (bit_vector)
        requires
            x != 0,
            a == x ^ (x << 13),
    ;
    assert(b != 0) by (bit_vector)
        requires
            a != 0,
            b == a ^ (a >> 7),
    ;
    assert(b ^ (b << 17) != 0) by (bit_vector)
        requires
            b != 0,
    ;
}

/// The seed of a replica's generator: the time, turned left by 13 bits, mixed
/// with the identities of the group and the replica.
pub open spec fn spec_driver_seed(now_nanos: u64, group_id: u64, replica_id: u64) -> u64 {
    ((now_nanos << 13) | (now_nanos >> 51)) ^ group_id.wrapping_mul(0x9E37_79B9_7F4A_7C15)
        ^ replica_id.wrapping_mul(0xBF58_476D_1CE4_E5B9)
}

/// The seed of a replica's generator.
pub fn driver_seed(now_nanos: u64, group_id: u64, replica_id: u64) -> (s: u64)
    ensures
        s == spec_driver_seed(now_nanos, group_id, replica_id),
{
    ((now_nanos << 13) | (now_nanos >> 51)) ^ group_id.wrapping_mul(0x9E37_79B9_7F4A_7C15)
        ^ replica_id.wrapping_mul(0xBF58_476D_1CE4_E5B9)
}

/// The number from `lo` to `hi` that a generator in this state gives next.
pub open spec fn drawn(state: u64, lo: u64, hi: u64) -> int {
    if lo == hi {
        lo as int
    } else {
        lo + xorshift(state).wrapping_mul(0x2545_F491_4F6C_DD1D) % ((hi - lo + 1) as u64)
    }
}

/// The state of a generator after it gave a number from `lo` to `hi`.
pub open spec fn state_after(state: u64, lo: u64, hi: u64) -> u64 {
    if lo == hi {
        state
    } else {
        xorshift(state)
    }
}

/// The next election deadline: a random time within the configured bounds
/// from now.
pub fn next_election_deadline(now_ms: u64, cfg: &PxElectionConfig, rng: &mut XorShift64) -> (d: u64)
    requires
        cfg.wf(),
        now_ms + cfg.election_max_ms <= u64::MAX,
    ensures
        now_ms + cfg.election_min_ms <= d <= now_ms + cfg.election_max_ms,
        d == now_ms + drawn(old(rng).spec_state(), cfg.election_min_ms, cfg.election_max_ms),
        final(rng).spec_state() == state_after(
            old(rng).spec_state(),
            cfg.election_min_ms,
            cfg.election_max_ms,
        ),
{
    let jitter_ms: u64 = rng.random_between_ms(cfg.election_min_ms, cfg.election_max_ms);
    now_ms + jitter_ms
}

// ── The driver ───────────────────────────────────────────────────
/// What the election driver does next.
#[derive(Clone, Copy, Debug, PartialEq, Eq, Structural)]
pub enum DriverStep {
    /// Stop.
    Exit,
    /// Run the leader's loop until it returns, and set a new deadline then.
    Lead,
    /// Sleep until the deadline, or until cancelled.
    SleepUntil { deadline_ms: u64 },
}

/// The election driver of one replica.
#[derive(Debug)]
pub struct ElectionDriver {
    pub rng: XorShift64,
    pub deadline_ms: u64,
}

impl ElectionDriver {
    /// A driver with its first deadline set.
    pub fn new(seed: u64, cfg: &PxElectionConfig, now_ms: u64) -> (d: Self)
        requires
            cfg.wf(),
            now_ms + cfg.election_max_ms <= u64::MAX,
        ensures
            now_ms + cfg.election_min_ms <= d.deadline_ms <= now_ms + cfg.election_max_ms,
            d.deadline_ms == now_ms + drawn(
                seeded(seed),
                cfg.election_min_ms,
                cfg.election_max_ms,
            ),
            d.rng.spec_state() == state_after(
                seeded(seed),
                cfg.election_min_ms,
                cfg.election_max_ms,
            ),
    {
        let mut rng = XorShift64::new(seed);
        let deadline_ms: u64 = next_election_deadline(now_ms, cfg, &mut rng);
        ElectionDriver { rng, deadline_ms }
    }

    /// Set a new deadline.
    pub fn reschedule(&mut self, cfg: &PxElectionConfig, now_ms: u64)
        requires
            cfg.wf(),
            now_ms + cfg.election_max_ms <= u64::MAX,
        ensures
            now_ms + cfg.election_min_ms <= final(self).deadline_ms <= now_ms + cfg.election_max_ms,
            final(self).deadline_ms == now_ms + drawn(
                old(self).rng.spec_state(),
                cfg.election_min_ms,
                cfg.election_max_ms,
            ),
            final(self).rng.spec_state() == state_after(
                old(self).rng.spec_state(),
                cfg.election_min_ms,
                cfg.election_max_ms,
            ),
    {
        self.deadline_ms = next_election_deadline(now_ms, cfg, &mut self.rng);
    }

    /// What to do next. The group is `None` once it has been dropped.
    pub fn run(&self, role: Option<PxLocalReplicaRole>, cancelled: bool) -> (s: DriverStep)
        ensures
            s == if cancelled || role is None {
                DriverStep::Exit
            } else if role == Some(PxLocalReplicaRole::Leader) {
                DriverStep::Lead
            } else {
                DriverStep::SleepUntil { deadline_ms: self.deadline_ms }
            },
    {
        if cancelled {
            return DriverStep::Exit;
        }
        match role {
            None => DriverStep::Exit,
            Some(PxLocalReplicaRole::Leader) => DriverStep::Lead,
            Some(_) => DriverStep::SleepUntil { deadline_ms: self.deadline_ms },
        }
    }

    /// Whether to run for election when the deadline has passed: unless the
    /// replica has come to lead in the meantime.
    pub fn deadline_fired(&self, role: PxLocalReplicaRole) -> (run: bool)
        ensures
            run == !(role is Leader),
    {
        match role {
            PxLocalReplicaRole::Leader => false,
            _ => true,
        }
    }
}

// ── Stepping down ────────────────────────────────────────────────
/// Why a leader steps down.
#[derive(Clone, Copy, Debug, PartialEq, Eq, Structural)]
pub enum StepDownReason {
    /// A member is in this later term.
    HigherTerm(u64),
    /// No heartbeat quorum for the length of a lease.
    LeaseUnrenewable,
    /// An operator asked for it.
    Admin,
}

/// The counters after one more step-down for `reason`.
pub open spec fn counted(m: ElectionMetrics, reason: StepDownReason) -> ElectionMetrics {
    match reason {
        StepDownReason::HigherTerm(_) => ElectionMetrics {
            step_down_higher_term: m.step_down_higher_term.wrapping_add(1),
            ..m
        },
        StepDownReason::LeaseUnrenewable => ElectionMetrics {
            step_down_lease_unrenewable: m.step_down_lease_unrenewable.wrapping_add(1),
            ..m
        },
        StepDownReason::Admin => ElectionMetrics {
            step_down_admin: m.step_down_admin.wrapping_add(1),
            ..m
        },
    }
}

/// The term in which a leader of `my_term` follows after stepping down.
pub open spec fn step_down_term(my_term: u64, reason: StepDownReason) -> u64 {
    match reason {
        StepDownReason::HigherTerm(t) => later(t, my_term),
        _ => my_term,
    }
}

/// The replica after it followed into `term`.
pub open spec fn following(r: PxLocalReplica, term: u64) -> PxLocalReplica {
    PxLocalReplica {
        role: PxLocalReplicaRole::Follower,
        current_term: later(r.current_term, term),
        voted_for: if term > r.current_term {
            None
        } else {
            r.voted_for
        },
        believed_leader: None,
        lease_read_until_ms: 0,
        ..r
    }
}

/// `after` is the group `before` after its leader of `my_term` stepped down.
pub open spec fn is_stepped_down(
    before: PxGroup,
    after: PxGroup,
    my_term: u64,
    reason: StepDownReason,
) -> bool {
    after == (PxGroup {
        tenure_cancelled: true,
        local_replica: PxLocalReplica {
            election_metrics: counted(before.local_replica.election_metrics, reason),
            ..following(before.local_replica, step_down_term(my_term, reason))
        },
        ..before
    })
}

impl PxGroup {
    /// Step down: count the reason, end the tenure, and follow. Only a later
    /// term of a member raises the term; the vote is kept within a term; the
    /// leader is unknown from here on.
    pub fn step_down(&mut self, my_term: u64, reason: StepDownReason)
        ensures
            is_stepped_down(*old(self), *final(self), my_term, reason),
    {
        match reason {
            StepDownReason::HigherTerm(_) => {
                self.local_replica.election_metrics.step_down_higher_term =
                self.local_replica.election_metrics.step_down_higher_term.wrapping_add(1);
            },
            StepDownReason::LeaseUnrenewable => {
                self.local_replica.election_metrics.step_down_lease_unrenewable =
                self.local_replica.election_metrics.step_down_lease_unrenewable.wrapping_add(1);
            },
            StepDownReason::Admin => {
                self.local_replica.election_metrics.step_down_admin =
                self.local_replica.election_metrics.step_down_admin.wrapping_add(1);
            },
        }
        self.tenure_cancelled = true;
        let target_term: u64 = match reason {
            StepDownReason::HigherTerm(t) => if t > my_term {
                t
            } else {
                my_term
            },
            _ => my_term,
        };
        self.local_replica.become_follower(target_term);
    }
}

// ── The leader's loop ────────────────────────────────────────────
/// What the leader's loop does next.
#[derive(Clone, Copy, Debug, PartialEq, Eq, Structural)]
pub enum LeaderStep {
    /// The tenure is over: go back to the driver.
    Exit,
    /// Wait for the next event.
    Wait,
}

/// What the leader's loop waits for.
#[derive(Clone, Copy, Debug, PartialEq, Eq, Structural)]
pub enum LeaderEvent {
    /// The driver was cancelled.
    Cancelled,
    /// An operator asked the leader to step down.
    AdminStepDown,
    /// A heartbeat round is over.
    Heartbeat(HeartbeatOutcome),
}

/// Outcome of a heartbeat round.
#[derive(Clone, Copy, Debug, PartialEq, Eq, Structural)]
pub enum HeartbeatOutcome {
    /// No member is in a later term.
    Continued,
    /// A member is in the later term `peer_term`.
    SteppedDown { peer_term: u64 },
}

/// `after` and `step` are what the head of the leader's loop makes of `before`.
pub open spec fn tenure_checked(
    before: PxGroup,
    after: PxGroup,
    step: LeaderStep,
    cfg: PxElectionConfig,
    leader_term: u64,
    cancelled: bool,
    now_ms: u64,
) -> bool {
    if !(before.local_replica.role is Leader) || cancelled {
        &&& step is Exit
        &&& after == (PxGroup { tenure_cancelled: true, ..before })
    } else if now_ms >= before.local_replica.last_quorum_heartbeat_ms + cfg.lease_duration_ms
        || cfg.lease_duration_ms == 0 {
        &&& step is Exit
        &&& is_stepped_down(before, after, leader_term, StepDownReason::LeaseUnrenewable)
    } else {
        step is Wait && after == before
    }
}

/// `after` is `before` with a tenure that starts now.
pub open spec fn tenure_entered(before: PxGroup, after: PxGroup, now_ms: u64) -> bool {
    &&& after.peer_applied@ == Map::<u64, u64>::empty()
    &&& after.peer_durable@ == Map::<u64, u64>::empty()
    &&& after == (PxGroup {
        local_replica: PxLocalReplica {
            lease_read_until_ms: 0,
            last_quorum_heartbeat_ms: now_ms,
            ..before.local_replica
        },
        tenure_cancelled: false,
        pending_leader_handoff: None,
        peer_applied: after.peer_applied,
        group_safe_slot: 0,
        peer_durable: after.peer_durable,
        group_snapshot_slot: 0,
        ..before
    })
}

/// `after` and `step` are what the leader's loop makes of `before` and an event.
pub open spec fn event_handled(
    before: PxGroup,
    after: PxGroup,
    step: LeaderStep,
    leader_term: u64,
    event: LeaderEvent,
) -> bool {
    match event {
        LeaderEvent::Cancelled => {
            &&& step is Exit
            &&& after == (PxGroup { tenure_cancelled: true, ..before })
        },
        LeaderEvent::AdminStepDown => {
            &&& step is Exit
            &&& is_stepped_down(before, after, leader_term, StepDownReason::Admin)
        },
        LeaderEvent::Heartbeat(HeartbeatOutcome::Continued) => step is Wait && after == before,
        LeaderEvent::Heartbeat(HeartbeatOutcome::SteppedDown { peer_term }) => {
            &&& step is Exit
            &&& is_stepped_down(
                before,
                after,
                leader_term,
                StepDownReason::HigherTerm(peer_term),
            )
        },
    }
}

impl PxGroup {
    /// Start a tenure: no lease yet, nothing known of the members' progress.
    /// Returns the term of the tenure, and what the sweep over the open slots
    /// starts from, if it is still to be run.
    pub fn enter_leader_state(&mut self, now_ms: u64) -> (r: (u64, Option<PendingLeaderHandoff>))
        ensures
            r.0 == old(self).local_replica.current_term,
            r.1 == old(self).pending_leader_handoff,
            tenure_entered(*old(self), *final(self), now_ms),
            final(self).peer_applied@ == Map::<u64, u64>::empty(),
            final(self).peer_durable@ == Map::<u64, u64>::empty(),
            *final(self) == (PxGroup {
                local_replica: PxLocalReplica {
                    lease_read_until_ms: 0,
                    last_quorum_heartbeat_ms: now_ms,
                    ..old(self).local_replica
                },
                tenure_cancelled: false,
                pending_leader_handoff: None,
                peer_applied: final(self).peer_applied,
                group_safe_slot: 0,
                peer_durable: final(self).peer_durable,
                group_snapshot_slot: 0,
                ..*old(self)
            }),
    {
        let term: u64 = self.local_replica.current_term;
        self.local_replica.reset_lease_to(now_ms);
        self.reset_safe_slot_tracking();
        self.tenure_cancelled = false;
        let handoff = self.pending_leader_handoff;
        self.pending_leader_handoff = None;
        (term, handoff)
    }

    /// The head of the leader's loop: the tenure is over when the role was
    /// taken away or the driver cancelled; a leader that had no heartbeat
    /// quorum for the length of a lease steps down.
    pub fn run_leader_state(
        &mut self,
        cfg: &PxElectionConfig,
        leader_term: u64,
        cancelled: bool,
        now_ms: u64,
    ) -> (step: LeaderStep)
        ensures
            tenure_checked(*old(self), *final(self), step, *cfg, leader_term, cancelled, now_ms),
    {
        if !self.local_replica.is_leader() || cancelled {
            self.tenure_cancelled = true;
            return LeaderStep::Exit;
        }
        let last: u64 = self.local_replica.last_quorum_heartbeat_ms;
        let silent_ms: u64 = if now_ms >= last {
            now_ms - last
        } else {
            0
        };
        if silent_ms >= cfg.lease_duration_ms {
            self.step_down(leader_term, StepDownReason::LeaseUnrenewable);
            return LeaderStep::Exit;
        }
        LeaderStep::Wait
    }

    /// The tail of the leader's loop: what an event comes to.
    pub fn on_leader_event(&mut self, leader_term: u64, event: LeaderEvent) -> (step: LeaderStep)
        ensures
            event_handled(*old(self), *final(self), step, leader_term, event),
            match event {
                LeaderEvent::Cancelled => {
                    &&& step is Exit
                    &&& *final(self) == (PxGroup { tenure_cancelled: true, ..*old(self) })
                },
                LeaderEvent::AdminStepDown => {
                    &&& step is Exit
                    &&& is_stepped_down(
                        *old(self),
                        *final(self),
                        leader_term,
                        StepDownReason::Admin,
                    )
                },
                LeaderEvent::Heartbeat(HeartbeatOutcome::Continued) => step is Wait && *final(self)
                    == *old(self),
                LeaderEvent::Heartbeat(HeartbeatOutcome::SteppedDown { peer_term }) => {
                    &&& step is Exit
                    &&& is_stepped_down(
                        *old(self),
                        *final(self),
                        leader_term,
                        StepDownReason::HigherTerm(peer_term),
                    )
                },
            },
    {
        match event {
            LeaderEvent::Cancelled => {
                self.tenure_cancelled = true;
                LeaderStep::Exit
            },
            LeaderEvent::AdminStepDown => {
                self.step_down(leader_term, StepDownReason::Admin);
                LeaderStep::Exit
            },
            LeaderEvent::Heartbeat(HeartbeatOutcome::Continued) => LeaderStep::Wait,
            LeaderEvent::Heartbeat(HeartbeatOutcome::SteppedDown { peer_term }) => {
                self.step_down(leader_term, StepDownReason::HigherTerm(peer_term));
                LeaderStep::Exit
            },
        }
    }
}

// ── Heartbeats and the lease ─────────────────────────────────────
/// A reply to a heartbeat, in the order of arrival. It is `None` when the
/// member could not be reached.
pub type HeartbeatArrival = (PxNodeId, Option<HeartbeatReply>);

/// Number of replies up to the first one from a later term, not counting it.
pub open spec fn same_term_prefix(replies: Seq<HeartbeatArrival>, term: u64) -> nat
    decreases replies.len(),
{
    if replies.len() == 0 {
        0
    } else {
        match replies[0].1 {
            Some(hb) if hb.term > term => 0,
            _ => 1 + same_term_prefix(replies.drop_first(), term),
        }
    }
}

/// Number of successful replies.
pub open spec fn heartbeat_acks(replies: Seq<HeartbeatArrival>) -> nat
    decreases replies.len(),
{
    if replies.len() == 0 {
        0
    } else {
        heartbeat_acks(replies.drop_last()) + match replies.last().1 {
            Some(hb) if hb.success => 1nat,
            _ => 0,
        }
    }
}

/// The replica after its lease was renewed for a round sent at `t_send_ms`.
pub open spec fn renewed(
    r: PxLocalReplica,
    t_send_ms: u64,
    cfg: PxElectionConfig,
    now_ms: u64,
) -> PxLocalReplica {
    PxLocalReplica {
        lease_read_until_ms: later(
            r.lease_read_until_ms,
            (t_send_ms + if cfg.lease_duration_ms >= cfg.max_clock_skew_ms {
                cfg.lease_duration_ms - cfg.max_clock_skew_ms
            } else {
                0
            }) as u64,
        ),
        last_quorum_heartbeat_ms: later(r.last_quorum_heartbeat_ms, now_ms),
        ..r
    }
}

/// The local replica after `acks` members, itself among them, acknowledged a
/// round sent at `t_send_ms`: a quorum renews its lease.
pub open spec fn after_acks(
    g: PxGroup,
    t_send_ms: u64,
    cfg: PxElectionConfig,
    now_ms: u64,
    acks: nat,
) -> PxLocalReplica {
    if acks >= g.cached_quorum {
        renewed(g.local_replica, t_send_ms, cfg, now_ms)
    } else {
        g.local_replica
    }
}

/// `after` and `outcome` are what a heartbeat round with these replies makes of
/// `before`.
pub open spec fn heartbeat_round(
    before: PxGroup,
    after: PxGroup,
    outcome: HeartbeatOutcome,
    cfg: PxElectionConfig,
    leader_term: u64,
    t_send_ms: u64,
    replies: Seq<HeartbeatArrival>,
    now_ms: u64,
) -> bool {
    let k = same_term_prefix(replies, leader_term) as int;
    let alone = before.cached_quorum <= 1;
    let heard = after_acks(before, t_send_ms, cfg, now_ms, 1 + heartbeat_acks(replies.take(k)));
    &&& outcome == if alone || k >= replies.len() {
        HeartbeatOutcome::Continued
    } else {
        HeartbeatOutcome::SteppedDown { peer_term: replies[k].1->0.term }
    }
    &&& after == (PxGroup {
        local_replica: match outcome {
            HeartbeatOutcome::Continued => heard,
            HeartbeatOutcome::SteppedDown { peer_term } => following(heard, peer_term),
        },
        ..before
    })
}

impl PxLocalReplica {
    /// Renew the lease after a heartbeat quorum: it ends a lease after the
    /// round was sent, less the clock skew, and never earlier than before.
    pub fn renew_lease(&mut self, t_send_ms: u64, cfg: &PxElectionConfig, now_ms: u64)
        requires
            t_send_ms + cfg.lease_duration_ms <= u64::MAX,
        ensures
            *final(self) == renewed(*old(self), t_send_ms, *cfg, now_ms),
    {
        let span: u64 = cfg.lease_duration_ms.saturating_sub(cfg.max_clock_skew_ms);
        self.extend_lease_read_until(t_send_ms + span);
        self.record_quorum_heartbeat(now_ms);
    }
}

impl PxGroup {
    /// Ids of the voting remote members, in order.
    pub open spec fn voting_ids(s: Seq<RemoteReplicaKind>) -> Seq<u64>
        decreases s.len(),
    {
        if s.len() == 0 {
            Seq::empty()
        } else {
            match s.last() {
                RemoteReplicaKind::Real(r) if r.voting => Self::voting_ids(s.drop_last()).push(
                    r.node_id,
                ),
                _ => Self::voting_ids(s.drop_last()),
            }
        }
    }

    /// Ids of the voting remote members, in order.
    pub fn voting_remote_ids(&self) -> (ids: Vec<PxNodeId>)
        ensures
            ids@ == Self::voting_ids(self.remote_replicas@),
    {
        let ghost s = self.remote_replicas@;
        let mut ids: Vec<PxNodeId> = Vec::new();
        let mut i: usize = 0;
        proof {
            assert(s.take(0) =~= Seq::empty());
        }
        while i < self.remote_replicas.len()
            invariant
                i <= self.remote_replicas.len(),
                s == self.remote_replicas@,
                ids@ == Self::voting_ids(s.take(i as int)),
            decreases self.remote_replicas.len() - i,
        {
            proof {
                assert(s.take(i + 1).drop_last() =~= s.take(i as int));
                assert(s.take(i + 1).last() == s[i as int]);
            }
            if let RemoteReplicaKind::Real(r) = &self.remote_replicas[i] {
                if r.voting {
                    ids.push(r.node_id);
                }
            }
            i = i + 1;
        }
        proof {
            assert(s.take(i as int) =~= s);
        }
        ids
    }

    /// The heartbeat of a round sent at `t_send_ms`, and whom it goes to: every
    /// voting remote member, or nobody where this replica is a quorum alone.
    pub fn heartbeat_payload(&self, cfg: &PxElectionConfig, leader_term: u64, t_send_ms: u64) -> (r:
        (HeartbeatRequestPayload, Vec<PxNodeId>))
        requires
            self.wf(),
        ensures
            heartbeat_made(*self, r.0, r.1@, *cfg, leader_term, t_send_ms),
            r.0 == (HeartbeatRequestPayload {
                term: leader_term,
                leader_id: self.local_replica.id,
                prev_log_slot: self.local_replica.learner.last_slot(),
                prev_log_term: self.local_replica.learner.last_term(),
                committed_safe_slot: self.local_replica.learner.frontier(),
                lease_grant_until_ms_mono: if t_send_ms + cfg.lease_duration_ms <= u64::MAX {
                    (t_send_ms + cfg.lease_duration_ms) as u64
                } else {
                    u64::MAX
                },
                t_send_ms_mono: t_send_ms,
            }),
            r.1@ == if self.cached_quorum <= 1 {
                Seq::<u64>::empty()
            } else {
                Self::voting_ids(self.remote_replicas@)
            },
    {
        let payload = HeartbeatRequestPayload {
            term: leader_term,
            leader_id: self.local_replica.id,
            prev_log_slot: self.local_replica.last_chosen_slot(),
            prev_log_term: self.local_replica.learner.last_chosen_term(),
            committed_safe_slot: self.local_replica.contiguous_chosen(),
            lease_grant_until_ms_mono: t_send_ms.saturating_add(cfg.lease_duration_ms),
            t_send_ms_mono: t_send_ms,
        };
        let targets: Vec<PxNodeId> = if self.cached_quorum <= 1 {
            Vec::new()
        } else {
            self.voting_remote_ids()
        };
        (payload, targets)
    }

    /// Decide a heartbeat round from the replies, in the order of arrival. The
    /// lease is renewed as soon as the replies, with this replica, make a
    /// quorum. The first reply from a later term ends the round: this replica
    /// follows in that term.
    pub fn run_heartbeat_round(
        &mut self,
        cfg: &PxElectionConfig,
        leader_term: u64,
        t_send_ms: u64,
        replies: &Vec<HeartbeatArrival>,
        now_ms: u64,
    ) -> (outcome: HeartbeatOutcome)
        requires
            old(self).wf(),
            t_send_ms + cfg.lease_duration_ms <= u64::MAX,
            replies.len() < usize::MAX,
        ensures
            final(self).wf(),
            heartbeat_round(
                *old(self),
                *final(self),
                outcome,
                *cfg,
                leader_term,
                t_send_ms,
                replies@,
                now_ms,
            ),
    {
        let quorum: usize = self.cached_quorum;
        let mut acks: usize = 1;
        if acks >= quorum {
            self.local_replica.renew_lease(t_send_ms, cfg, now_ms);
            return HeartbeatOutcome::Continued;
        }
        let ghost k = same_term_prefix(replies@, leader_term) as int;
        let mut i: usize = 0;
        proof {
            lemma_prefix_bound(replies@, leader_term);
            assert(replies@.skip(0) =~= replies@);
            assert(replies@.take(0) =~= Seq::empty());
        }
        while i < replies.len()
            invariant
                i <= replies.len() < usize::MAX,
                i <= k <= replies.len(),
                k == same_term_prefix(replies@, leader_term),
                k == i + same_term_prefix(replies@.skip(i as int), leader_term),
                acks == 1 + heartbeat_acks(replies@.take(i as int)),
                acks <= i + 1,
                quorum == old(self).cached_quorum,
                quorum > 1,
                self.wf(),
                t_send_ms + cfg.lease_duration_ms <= u64::MAX,
                *self == (PxGroup {
                    local_replica: after_acks(*old(self), t_send_ms, *cfg, now_ms, acks as nat),
                    ..*old(self)
                }),
            decreases replies.len() - i,
        {
            proof {
                let rest = replies@.skip(i as int);
                assert(rest[0] == replies@[i as int]);
                assert(rest.drop_first() =~= replies@.skip(i + 1));
                assert(replies@.take(i + 1).drop_last() =~= replies@.take(i as int));
            }
            if let Some(hb) = replies[i].1 {
                if hb.term > leader_term {
                    self.local_replica.become_follower(hb.term);
                    return HeartbeatOutcome::SteppedDown { peer_term: hb.term };
                }
                if hb.success {
                    acks = acks + 1;
                    if acks >= quorum {
                        self.local_replica.renew_lease(t_send_ms, cfg, now_ms);
                    }
                }
            }
            i = i + 1;
        }
        proof {
            assert(replies@.take(i as int) =~= replies@.take(k));
        }
        HeartbeatOutcome::Continued
    }

    /// Note what a successful reply of a voting member tells of its progress.
    pub fn note_heartbeat_reply(&mut self, peer_id: PxNodeId, reply: &HeartbeatReply)
        ensures
            final(self).peer_applied@ == old(self).peer_applied@.insert(
                peer_id,
                reply.contiguous_applied,
            ),
            final(self).peer_durable@ == old(self).peer_durable@.insert(
                peer_id,
                reply.durable_snapshot_slot,
            ),
            final(self).group_safe_slot == later(
                old(self).group_safe_slot,
                crate::cluster::group::lowest_reported(
                    old(self).remote_replicas@,
                    final(self).peer_applied@,
                    old(self).local_replica.learner.frontier(),
                ),
            ),
            final(self).group_snapshot_slot == later(
                old(self).group_snapshot_slot,
                earlier(
                    match old(self).local_replica.durable_snapshot {
                        Some(s) => s,
                        None => 0,
                    },
                    crate::cluster::group::highest_reported(
                        old(self).remote_replicas@,
                        final(self).peer_durable@,
                    ),
                ),
            ),
            *final(self) == (PxGroup {
                peer_applied: final(self).peer_applied,
                group_safe_slot: final(self).group_safe_slot,
                peer_durable: final(self).peer_durable,
                group_snapshot_slot: final(self).group_snapshot_slot,
                ..*old(self)
            }),
    {
        self.note_peer_applied(peer_id, reply.contiguous_applied);
        self.note_peer_durable(peer_id, reply.durable_snapshot_slot);
    }
}

proof fn lemma_prefix_bound(replies: Seq<HeartbeatArrival>, term: u64)
    ensures
        same_term_prefix(replies, term) <= replies.len(),
    decreases replies.len(),
{
    if replies.len() > 0 {
        lemma_prefix_bound(replies.drop_first(), term);
    }
}

// ── Vote rounds ──────────────────────────────────────────────────
/// What happens in a vote round, in order.
#[derive(Clone, Copy, Debug, PartialEq, Eq, Structural)]
pub enum VoteEvent {
    /// A member answered.
    Reply { peer_id: PxNodeId, vote: VoteReply },
    /// A member could not be reached.
    Unreachable { peer_id: PxNodeId },
    /// The driver was cancelled.
    Cancelled,
}

/// Outcome of a pre-vote round.
#[derive(Clone, Copy, Debug, PartialEq, Eq, Structural)]
pub enum PreVoteOutcome {
    /// A quorum would vote for this replica in `proposed_term`.
    Won { proposed_term: u64 },
    /// A member is in this later term.
    HigherTerm(u64),
    /// No quorum.
    Lost,
}

/// How a round with `grants` votes so far goes on: the first of a later term,
/// the cancellation, and the vote that makes a quorum ends it.
pub open spec fn vote_outcome(
    events: Seq<VoteEvent>,
    term: u64,
    grants: nat,
    quorum: nat,
) -> PreVoteOutcome
    decreases events.len(),
{
    if grants >= quorum {
        PreVoteOutcome::Won { proposed_term: term }
    } else if events.len() == 0 {
        PreVoteOutcome::Lost
    } else {
        match events[0] {
            VoteEvent::Cancelled => PreVoteOutcome::Lost,
            VoteEvent::Unreachable { .. } => vote_outcome(
                events.drop_first(),
                term,
                grants,
                quorum,
            ),
            VoteEvent::Reply { vote, .. } => if vote.term > term {
                PreVoteOutcome::HigherTerm(vote.term)
            } else {
                vote_outcome(
                    events.drop_first(),
                    term,
                    grants + if vote.granted {
                        1nat
                    } else {
                        0
                    },
                    quorum,
                )
            },
        }
    }
}

/// The highest contiguous slot and the highest slot seen, among `floor` and
/// `ceiling` and the members whose votes count before the round is decided.
pub open spec fn vote_frontier(
    events: Seq<VoteEvent>,
    term: u64,
    grants: nat,
    quorum: nat,
    floor: u64,
    ceiling: u64,
) -> (u64, u64)
    decreases events.len(),
{
    if grants >= quorum || events.len() == 0 {
        (floor, ceiling)
    } else {
        match events[0] {
            VoteEvent::Cancelled => (floor, ceiling),
            VoteEvent::Unreachable { .. } => vote_frontier(
                events.drop_first(),
                term,
                grants,
                quorum,
                floor,
                ceiling,
            ),
            VoteEvent::Reply { vote, .. } => if vote.term > term {
                (floor, ceiling)
            } else if vote.granted {
                vote_frontier(
                    events.drop_first(),
                    term,
                    grants + 1,
                    quorum,
                    later(floor, vote.contiguous_chosen),
                    later(ceiling, vote.highest_seen_slot),
                )
            } else {
                vote_frontier(events.drop_first(), term, grants, quorum, floor, ceiling)
            },
        }
    }
}

/// The group after its candidate won `term`: it leads and may propose in that
/// term, and its sweep starts from the given slots.
pub open spec fn leading(g: PxGroup, term: u64, peer_floor: u64, peer_ceiling: u64) -> PxGroup {
    PxGroup {
        pending_leader_handoff: Some(PendingLeaderHandoff { term, peer_floor, peer_ceiling }),
        local_replica: PxLocalReplica {
            role: PxLocalReplicaRole::Leader,
            believed_leader: Some(g.local_replica.id),
            ..g.local_replica
        },
        proposing_term: term,
        ..g
    }
}

/// The group after a candidate's round with these events.
pub open spec fn candidate_result(g: PxGroup, events: Seq<VoteEvent>) -> PxGroup {
    let term = g.local_replica.current_term;
    let quorum = g.cached_quorum as nat;
    match vote_outcome(events, term, 1, quorum) {
        PreVoteOutcome::Won { .. } => {
            let (floor, ceiling) = vote_frontier(
                events,
                term,
                1,
                quorum,
                g.local_replica.learner.frontier(),
                g.local_replica.highest_seen_slot,
            );
            leading(g, term, floor, ceiling)
        },
        PreVoteOutcome::HigherTerm(t) => PxGroup {
            local_replica: following(g.local_replica, t),
            ..g
        },
        PreVoteOutcome::Lost => g,
    }
}

impl PxGroup {
    /// The request of a round for `term`, and whom it goes to: every voting
    /// remote member, or nobody where this replica is a quorum alone.
    pub fn vote_payload(&self, term: u64) -> (r: (VoteRequestPayload, Vec<PxNodeId>))
        ensures
            vote_asked(*self, r.0, r.1@, term),
            r.0 == (VoteRequestPayload {
                term,
                candidate_id: self.local_replica.id,
                last_chosen_slot: self.local_replica.learner.last_slot(),
                last_chosen_term: self.local_replica.learner.last_term(),
            }),
            r.1@ == if self.cached_quorum <= 1 {
                Seq::<u64>::empty()
            } else {
                Self::voting_ids(self.remote_replicas@)
            },
    {
        let payload = VoteRequestPayload {
            term,
            candidate_id: self.local_replica.id,
            last_chosen_slot: self.local_replica.last_chosen_slot(),
            last_chosen_term: self.local_replica.learner.last_chosen_term(),
        };
        let targets: Vec<PxNodeId> = if self.cached_quorum <= 1 {
            Vec::new()
        } else {
            self.voting_remote_ids()
        };
        (payload, targets)
    }

    /// Decide a pre-vote round for the next term. This replica's own vote
    /// counts.
    pub fn run_prevote_round(&self, events: &Vec<VoteEvent>) -> (outcome: PreVoteOutcome)
        requires
            self.local_replica.current_term < u64::MAX,
            events.len() < usize::MAX,
        ensures
            outcome == vote_outcome(
                events@,
                (self.local_replica.current_term + 1) as u64,
                1,
                self.cached_quorum as nat,
            ),
    {
        let proposed_term: u64 = self.local_replica.current_term + 1;
        let quorum: usize = self.cached_quorum;
        let mut grants: usize = 1;
        if grants >= quorum {
            return PreVoteOutcome::Won { proposed_term };
        }
        let ghost all = vote_outcome(events@, proposed_term, 1, quorum as nat);
        let mut i: usize = 0;
        proof {
            assert(events@.skip(0) =~= events@);
        }
        while i < events.len()
            invariant
                i <= events.len() < usize::MAX,
                grants < quorum,
                grants <= i + 1,
                quorum == self.cached_quorum,
                proposed_term == self.local_replica.current_term + 1,
                all == vote_outcome(events@, proposed_term, 1, quorum as nat),
                all == vote_outcome(
                    events@.skip(i as int),
                    proposed_term,
                    grants as nat,
                    quorum as nat,
                ),
            decreases events.len() - i,
        {
            proof {
                assert(events@.skip(i as int)[0] == events@[i as int]);
                assert(events@.skip(i as int).drop_first() =~= events@.skip(i + 1));
                reveal_with_fuel(vote_outcome, 2);
            }
            match events[i] {
                VoteEvent::Cancelled => {
                    return PreVoteOutcome::Lost;
                },
                VoteEvent::Unreachable { .. } => {},
                VoteEvent::Reply { vote, .. } => {
                    if vote.term > proposed_term {
                        return PreVoteOutcome::HigherTerm(vote.term);
                    }
                    if vote.granted {
                        grants = grants + 1;
                        if grants >= quorum {
                            return PreVoteOutcome::Won { proposed_term };
                        }
                    }
                },
            }
            i = i + 1;
        }
        PreVoteOutcome::Lost
    }

    /// Become leader in `term`: the sweep's inputs are left for the leader's
    /// loop, and proposals are accepted in this term.
    pub fn finalize_leader(&mut self, term: u64, peer_floor: u64, peer_ceiling: u64)
        ensures
            *final(self) == leading(*old(self), term, peer_floor, peer_ceiling),
    {
        self.pending_leader_handoff = Some(
            PendingLeaderHandoff { term, peer_floor, peer_ceiling },
        );
        self.local_replica.become_leader();
        self.proposing_term = term;
    }

    /// Decide a candidate's round in the current term. This replica's own vote
    /// counts. A member in a later term makes it follow; a quorum of votes
    /// makes it lead; otherwise nothing changes and the next deadline decides.
    pub fn run_candidate_election(&mut self, events: &Vec<VoteEvent>)
        requires
            events.len() < usize::MAX,
        ensures
            *final(self) == candidate_result(*old(self), events@),
    {
        let term: u64 = self.local_replica.current_term;
        let quorum: usize = self.cached_quorum;
        let mut grants: usize = 1;
        let mut peer_floor: u64 = self.local_replica.contiguous_chosen();
        let mut peer_ceiling: u64 = self.local_replica.highest_seen_slot;
        if grants >= quorum {
            self.finalize_leader(term, peer_floor, peer_ceiling);
            return;
        }
        let ghost g = *self;
        let ghost floor0 = peer_floor;
        let ghost ceiling0 = peer_ceiling;
        let ghost all = vote_outcome(events@, term, 1, quorum as nat);
        let ghost frontier = vote_frontier(events@, term, 1, quorum as nat, floor0, ceiling0);
        let mut i: usize = 0;
        proof {
            assert(events@.skip(0) =~= events@);
        }
        while i < events.len()
            invariant
                i <= events.len() < usize::MAX,
                grants < quorum,
                grants <= i + 1,
                g == *self,
                g == *old(self),
                quorum == g.cached_quorum,
                term == g.local_replica.current_term,
                all == vote_outcome(events@, term, 1, quorum as nat),
                all == vote_outcome(events@.skip(i as int), term, grants as nat, quorum as nat),
                floor0 == g.local_replica.learner.frontier(),
                ceiling0 == g.local_replica.highest_seen_slot,
                frontier == vote_frontier(events@, term, 1, quorum as nat, floor0, ceiling0),
                frontier == vote_frontier(
                    events@.skip(i as int),
                    term,
                    grants as nat,
                    quorum as nat,
                    peer_floor,
                    peer_ceiling,
                ),
            decreases events.len() - i,
        {
            proof {
                assert(events@.skip(i as int)[0] == events@[i as int]);
                assert(events@.skip(i as int).drop_first() =~= events@.skip(i + 1));
                reveal_with_fuel(vote_outcome, 2);
                reveal_with_fuel(vote_frontier, 2);
            }
            match events[i] {
                VoteEvent::Cancelled => {
                    return;
                },
                VoteEvent::Unreachable { .. } => {},
                VoteEvent::Reply { vote, .. } => {
                    if vote.term > term {
                        self.local_replica.become_follower(vote.term);
                        return;
                    }
                    if vote.granted {
                        grants = grants + 1;
                        if vote.contiguous_chosen > peer_floor {
                            peer_floor = vote.contiguous_chosen;
                        }
                        if vote.highest_seen_slot > peer_ceiling {
                            peer_ceiling = vote.highest_seen_slot;
                        }
                        if grants >= quorum {
                            self.finalize_leader(term, peer_floor, peer_ceiling);
                            return;
                        }
                    }
                },
            }
            i = i + 1;
        }
    }

    /// Start an election attempt: ask for pre-votes where they are enabled, and
    /// run in the next term otherwise. Returns the term of the round to run,
    /// and whether it is a pre-vote round.
    pub fn begin_election_attempt(&mut self, cfg: &PxElectionConfig) -> (r: (u64, bool))
        requires
            old(self).local_replica.current_term < u64::MAX,
        ensures
            r == ((old(self).local_replica.current_term + 1) as u64, cfg.prevote_enabled),
            *final(self) == (PxGroup {
                local_replica: if cfg.prevote_enabled {
                    PxLocalReplica {
                        role: PxLocalReplicaRole::PreCandidate,
                        ..old(self).local_replica
                    }
                } else {
                    running(old(self).local_replica, r.0)
                },
                ..*old(self)
            }),
    {
        let term: u64 = self.local_replica.current_term + 1;
        if cfg.prevote_enabled {
            self.local_replica.become_precandidate();
        } else {
            self.local_replica.become_candidate(term);
        }
        (term, cfg.prevote_enabled)
    }

    /// Go on after a pre-vote round: run for election where it was won, follow
    /// otherwise. Returns whether the candidate's round is to be run.
    pub fn on_prevote_outcome(&mut self, outcome: PreVoteOutcome) -> (run: bool)
        requires
            outcome matches PreVoteOutcome::Won { proposed_term } ==> proposed_term > old(
                self,
            ).local_replica.current_term,
        ensures
            run == (outcome is Won),
            *final(self) == (PxGroup {
                local_replica: match outcome {
                    PreVoteOutcome::Won { proposed_term } => running(
                        old(self).local_replica,
                        proposed_term,
                    ),
                    PreVoteOutcome::HigherTerm(t) => following(old(self).local_replica, t),
                    PreVoteOutcome::Lost => following(
                        old(self).local_replica,
                        old(self).local_replica.current_term,
                    ),
                },
                ..*old(self)
            }),
    {
        match outcome {
            PreVoteOutcome::Won { proposed_term } => {
                self.local_replica.become_candidate(proposed_term);
                true
            },
            PreVoteOutcome::HigherTerm(t) => {
                self.local_replica.become_follower(t);
                false
            },
            PreVoteOutcome::Lost => {
                let term: u64 = self.local_replica.current_term;
                self.local_replica.become_follower(term);
                false
            },
        }
    }

    /// A whole election attempt, with what happens in its rounds.
    pub fn run_election_attempt(
        &mut self,
        cfg: &PxElectionConfig,
        prevotes: &Vec<VoteEvent>,
        votes: &Vec<VoteEvent>,
    )
        requires
            old(self).local_replica.current_term < u64::MAX,
            prevotes.len() < usize::MAX,
            votes.len() < usize::MAX,
        ensures
            *final(self) == election_result(*old(self), cfg.prevote_enabled, prevotes@, votes@),
    {
        let (_term, prevote) = self.begin_election_attempt(cfg);
        let run = if prevote {
            let outcome = self.run_prevote_round(prevotes);
            proof {
                lemma_won_term(
                    prevotes@,
                    (self.local_replica.current_term + 1) as u64,
                    1,
                    self.cached_quorum as nat,
                );
            }
            self.on_prevote_outcome(outcome)
        } else {
            true
        };
        if run {
            self.run_candidate_election(votes);
        }
    }
}

/// The replica running for election in `term`.
pub open spec fn running(r: PxLocalReplica, term: u64) -> PxLocalReplica {
    PxLocalReplica {
        role: PxLocalReplicaRole::Candidate,
        current_term: term,
        voted_for: Some(r.id),
        believed_leader: None,
        ..r
    }
}

/// The group after an election attempt with these rounds.
pub open spec fn election_result(
    g: PxGroup,
    prevote_enabled: bool,
    prevotes: Seq<VoteEvent>,
    votes: Seq<VoteEvent>,
) -> PxGroup {
    let term = (g.local_replica.current_term + 1) as u64;
    if !prevote_enabled {
        candidate_result(PxGroup { local_replica: running(g.local_replica, term), ..g }, votes)
    } else {
        let asked = PxLocalReplica { role: PxLocalReplicaRole::PreCandidate, ..g.local_replica };
        match vote_outcome(prevotes, term, 1, g.cached_quorum as nat) {
            PreVoteOutcome::Won { .. } => candidate_result(
                PxGroup { local_replica: running(asked, term), ..g },
                votes,
            ),
            PreVoteOutcome::HigherTerm(t) => PxGroup { local_replica: following(asked, t), ..g },
            PreVoteOutcome::Lost => PxGroup {
                local_replica: following(asked, asked.current_term),
                ..g
            },
        }
    }
}

proof fn lemma_won_term(events: Seq<VoteEvent>, term: u64, grants: nat, quorum: nat)
    ensures
        vote_outcome(events, term, grants, quorum) matches PreVoteOutcome::Won { proposed_term }
            ==> proposed_term == term,
        vote_outcome(events, term, grants, quorum) matches PreVoteOutcome::HigherTerm(t) ==> t
            > term,
    decreases events.len(),
{
    if events.len() > 0 {
        lemma_won_term(events.drop_first(), term, grants, quorum);
        lemma_won_term(events.drop_first(), term, grants + 1, quorum);
    }
}

// ── Laws of elections ────────────────────────────────────────────
/// Number of votes granted in a round.
pub open spec fn granted(events: Seq<VoteEvent>) -> nat
    decreases events.len(),
{
    if events.len() == 0 {
        0
    } else {
        granted(events.drop_first()) + match events[0] {
            VoteEvent::Reply { vote, .. } if vote.granted => 1nat,
            _ => 0,
        }
    }
}

/// A round is won only with a quorum of votes.
pub proof fn winning_takes_a_quorum(events: Seq<VoteEvent>, term: u64, grants: nat, quorum: nat)
    requires
        vote_outcome(events, term, grants, quorum) is Won,
    ensures
        grants + granted(events) >= quorum,
    decreases events.len(),
{
    if grants < quorum {
        match events[0] {
            VoteEvent::Reply { vote, .. } => {
                winning_takes_a_quorum(
                    events.drop_first(),
                    term,
                    grants + if vote.granted {
                        1nat
                    } else {
                        0
                    },
                    quorum,
                );
            },
            _ => {
                winning_takes_a_quorum(events.drop_first(), term, grants, quorum);
            },
        }
    }
}

/// A replica that is a quorum alone wins every attempt, with or without
/// pre-votes and without asking anybody: it leads in the next term, and may
/// propose.
pub proof fn single_voter_is_elected(
    g: PxGroup,
    prevote_enabled: bool,
    prevotes: Seq<VoteEvent>,
    votes: Seq<VoteEvent>,
)
    requires
        g.cached_quorum <= 1,
        g.local_replica.current_term < u64::MAX,
    ensures
        ({
            let after = election_result(g, prevote_enabled, prevotes, votes);
            &&& after.local_replica.role is Leader
            &&& after.local_replica.current_term == g.local_replica.current_term + 1
            &&& after.may_propose()
        }),
{
}

/// No election attempt lowers the term, and none makes a replica lead a term
/// that it has led before.
pub proof fn elections_never_lower_the_term(
    g: PxGroup,
    prevote_enabled: bool,
    prevotes: Seq<VoteEvent>,
    votes: Seq<VoteEvent>,
)
    requires
        g.local_replica.current_term < u64::MAX,
    ensures
        ({
            let after = election_result(g, prevote_enabled, prevotes, votes);
            &&& after.local_replica.current_term >= g.local_replica.current_term
            &&& after.local_replica.role is Leader ==> after.local_replica.current_term
                > g.local_replica.current_term
        }),
{
}

/// A pre-vote round that is not won leaves the term as it is, unless a member
/// is in a later one: a replica that nobody would elect disturbs nobody.
pub proof fn lost_prevote_keeps_the_term(
    g: PxGroup,
    prevotes: Seq<VoteEvent>,
    votes: Seq<VoteEvent>,
)
    requires
        g.local_replica.current_term < u64::MAX,
        vote_outcome(
            prevotes,
            (g.local_replica.current_term + 1) as u64,
            1,
            g.cached_quorum as nat,
        ) is Lost,
    ensures
        ({
            let after = election_result(g, true, prevotes, votes);
            &&& after.local_replica.current_term == g.local_replica.current_term
            &&& after.local_replica.role is Follower
            &&& after.local_replica.voted_for == g.local_replica.voted_for
        }),
{
}

/// A leader of `my_term` that stepped down follows in a term that is not below
/// its own, has no lease, and proposes no more; unless a member was in a later
/// term, the term and the vote are kept.
pub proof fn stepping_down_ends_leadership(
    before: PxGroup,
    after: PxGroup,
    my_term: u64,
    reason: StepDownReason,
)
    requires
        is_stepped_down(before, after, my_term, reason),
        before.local_replica.current_term >= my_term,
    ensures
        after.local_replica.role is Follower,
        after.local_replica.current_term >= before.local_replica.current_term,
        reason matches StepDownReason::HigherTerm(t) ==> after.local_replica.current_term >= t,
        after.local_replica.lease_read_until_ms == 0,
        !after.may_propose(),
        after.tenure_cancelled,
        !(reason is HigherTerm) ==> after.local_replica.current_term
            == before.local_replica.current_term && after.local_replica.voted_for
            == before.local_replica.voted_for,
{
}

/// Renewing a read lease never makes it shorter, and does not carry it past a
/// lease after the round was sent, less the clock skew; not past the sending of
/// the round at all, where the skew is longer than the lease.
pub proof fn lease_is_bounded_and_never_shrinks(
    r: PxLocalReplica,
    t_send_ms: u64,
    cfg: PxElectionConfig,
    now_ms: u64,
)
    requires
        t_send_ms + cfg.lease_duration_ms <= u64::MAX,
    ensures
        renewed(r, t_send_ms, cfg, now_ms).lease_read_until_ms >= r.lease_read_until_ms,
        ({
            let until = renewed(r, t_send_ms, cfg, now_ms).lease_read_until_ms;
            ||| until == r.lease_read_until_ms
            ||| until == t_send_ms
            ||| until + cfg.max_clock_skew_ms <= t_send_ms + cfg.lease_duration_ms
        }),
{
}

proof fn lemma_granted_filtered(events: Seq<VoteEvent>, p: spec_fn(VoteEvent) -> bool)
    requires
        forall|e: VoteEvent| #[trigger]
            p(e) == (e matches VoteEvent::Reply { vote, .. } && vote.granted),
    ensures
        granted(events) == events.filter(p).len(),
    decreases events.len(),
{
    reveal(Seq::filter);
    if events.len() > 0 {
        lemma_granted_filtered(events.drop_first(), p);
        lemma_filter_from_front(events, p);
    }
}

/// The first `n` events neither cancel a round for `term` nor tell of a later
/// term.
pub open spec fn undisturbed(events: Seq<VoteEvent>, n: int, term: u64) -> bool {
    forall|i: int|
        0 <= i < n ==> match #[trigger] events[i] {
            VoteEvent::Reply { vote, .. } => vote.term <= term,
            VoteEvent::Unreachable { .. } => true,
            VoteEvent::Cancelled => false,
        }
}

/// How a round goes on after `n` undisturbed events that do not decide it.
proof fn lemma_round_continues(
    events: Seq<VoteEvent>,
    n: int,
    term: u64,
    grants: nat,
    quorum: nat,
)
    requires
        0 <= n <= events.len(),
        undisturbed(events, n, term),
    ensures
        grants + granted(events.take(n)) >= quorum ==> vote_outcome(events, term, grants, quorum)
            == (PreVoteOutcome::Won { proposed_term: term }),
        grants + granted(events.take(n)) < quorum ==> vote_outcome(events, term, grants, quorum)
            == vote_outcome(events.skip(n), term, grants + granted(events.take(n)), quorum),
    decreases n,
{
    if n == 0 {
        assert(events.skip(0) =~= events);
        assert(events.take(0) =~= Seq::empty());
    } else {
        let rest = events.drop_first();
        assert(events.take(n).drop_first() =~= rest.take(n - 1));
        assert(events.take(n)[0] == events[0]);
        assert(rest.skip(n - 1) =~= events.skip(n));
        assert forall|i: int| 0 <= i < n - 1 implies match #[trigger] rest[i] {
            VoteEvent::Reply { vote, .. } => vote.term <= term,
            VoteEvent::Unreachable { .. } => true,
            VoteEvent::Cancelled => false,
        } by {
            assert(rest[i] == events[i + 1]);
        }
        let here = match events[0] {
            VoteEvent::Reply { vote, .. } if vote.granted => 1nat,
            _ => 0nat,
        };
        lemma_round_continues(rest, n - 1, term, grants + here, quorum);
    }
}

/// A candidate wins a round once the granted votes, with its own, make a
/// quorum: `who` are the positions of such votes among the first `n` events,
/// none of which cancels the round or tells of a later term. Where the members
/// that refuse or cannot be reached stand does not matter, nor what comes
/// after.
pub proof fn votes_of_a_quorum_win(
    events: Seq<VoteEvent>,
    n: int,
    term: u64,
    quorum: nat,
    who: Set<int>,
)
    requires
        0 <= n <= events.len(),
        undisturbed(events, n, term),
        who.finite(),
        who.len() + 1 >= quorum,
        forall|i: int| #[trigger]
            who.contains(i) ==> 0 <= i < n && (events[i] matches VoteEvent::Reply { vote, .. }
                && vote.granted),
    ensures
        vote_outcome(events, term, 1, quorum) == (PreVoteOutcome::Won { proposed_term: term }),
{
    let p = |e: VoteEvent| e matches VoteEvent::Reply { vote, .. } && vote.granted;
    let heard = events.take(n);
    lemma_granted_filtered(heard, p);
    assert forall|i: int| #[trigger] who.contains(i) implies 0 <= i < heard.len() && p(heard[i]) by {
        assert(heard[i] == events[i]);
    }
    lemma_positions_counted(heard, p, who);
    lemma_round_continues(events, n, term, 1, quorum);
}

/// A round that is neither disturbed nor granted a quorum of votes is lost.
pub proof fn want_of_votes_loses(events: Seq<VoteEvent>, term: u64, quorum: nat)
    requires
        undisturbed(events, events.len() as int, term),
        1 + events.filter(
            |e: VoteEvent| e matches VoteEvent::Reply { vote, .. } && vote.granted,
        ).len() < quorum,
    ensures
        vote_outcome(events, term, 1, quorum) is Lost,
{
    let p = |e: VoteEvent| e matches VoteEvent::Reply { vote, .. } && vote.granted;
    lemma_granted_filtered(events, p);
    lemma_round_continues(events, events.len() as int, term, 1, quorum);
    assert(events.take(events.len() as int) =~= events);
}

/// The first disturbance of a round that is not yet won decides it: a later
/// term of a member is reported as it is, and a cancellation loses the round.
pub proof fn disturbance_ends_the_round(
    events: Seq<VoteEvent>,
    n: int,
    term: u64,
    quorum: nat,
)
    requires
        0 <= n < events.len(),
        undisturbed(events, n, term),
        !undisturbed(events, n + 1, term),
        1 + events.take(n).filter(
            |e: VoteEvent| e matches VoteEvent::Reply { vote, .. } && vote.granted,
        ).len() < quorum,
    ensures
        match events[n] {
            VoteEvent::Reply { vote, .. } => vote_outcome(events, term, 1, quorum)
                == PreVoteOutcome::HigherTerm(vote.term),
            _ => vote_outcome(events, term, 1, quorum) is Lost,
        },
{
    let p = |e: VoteEvent| e matches VoteEvent::Reply { vote, .. } && vote.granted;
    lemma_granted_filtered(events.take(n), p);
    lemma_round_continues(events, n, term, 1, quorum);
    let rest = events.skip(n);
    assert(rest[0] == events[n]);
}

/// A candidate that wins its round leads: in the term in which it ran, known
/// to itself as the leader, and free to propose. Its vote is kept.
pub proof fn winning_candidate_leads(
    g: PxGroup,
    events: Seq<VoteEvent>,
    n: int,
    who: Set<int>,
)
    requires
        0 <= n <= events.len(),
        undisturbed(events, n, g.local_replica.current_term),
        who.finite(),
        who.len() + 1 >= g.cached_quorum,
        forall|i: int| #[trigger]
            who.contains(i) ==> 0 <= i < n && (events[i] matches VoteEvent::Reply { vote, .. }
                && vote.granted),
    ensures
        ({
            let after = candidate_result(g, events);
            &&& after.local_replica.role is Leader
            &&& after.local_replica.current_term == g.local_replica.current_term
            &&& after.local_replica.believed_leader == Some(g.local_replica.id)
            &&& after.local_replica.voted_for == g.local_replica.voted_for
            &&& after.may_propose()
            &&& after.pending_leader_handoff matches Some(h) && h.term
                == g.local_replica.current_term
        }),
{
    votes_of_a_quorum_win(
        events,
        n,
        g.local_replica.current_term,
        g.cached_quorum as nat,
        who,
    );
}

/// A candidate without a quorum of votes does not lead. If nothing disturbs
/// its round it stays as it is; if a member in a later term answers first, it
/// follows in that term and has no vote there yet.
pub proof fn losing_candidate_does_not_lead(g: PxGroup, events: Seq<VoteEvent>, n: int)
    requires
        0 <= n <= events.len(),
        undisturbed(events, n, g.local_replica.current_term),
        n < events.len() ==> !undisturbed(events, n + 1, g.local_replica.current_term),
        1 + events.take(n).filter(
            |e: VoteEvent| e matches VoteEvent::Reply { vote, .. } && vote.granted,
        ).len() < g.cached_quorum,
    ensures
        ({
            let after = candidate_result(g, events);
            if n < events.len() && events[n] is Reply {
                &&& after.local_replica.role is Follower
                &&& after.local_replica.current_term == events[n]->vote.term
                &&& after.local_replica.voted_for is None
                &&& after.local_replica.believed_leader is None
                &&& after.local_replica.lease_read_until_ms == 0
                &&& !after.may_propose()
            } else {
                after == g
            }
        }),
{
    let term = g.local_replica.current_term;
    if n < events.len() {
        assert(events[n] matches VoteEvent::Reply { vote, .. } ==> vote.term > term);
        disturbance_ends_the_round(events, n, term, g.cached_quorum as nat);
    } else {
        assert(events.take(n) =~= events);
        want_of_votes_loses(events, term, g.cached_quorum as nat);
    }
}

/// A replica that a quorum grants its pre-vote, and then its vote, leads in the
/// next term and has voted for itself there; where pre-votes are off, the
/// votes suffice.
pub proof fn elected_replica_leads_the_next_term(
    g: PxGroup,
    prevote_enabled: bool,
    prevotes: Seq<VoteEvent>,
    prevoters: Set<int>,
    votes: Seq<VoteEvent>,
    voters: Set<int>,
)
    requires
        g.local_replica.current_term < u64::MAX,
        prevote_enabled ==> {
            &&& undisturbed(
                prevotes,
                prevotes.len() as int,
                (g.local_replica.current_term + 1) as u64,
            )
            &&& prevoters.finite()
            &&& prevoters.len() + 1 >= g.cached_quorum
            &&& forall|i: int| #[trigger]
                prevoters.contains(i) ==> 0 <= i < prevotes.len() && (
                prevotes[i] matches VoteEvent::Reply { vote, .. } && vote.granted)
        },
        undisturbed(votes, votes.len() as int, (g.local_replica.current_term + 1) as u64),
        voters.finite(),
        voters.len() + 1 >= g.cached_quorum,
        forall|i: int| #[trigger]
            voters.contains(i) ==> 0 <= i < votes.len() && (
            votes[i] matches VoteEvent::Reply { vote, .. } && vote.granted),
    ensures
        ({
            let after = election_result(g, prevote_enabled, prevotes, votes);
            &&& after.local_replica.role is Leader
            &&& after.local_replica.current_term == g.local_replica.current_term + 1
            &&& after.local_replica.voted_for == Some(g.local_replica.id)
            &&& after.local_replica.believed_leader == Some(g.local_replica.id)
            &&& after.may_propose()
        }),
{
    let term = (g.local_replica.current_term + 1) as u64;
    if prevote_enabled {
        votes_of_a_quorum_win(
            prevotes,
            prevotes.len() as int,
            term,
            g.cached_quorum as nat,
            prevoters,
        );
    }
    votes_of_a_quorum_win(votes, votes.len() as int, term, g.cached_quorum as nat, voters);
}

/// Where the sweep of a new leader starts and ends: not below its own slots,
/// nor below what any voter reported whose vote came while the round was still
/// open; and each bound is its own or that of a voter.
pub proof fn sweep_covers_the_voters(
    events: Seq<VoteEvent>,
    term: u64,
    grants: nat,
    quorum: nat,
    floor: u64,
    ceiling: u64,
)
    requires
        undisturbed(events, events.len() as int, term),
    ensures
        ({
            let (f, c) = vote_frontier(events, term, grants, quorum, floor, ceiling);
            &&& f >= floor
            &&& c >= ceiling
            &&& forall|i: int|
                0 <= i < events.len() && grants + granted(events.take(i)) < quorum ==> (
                #[trigger] events[i] matches VoteEvent::Reply { vote, .. } ==> vote.granted ==> f
                    >= vote.contiguous_chosen && c >= vote.highest_seen_slot)
            &&& f == floor || exists|i: int|
                0 <= i < events.len() && (#[trigger] events[i] matches VoteEvent::Reply {
                    vote,
                    ..
                } && vote.granted && f == vote.contiguous_chosen)
            &&& c == ceiling || exists|i: int|
                0 <= i < events.len() && (#[trigger] events[i] matches VoteEvent::Reply {
                    vote,
                    ..
                } && vote.granted && c == vote.highest_seen_slot)
        }),
    decreases events.len(),
{
    if events.len() > 0 && grants < quorum {
        let rest = events.drop_first();
        assert forall|i: int| 0 <= i < rest.len() implies match #[trigger] rest[i] {
            VoteEvent::Reply { vote, .. } => vote.term <= term,
            VoteEvent::Unreachable { .. } => true,
            VoteEvent::Cancelled => false,
        } by {
            assert(rest[i] == events[i + 1]);
        }
        let e = events[0];
        let (g1, f1, c1) = match e {
            VoteEvent::Reply { vote, .. } if vote.granted => (
                grants + 1,
                later(floor, vote.contiguous_chosen),
                later(ceiling, vote.highest_seen_slot),
            ),
            _ => (grants, floor, ceiling),
        };
        sweep_covers_the_voters(rest, term, g1, quorum, f1, c1);
        let (f, c) = vote_frontier(events, term, grants, quorum, floor, ceiling);
        assert((f, c) == vote_frontier(rest, term, g1, quorum, f1, c1));
        assert forall|i: int|
            0 <= i < events.len() && grants + granted(events.take(i)) < quorum implies (
        #[trigger] events[i] matches VoteEvent::Reply { vote, .. } ==> vote.granted ==> f
            >= vote.contiguous_chosen && c >= vote.highest_seen_slot) by {
            if i > 0 {
                assert(events.take(i).drop_first() =~= rest.take(i - 1));
                assert(events.take(i)[0] == e);
                assert(rest[i - 1] == events[i]);
            }
        }
        if f != floor && f != f1 {
            let i = choose|i: int|
                0 <= i < rest.len() && (#[trigger] rest[i] matches VoteEvent::Reply { vote, .. }
                    && vote.granted && f == vote.contiguous_chosen);
            assert(rest[i] == events[i + 1]);
        }
        if c != ceiling && c != c1 {
            let i = choose|i: int|
                0 <= i < rest.len() && (#[trigger] rest[i] matches VoteEvent::Reply { vote, .. }
                    && vote.granted && c == vote.highest_seen_slot);
            assert(rest[i] == events[i + 1]);
        }
    }
}

// ── Laws of the lease ────────────────────────────────────────────
proof fn lemma_acks_filtered(
    replies: Seq<HeartbeatArrival>,
    p: spec_fn(HeartbeatArrival) -> bool,
)
    requires
        forall|a: HeartbeatArrival| #[trigger] p(a) == (a.1 matches Some(hb) && hb.success),
    ensures
        heartbeat_acks(replies) == replies.filter(p).len(),
    decreases replies.len(),
{
    reveal(Seq::filter);
    if replies.len() > 0 {
        lemma_acks_filtered(replies.drop_last(), p);
    }
}

/// None of the first `n` replies is from a later term than `term`.
pub open spec fn in_term(replies: Seq<HeartbeatArrival>, n: int, term: u64) -> bool {
    forall|i: int| 0 <= i < n ==> (#[trigger] replies[i].1 matches Some(hb) ==> hb.term <= term)
}

proof fn lemma_prefix_reaches(replies: Seq<HeartbeatArrival>, n: int, term: u64)
    requires
        0 <= n <= replies.len(),
        in_term(replies, n, term),
    ensures
        n <= same_term_prefix(replies, term) <= replies.len(),
        n < replies.len() && (replies[n].1 matches Some(hb) && hb.term > term)
            ==> same_term_prefix(replies, term) == n,
    decreases replies.len(),
{
    lemma_prefix_bound(replies, term);
    if n > 0 {
        let rest = replies.drop_first();
        assert(replies[0].1 matches Some(hb) ==> hb.term <= term);
        assert forall|i: int| 0 <= i < n - 1 implies (#[trigger] rest[i].1 matches Some(hb)
            ==> hb.term <= term) by {
            assert(rest[i].1 == replies[i + 1].1);
        }
        lemma_prefix_reaches(rest, n - 1, term);
    }
}

/// A heartbeat round that a quorum acknowledges, this replica among it, is
/// remembered, and carries the read lease to a lease after its sending, less
/// the clock skew. `who` are the positions of successful replies among the
/// first `n`, none of which is from a later term.
pub proof fn acknowledged_round_renews_the_lease(
    before: PxGroup,
    after: PxGroup,
    outcome: HeartbeatOutcome,
    cfg: PxElectionConfig,
    leader_term: u64,
    t_send_ms: u64,
    replies: Seq<HeartbeatArrival>,
    now_ms: u64,
    n: int,
    who: Set<int>,
)
    requires
        heartbeat_round(before, after, outcome, cfg, leader_term, t_send_ms, replies, now_ms),
        t_send_ms + cfg.lease_duration_ms <= u64::MAX,
        0 <= n <= replies.len(),
        in_term(replies, n, leader_term),
        who.finite(),
        who.len() + 1 >= before.cached_quorum,
        forall|i: int| #[trigger]
            who.contains(i) ==> 0 <= i < n && (replies[i].1 matches Some(hb) && hb.success),
    ensures
        after.local_replica.last_quorum_heartbeat_ms >= now_ms,
        outcome is Continued ==> {
            &&& after.local_replica.lease_read_until_ms + cfg.max_clock_skew_ms >= t_send_ms
                + cfg.lease_duration_ms
            &&& after.local_replica.lease_read_until_ms >= before.local_replica.lease_read_until_ms
            &&& after.local_replica.role == before.local_replica.role
            &&& after.local_replica.current_term == before.local_replica.current_term
        },
{
    let p = |a: HeartbeatArrival| a.1 matches Some(hb) && hb.success;
    let k = same_term_prefix(replies, leader_term) as int;
    lemma_prefix_reaches(replies, n, leader_term);
    let heard = replies.take(k);
    lemma_acks_filtered(heard, p);
    assert forall|i: int| #[trigger] who.contains(i) implies 0 <= i < heard.len() && p(heard[i]) by {
        assert(heard[i] == replies[i]);
    }
    lemma_positions_counted(heard, p, who);
}

/// A leader whose round a quorum acknowledged at `now_ms`, with no member in a
/// later term, keeps its role: whenever it looks again before a lease has
/// passed since then, it waits and nothing changes.
pub proof fn acknowledged_leader_keeps_its_role(
    before: PxGroup,
    after: PxGroup,
    outcome: HeartbeatOutcome,
    cfg: PxElectionConfig,
    leader_term: u64,
    t_send_ms: u64,
    replies: Seq<HeartbeatArrival>,
    now_ms: u64,
    who: Set<int>,
    checked: PxGroup,
    step: LeaderStep,
    at_ms: u64,
)
    requires
        before.local_replica.role is Leader,
        heartbeat_round(before, after, outcome, cfg, leader_term, t_send_ms, replies, now_ms),
        t_send_ms + cfg.lease_duration_ms <= u64::MAX,
        in_term(replies, replies.len() as int, leader_term),
        who.finite(),
        who.len() + 1 >= before.cached_quorum,
        forall|i: int| #[trigger]
            who.contains(i) ==> 0 <= i < replies.len() && (replies[i].1 matches Some(hb)
                && hb.success),
        at_ms < now_ms + cfg.lease_duration_ms,
        cfg.lease_duration_ms > 0,
        tenure_checked(after, checked, step, cfg, leader_term, false, at_ms),
    ensures
        step is Wait,
        checked == after,
        checked.local_replica.role is Leader,
        checked.local_replica.current_term == before.local_replica.current_term,
{
    acknowledged_round_renews_the_lease(
        before,
        after,
        outcome,
        cfg,
        leader_term,
        t_send_ms,
        replies,
        now_ms,
        replies.len() as int,
        who,
    );
    lemma_prefix_reaches(replies, replies.len() as int, leader_term);
}

/// A round that no quorum acknowledges extends nothing: a leader that is not
/// told of a later term is then as it was, and once a lease has passed since
/// the last acknowledged round it steps down, its read lease gone.
pub proof fn silenced_leader_steps_down(
    before: PxGroup,
    after: PxGroup,
    outcome: HeartbeatOutcome,
    cfg: PxElectionConfig,
    leader_term: u64,
    t_send_ms: u64,
    replies: Seq<HeartbeatArrival>,
    now_ms: u64,
    checked: PxGroup,
    step: LeaderStep,
    at_ms: u64,
)
    requires
        before.local_replica.role is Leader,
        heartbeat_round(before, after, outcome, cfg, leader_term, t_send_ms, replies, now_ms),
        in_term(replies, replies.len() as int, leader_term),
        1 + replies.filter(|a: HeartbeatArrival| a.1 matches Some(hb) && hb.success).len()
            < before.cached_quorum,
        at_ms >= before.local_replica.last_quorum_heartbeat_ms + cfg.lease_duration_ms,
        tenure_checked(after, checked, step, cfg, leader_term, false, at_ms),
    ensures
        outcome is Continued,
        after == before,
        step is Exit,
        checked.local_replica.role is Follower,
        checked.local_replica.lease_read_until_ms == 0,
        !checked.may_propose(),
        checked.tenure_cancelled,
{
    let p = |a: HeartbeatArrival| a.1 matches Some(hb) && hb.success;
    lemma_prefix_reaches(replies, replies.len() as int, leader_term);
    assert(replies.take(replies.len() as int) =~= replies);
    lemma_acks_filtered(replies, p);
}

/// The first reply from a later term ends the round of a leader that is not a
/// quorum alone: it follows in that term, has no vote there yet, and has no
/// read lease.
pub proof fn later_term_ends_the_tenure(
    before: PxGroup,
    after: PxGroup,
    outcome: HeartbeatOutcome,
    cfg: PxElectionConfig,
    leader_term: u64,
    t_send_ms: u64,
    replies: Seq<HeartbeatArrival>,
    now_ms: u64,
    n: int,
)
    requires
        heartbeat_round(before, after, outcome, cfg, leader_term, t_send_ms, replies, now_ms),
        before.cached_quorum > 1,
        before.local_replica.current_term == leader_term,
        0 <= n < replies.len(),
        in_term(replies, n, leader_term),
        replies[n].1 matches Some(hb) && hb.term > leader_term,
    ensures
        outcome == (HeartbeatOutcome::SteppedDown { peer_term: replies[n].1->0.term }),
        after.local_replica.role is Follower,
        after.local_replica.current_term == replies[n].1->0.term,
        after.local_replica.voted_for is None,
        after.local_replica.lease_read_until_ms == 0,
        !after.may_propose(),
{
    lemma_prefix_reaches(replies, n, leader_term);
}

/// Heartbeats and vote requests go to the voting remote members, each of them
/// and nobody else.
pub proof fn every_voting_member_is_asked(s: Seq<RemoteReplicaKind>, id: u64)
    ensures
        PxGroup::voting_ids(s).contains(id) <==> exists|i: int|
            0 <= i < s.len() && (#[trigger] s[i] matches RemoteReplicaKind::Real(r) && r.voting
                && r.node_id == id),
    decreases s.len(),
{
    if s.len() > 0 {
        let front = s.drop_last();
        every_voting_member_is_asked(front, id);
        let ids = PxGroup::voting_ids(front);
        assert(s[s.len() - 1] == s.last());
        if ids.contains(id) {
            let i = choose|i: int|
                0 <= i < front.len() && (#[trigger] front[i] matches RemoteReplicaKind::Real(r)
                    && r.voting && r.node_id == id);
            assert(s[i] == front[i]);
            let k = choose|k: int| 0 <= k < ids.len() && ids[k] == id;
            assert(PxGroup::voting_ids(s)[k] == id);
        }
        if let RemoteReplicaKind::Real(r) = s.last() {
            if r.voting {
                assert(PxGroup::voting_ids(s).last() == r.node_id);
            }
        }
        if exists|i: int|
            0 <= i < s.len() && (#[trigger] s[i] matches RemoteReplicaKind::Real(r) && r.voting
                && r.node_id == id) {
            let i = choose|i: int|
                0 <= i < s.len() && (#[trigger] s[i] matches RemoteReplicaKind::Real(r) && r.voting
                    && r.node_id == id);
            if i < front.len() {
                assert(front[i] == s[i]);
            }
        }
        if PxGroup::voting_ids(s).contains(id) && !ids.contains(id) {
            let k = choose|k: int|
                0 <= k < PxGroup::voting_ids(s).len() && PxGroup::voting_ids(s)[k] == id;
            if k < ids.len() {
                assert(ids[k] == id);
            }
        }
    }
}

/// A new leader has a whole lease to reach a quorum: until then it waits in its
/// role, without a read lease and without knowing anything of the members'
/// progress. Once a lease has passed in silence it steps down.
pub proof fn new_leader_has_a_lease_to_reach_a_quorum(
    before: PxGroup,
    entered: PxGroup,
    now_ms: u64,
    cfg: PxElectionConfig,
    leader_term: u64,
    checked: PxGroup,
    step: LeaderStep,
    at_ms: u64,
)
    requires
        before.local_replica.role is Leader,
        tenure_entered(before, entered, now_ms),
        cfg.lease_duration_ms > 0,
        tenure_checked(entered, checked, step, cfg, leader_term, false, at_ms),
    ensures
        entered.local_replica.role is Leader,
        entered.local_replica.current_term == before.local_replica.current_term,
        entered.local_replica.lease_read_until_ms == 0,
        entered.group_safe_slot == 0,
        entered.group_snapshot_slot == 0,
        forall|id: u64| !(#[trigger] entered.peer_applied@.contains_key(id)),
        forall|id: u64| !(#[trigger] entered.peer_durable@.contains_key(id)),
        !entered.tenure_cancelled,
        entered.pending_leader_handoff is None,
        at_ms < now_ms + cfg.lease_duration_ms ==> step is Wait && checked == entered,
        at_ms >= now_ms + cfg.lease_duration_ms ==> step is Exit
            && checked.local_replica.role is Follower,
{
}

/// What happens to a leader: a heartbeat round without a later term leaves it
/// waiting as it was; a request to step down, or a member in a later term, makes
/// it follow and ends its tenure; a cancelled driver ends the tenure and leaves
/// the replica as it is.
pub proof fn leader_goes_on_until_it_is_told(
    before: PxGroup,
    after: PxGroup,
    step: LeaderStep,
    leader_term: u64,
    event: LeaderEvent,
)
    requires
        event_handled(before, after, step, leader_term, event),
        before.local_replica.current_term >= leader_term,
    ensures
        step is Wait <==> event == LeaderEvent::Heartbeat(HeartbeatOutcome::Continued),
        step is Wait ==> after == before,
        step is Exit ==> after.tenure_cancelled,
        event is Cancelled ==> after.local_replica == before.local_replica,
        event is AdminStepDown ==> after.local_replica.role is Follower
            && after.local_replica.current_term == before.local_replica.current_term
            && after.local_replica.lease_read_until_ms == 0,
        event matches LeaderEvent::Heartbeat(HeartbeatOutcome::SteppedDown { peer_term })
            ==> after.local_replica.role is Follower && after.local_replica.current_term
            >= peer_term && after.local_replica.lease_read_until_ms == 0,
{
}

/// A drawn number is one of those that it is drawn from, whatever the state of
/// the generator.
pub proof fn drawn_number_is_within_its_bounds(state: u64, lo: u64, hi: u64)
    requires
        lo <= hi,
        hi - lo < u64::MAX,
    ensures
        lo <= drawn(state, lo, hi) <= hi,
{
}

/// A generator is never at rest: neither where it starts nor after a draw.
pub proof fn generator_stays_in_motion(seed: u64, state: u64, lo: u64, hi: u64)
    requires
        state != 0,
    ensures
        seeded(seed) != 0,
        state_after(state, lo, hi) != 0,
{
    generator_never_gets_stuck(state);
}

/// A replica that leads no longer, or is told to stop, leaves the leader's loop
/// at once: its tenure is over, and nothing else changes.
pub proof fn lost_role_ends_the_tenure(
    before: PxGroup,
    after: PxGroup,
    step: LeaderStep,
    cfg: PxElectionConfig,
    leader_term: u64,
    cancelled: bool,
    now_ms: u64,
)
    requires
        tenure_checked(before, after, step, cfg, leader_term, cancelled, now_ms),
        !(before.local_replica.role is Leader) || cancelled,
    ensures
        step is Exit,
        after.tenure_cancelled,
        after.local_replica == before.local_replica,
        after.next_slot == before.next_slot,
        after.remote_replicas == before.remote_replicas,
{
}

/// `m` is the heartbeat of a round that the leader `g` sends at `t_send_ms`, and
/// `to` are the members that it goes to.
pub open spec fn heartbeat_made(
    g: PxGroup,
    m: HeartbeatRequestPayload,
    to: Seq<u64>,
    cfg: PxElectionConfig,
    leader_term: u64,
    t_send_ms: u64,
) -> bool {
    &&& m.term == leader_term
    &&& m.leader_id == g.local_replica.id
    &&& m.prev_log_slot == g.local_replica.learner.last_slot()
    &&& m.prev_log_term == g.local_replica.learner.last_term()
    &&& m.committed_safe_slot == g.local_replica.learner.frontier()
    &&& m.t_send_ms_mono == t_send_ms
    &&& t_send_ms + cfg.lease_duration_ms <= u64::MAX ==> m.lease_grant_until_ms_mono == t_send_ms
        + cfg.lease_duration_ms
    &&& to == if g.cached_quorum <= 1 {
        Seq::<u64>::empty()
    } else {
        PxGroup::voting_ids(g.remote_replicas@)
    }
}

/// `m` is the request for votes of the candidate `g` for `term`, and `to` are the
/// members that it goes to.
pub open spec fn vote_asked(g: PxGroup, m: VoteRequestPayload, to: Seq<u64>, term: u64) -> bool {
    &&& m.term == term
    &&& m.candidate_id == g.local_replica.id
    &&& m.last_chosen_slot == g.local_replica.learner.last_slot()
    &&& m.last_chosen_term == g.local_replica.learner.last_term()
    &&& to == if g.cached_quorum <= 1 {
        Seq::<u64>::empty()
    } else {
        PxGroup::voting_ids(g.remote_replicas@)
    }
}

/// A leader that needs others sends its heartbeat to every voting peer and to
/// nobody else. It tells no slot as committed beyond what it knows to be chosen,
/// and grants no lease beyond the one that it may hold itself.
pub proof fn heartbeat_goes_to_the_voters(
    g: PxGroup,
    m: HeartbeatRequestPayload,
    to: Seq<u64>,
    cfg: PxElectionConfig,
    leader_term: u64,
    t_send_ms: u64,
    id: u64,
)
    requires
        heartbeat_made(g, m, to, cfg, leader_term, t_send_ms),
        g.cached_quorum > 1,
        t_send_ms + cfg.lease_duration_ms <= u64::MAX,
    ensures
        to.contains(id) <==> exists|i: int|
            0 <= i < g.remote_replicas@.len() && (
            #[trigger] g.remote_replicas@[i] matches RemoteReplicaKind::Real(r) && r.voting
                && r.node_id == id),
        m.term == leader_term,
        m.leader_id == g.local_replica.id,
        m.committed_safe_slot == g.local_replica.learner.frontier(),
        m.lease_grant_until_ms_mono == m.t_send_ms_mono + cfg.lease_duration_ms,
        m.t_send_ms_mono == t_send_ms,
{
    every_voting_member_is_asked(g.remote_replicas@, id);
}

/// A candidate that needs others asks every voting peer and nobody else, and
/// tells the end of its log as it is.
pub proof fn votes_are_asked_of_the_voters(
    g: PxGroup,
    m: VoteRequestPayload,
    to: Seq<u64>,
    term: u64,
    id: u64,
)
    requires
        vote_asked(g, m, to, term),
        g.cached_quorum > 1,
    ensures
        to.contains(id) <==> exists|i: int|
            0 <= i < g.remote_replicas@.len() && (
            #[trigger] g.remote_replicas@[i] matches RemoteReplicaKind::Real(r) && r.voting
                && r.node_id == id),
        m.term == term,
        m.candidate_id == g.local_replica.id,
        m.last_chosen_slot == g.local_replica.learner.last_slot(),
        m.last_chosen_term == g.local_replica.learner.last_term(),
{
    every_voting_member_is_asked(g.remote_replicas@, id);
}

} // verus!
