//! Status, shutdown and plain settings of a group.

use crate::cluster::group::{
    entry_at, lemma_same_counts, real_remotes, PxGroup, RemoteReplicaKind,
};
use crate::cluster::group_config::GroupConfigStore;
use crate::cluster::inflight::InflightAdmission;
use crate::cluster::local_replica::{PxLocalReplica, PxLocalReplicaRole};
use crate::cluster::quorum::quorum_of;
use crate::cluster::remote_replica::PxRemoteReplica;
use crate::cluster::replica::{StepDownReply, StepDownRequestPayload};
use crate::cluster::shutdown::ShutdownReport;
use crate::cluster::status::{GroupStatus, InflightStatus, RemoteStatus, StatusLevel};
use crate::common::config::{AdmissionPolicy, CrowKVConfig, InflightConfig};
use crate::common::text::{concat3, dec, decimal, extend_prefixed, prefixed, texts};
use crate::paxos::roles::SlotIndex;
use crate::paxos::PxNodeId;
use vstd::prelude::*;
use vstd::string::*;

verus! {

/// Messages of a peer's status.
pub open spec fn peer_messages(r: PxRemoteReplica) -> Seq<Seq<char>> {
    if r.channel_open {
        Seq::empty()
    } else {
        seq![r.no_channel_message()]
    }
}

/// Severity of a peer's status.
pub open spec fn peer_level(r: PxRemoteReplica) -> StatusLevel {
    if r.channel_open {
        StatusLevel::Healthy
    } else {
        StatusLevel::Degraded
    }
}

/// Messages of all peers, each behind the peer's name.
pub open spec fn all_peer_messages(r: Seq<PxRemoteReplica>) -> Seq<Seq<char>>
    decreases r.len(),
{
    if r.len() == 0 {
        Seq::empty()
    } else {
        all_peer_messages(r.drop_last()) + prefixed(
            "remote#"@ + dec(r.last().node_id as nat) + ": "@,
            peer_messages(r.last()),
        )
    }
}

/// The worst of `start` and the severities of all peers.
pub open spec fn worst_peer_level(start: StatusLevel, r: Seq<PxRemoteReplica>) -> StatusLevel
    decreases r.len(),
{
    if r.len() == 0 {
        start
    } else {
        StatusLevel::worst_of(worst_peer_level(start, r.drop_last()), peer_level(r.last()))
    }
}

/// Number of voting peers with a channel.
pub open spec fn reachable_voters(r: Seq<PxRemoteReplica>) -> nat
    decreases r.len(),
{
    if r.len() == 0 {
        0
    } else {
        reachable_voters(r.drop_last()) + if r.last().voting && r.last().channel_open {
            1nat
        } else {
            0
        }
    }
}

proof fn lemma_reachable_bound(r: Seq<PxRemoteReplica>)
    ensures
        reachable_voters(r) <= r.len(),
    decreases r.len(),
{
    if r.len() > 0 {
        lemma_reachable_bound(r.drop_last());
    }
}

impl PxGroup {
    /// Voting members that can be reached, this replica among them.
    pub open spec fn reachable(&self) -> nat {
        reachable_voters(real_remotes(self.remote_replicas@)) + if self.local_replica.voting
            && !self.local_replica.shutdown_started {
            1nat
        } else {
            0
        }
    }

    /// What a group short of a quorum is reported with.
    pub open spec fn quorum_message(&self) -> Seq<char> {
        "group "@ + dec(self.group_id as nat) + ": only "@ + dec(self.reachable()) + "/"@ + dec(
            (self.valid_replica_count + 1) as nat,
        ) + " voting replicas reachable (quorum "@ + dec(self.cached_quorum as nat) + ")"@
    }

    /// Severity of the group's status: the worst of its members, and at least
    /// degraded when too few voting members can be reached.
    pub open spec fn level(&self) -> StatusLevel {
        let members = worst_peer_level(
            if self.local_replica.shutdown_started {
                StatusLevel::Unhealthy
            } else {
                StatusLevel::Healthy
            },
            real_remotes(self.remote_replicas@),
        );
        if self.reachable() < self.cached_quorum {
            StatusLevel::worst_of(members, StatusLevel::Degraded)
        } else {
            members
        }
    }

    /// Messages of the group's status.
    pub open spec fn status_messages(&self) -> Seq<Seq<char>> {
        prefixed(
            "local#"@ + dec(self.local_replica.id as nat) + ": "@,
            if self.local_replica.shutdown_started {
                seq![self.local_replica.shut_down_message()]
            } else {
                Seq::<Seq<char>>::empty()
            },
        ) + all_peer_messages(real_remotes(self.remote_replicas@)) + if self.reachable()
            < self.cached_quorum {
            seq![self.quorum_message()]
        } else {
            Seq::<Seq<char>>::empty()
        }
    }

    /// The leader as far as this replica knows, `0` if it knows of none.
    pub open spec fn spec_leader_id(&self) -> u64 {
        match self.local_replica.believed_leader {
            Some(id) => id,
            None => 0,
        }
    }

    /// The leader as far as this replica knows, `0` if it knows of none.
    pub fn leader_id(&self) -> (id: PxNodeId)
        ensures
            id == self.spec_leader_id(),
    {
        match self.local_replica.believed_leader {
            Some(id) => id,
            None => 0,
        }
    }

    /// `s` is the status of this group and all its members.
    pub open spec fn reported_by(&self, s: GroupStatus) -> bool {
        &&& s.group_id == self.group_id
        &&& s.leader_id == self.spec_leader_id()
        &&& s.local_replica_id == self.local_replica.id
        &&& s.force_classic == self.config.force_classic
        &&& s.status == self.level()
        &&& texts(s.messages@) == self.status_messages()
        &&& self.local_replica.reported_by(s.local_replica)
        &&& s.remotes.len() == real_remotes(self.remote_replicas@).len()
        &&& forall|i: int|
            0 <= i < s.remotes.len() ==> real_remotes(self.remote_replicas@)[i].reported_by(
                #[trigger] s.remotes[i],
            )
        &&& s.inflight matches Some(f) && {
            &&& f.queue_count == self.inflight.queue_count
            &&& f.window_per_queue == self.inflight.window_per_queue
            &&& f.policy@ == self.inflight.policy.spec_label()
            &&& f.occupied == self.inflight.spec_occupied()
            &&& f.waiting == self.inflight.waiting
            &&& f.total_enqueued == self.inflight.total_enqueued
            &&& f.total_wait_us == self.inflight.total_wait_us
        }
    }

    /// Status of the group and all its members.
    pub fn status(&self) -> (s: GroupStatus)
        requires
            self.wf(),
            self.valid_replica_count < usize::MAX,
        ensures
            self.reported_by(s),
    {
        let local = self.local_replica.status();
        let mut status = local.status;
        let mut messages: Vec<String> = Vec::new();
        let id: String = decimal(self.local_replica.id);
        let label: String = concat3("local#", id.as_str(), ": ");
        extend_prefixed(&mut messages, label.as_str(), &local.messages);
        let ghost local_messages = prefixed(
            "local#"@ + dec(self.local_replica.id as nat) + ": "@,
            texts(local.messages@),
        );
        proof {
            assert(texts(Seq::<String>::empty()) + local_messages =~= local_messages);
            assert(texts(messages@) =~= local_messages);
        }
        let mut ok_voting: usize = if self.local_replica.voting && local.status
            != StatusLevel::Unhealthy {
            1
        } else {
            0
        };
        let ghost first: nat = ok_voting as nat;
        let mut remotes: Vec<RemoteStatus> = Vec::new();
        let ghost s = self.remote_replicas@;
        let mut i: usize = 0;
        proof {
            assert(s.take(0) =~= Seq::empty());
            assert(local_messages + Seq::<Seq<char>>::empty() =~= local_messages);
        }
        while i < self.remote_replicas.len()
            invariant
                i <= self.remote_replicas.len() < usize::MAX,
                s == self.remote_replicas@,
                first <= 1,
                ok_voting == first + reachable_voters(real_remotes(s.take(i as int))),
                ok_voting <= i + 1,
                status == worst_peer_level(local.status, real_remotes(s.take(i as int))),
                texts(messages@) == local_messages + all_peer_messages(
                    real_remotes(s.take(i as int)),
                ),
                remotes.len() == real_remotes(s.take(i as int)).len(),
                forall|k: int|
                    0 <= k < remotes.len() ==> real_remotes(s.take(i as int))[k].reported_by(
                        #[trigger] remotes[k],
                    ),
            decreases self.remote_replicas.len() - i,
        {
            proof {
                assert(s.take(i + 1).drop_last() =~= s.take(i as int));
                assert(s.take(i + 1).last() == s[i as int]);
            }
            if let RemoteReplicaKind::Real(r) = &self.remote_replicas[i] {
                proof {
                    assert(real_remotes(s.take(i + 1)).drop_last() =~= real_remotes(
                        s.take(i as int),
                    ));
                    assert(real_remotes(s.take(i + 1)).last() == *r);
                }
                let remote = r.status();
                if remote.voting && remote.status == StatusLevel::Healthy {
                    ok_voting = ok_voting + 1;
                }
                status = StatusLevel::worst(status, remote.status);
                let rid: String = decimal(remote.id);
                let label: String = concat3("remote#", rid.as_str(), ": ");
                let ghost before = messages@;
                extend_prefixed(&mut messages, label.as_str(), &remote.messages);
                proof {
                    assert(texts(messages@) =~= local_messages + all_peer_messages(
                        real_remotes(s.take(i + 1)),
                    ));
                }
                remotes.push(remote);
            }
            i = i + 1;
        }
        proof {
            assert(s.take(i as int) =~= s);
        }
        let ghost members = messages@;
        let quorum: usize = self.cached_quorum;
        if quorum > 0 && ok_voting < quorum {
            if status != StatusLevel::Unhealthy {
                status = StatusLevel::Degraded;
            }
            let gid: String = decimal(self.group_id);
            let ok: String = decimal(ok_voting as u64);
            let all: String = decimal((self.valid_replica_count + 1) as u64);
            let q: String = decimal(quorum as u64);
            let mut msg: String = concat3("group ", gid.as_str(), ": only ");
            msg.append(ok.as_str());
            msg.append("/");
            msg.append(all.as_str());
            msg.append(" voting replicas reachable (quorum ");
            msg.append(q.as_str());
            msg.append(")");
            messages.push(msg);
            proof {
                assert(msg@ =~= self.quorum_message());
                assert(texts(messages@) =~= texts(members).push(msg@));
            }
        }
        proof {
            assert(texts(messages@) =~= self.status_messages());
        }
        GroupStatus {
            group_id: self.group_id,
            leader_id: self.leader_id(),
            local_replica_id: local.id,
            force_classic: self.config.force_classic,
            status,
            messages,
            local_replica: local,
            remotes,
            inflight: Some(
                InflightStatus {
                    queue_count: self.inflight.queue_count,
                    window_per_queue: self.inflight.window_per_queue,
                    policy: self.inflight.policy.label().to_owned(),
                    occupied: self.inflight.occupied(),
                    waiting: self.inflight.waiting,
                    total_enqueued: self.inflight.total_enqueued,
                    total_wait_us: self.inflight.total_wait_us,
                },
            ),
        }
    }

    /// `after` is this group with its tenure ended and all members shut down.
    pub open spec fn shut_down_as(&self, after: PxGroup) -> bool {
        &&& after == (PxGroup {
            tenure_cancelled: true,
            remote_replicas: after.remote_replicas,
            local_replica: PxLocalReplica { shutdown_started: true, ..self.local_replica },
            ..*self
        })
        &&& after.remote_replicas.len() == self.remote_replicas.len()
        &&& forall|i: int|
            0 <= i < self.remote_replicas.len() ==> #[trigger] after.remote_replicas@[i]
                == match self.remote_replicas@[i] {
                RemoteReplicaKind::Real(r) => RemoteReplicaKind::Real(
                    PxRemoteReplica { shutdown_started: true, ..r },
                ),
                RemoteReplicaKind::Placeholder => RemoteReplicaKind::Placeholder,
            }
    }

    /// End the tenure and shut all members down, the remote ones first. The
    /// report collects what the members report, which is nothing.
    pub fn shutdown(&mut self) -> (report: ShutdownReport)
        ensures
            report.errors@ == Seq::<String>::empty(),
            old(self).shut_down_as(*final(self)),
            old(self).wf() ==> final(self).wf(),
    {
        let mut report = ShutdownReport::new();
        self.tenure_cancelled = true;
        let ghost start = self.remote_replicas@;
        let mut i: usize = 0;
        while i < self.remote_replicas.len()
            invariant
                i <= self.remote_replicas.len(),
                self.remote_replicas.len() == start.len(),
                start == old(self).remote_replicas@,
                report.errors@ == Seq::<String>::empty(),
                *self == (PxGroup {
                    tenure_cancelled: true,
                    remote_replicas: self.remote_replicas,
                    ..*old(self)
                }),
                forall|k: int|
                    i <= k < start.len() ==> #[trigger] self.remote_replicas[k] == start[k],
                forall|k: int|
                    0 <= k < i ==> #[trigger] self.remote_replicas[k] == match start[k] {
                        RemoteReplicaKind::Real(r) => RemoteReplicaKind::Real(
                            PxRemoteReplica { shutdown_started: true, ..r },
                        ),
                        RemoteReplicaKind::Placeholder => RemoteReplicaKind::Placeholder,
                    },
            decreases self.remote_replicas.len() - i,
        {
            let mut kind = RemoteReplicaKind::Placeholder;
            self.remote_replicas.set_and_swap(i, &mut kind);
            if let RemoteReplicaKind::Real(mut remote) = kind {
                let (sub, _first) = remote.shutdown();
                report.merge(sub);
                self.remote_replicas.set(i, RemoteReplicaKind::Real(remote));
            }
            i = i + 1;
        }
        let sub = self.local_replica.shutdown();
        report.merge(sub);
        proof {
            lemma_same_counts(start, self.remote_replicas@);
        }
        report
    }

    // ── Members and leader ──────────────────────────────────────
    /// Length of the member table, placeholders included.
    pub fn remote_replica_count(&self) -> (n: usize)
        ensures
            n == self.remote_replicas.len(),
    {
        self.remote_replicas.len()
    }

    /// The remote member `node_id`, if there is one.
    pub fn get_remote_replica(&self, node_id: PxNodeId) -> (r: Option<&PxRemoteReplica>)
        requires
            node_id <= usize::MAX,
        ensures
            match (entry_at(self.remote_replicas@, node_id as int), r) {
                (RemoteReplicaKind::Real(m), Some(e)) => *e == m,
                (RemoteReplicaKind::Placeholder, None) => true,
                _ => false,
            },
    {
        let idx: usize = node_id as usize;
        if idx < self.remote_replicas.len() {
            match &self.remote_replicas[idx] {
                RemoteReplicaKind::Real(r) => Some(r),
                RemoteReplicaKind::Placeholder => None,
            }
        } else {
            None
        }
    }

    /// Endpoint of the remote member `node_id`, if there is one.
    pub open spec fn spec_member_endpoint(&self, node_id: u64) -> Option<Seq<char>> {
        match entry_at(self.remote_replicas@, node_id as int) {
            RemoteReplicaKind::Real(m) => Some(m.endpoint@),
            RemoteReplicaKind::Placeholder => None,
        }
    }

    /// Endpoint of the remote member `node_id`, if there is one.
    pub fn member_endpoint(&self, node_id: PxNodeId) -> (r: Option<&str>)
        requires
            node_id <= usize::MAX,
        ensures
            match (self.spec_member_endpoint(node_id), r) {
                (Some(a), Some(b)) => a == b@,
                (None, None) => true,
                _ => false,
            },
    {
        match self.get_remote_replica(node_id) {
            Some(m) => Some(m.endpoint.as_str()),
            None => None,
        }
    }

    /// Endpoint that a request for the leader is to be sent to: none while
    /// this replica leads, or while no leader is known to be a member.
    pub open spec fn spec_leader_endpoint(&self) -> Option<Seq<char>> {
        if self.local_replica.role is Leader {
            None
        } else {
            match self.local_replica.believed_leader {
                Some(id) if id <= usize::MAX => self.spec_member_endpoint(id),
                _ => None,
            }
        }
    }

    /// Endpoint that a request for the leader is to be sent to: none while
    /// this replica leads, or while no leader is known to be a member.
    pub fn leader_endpoint(&self) -> (r: Option<String>)
        ensures
            match (self.spec_leader_endpoint(), r) {
                (Some(a), Some(b)) => a == b@,
                (None, None) => true,
                _ => false,
            },
    {
        if self.local_replica.is_leader() {
            return None;
        }
        match self.local_replica.believed_leader {
            Some(id) => if id <= usize::MAX as u64 {
                match self.member_endpoint(id) {
                    Some(e) => Some(e.to_owned()),
                    None => None,
                }
            } else {
                None
            },
            None => None,
        }
    }

    /// The text of the leader's endpoint, empty if there is none to give.
    pub open spec fn leader_hint(&self) -> Seq<char> {
        match self.spec_leader_endpoint() {
            Some(e) => e,
            None => Seq::empty(),
        }
    }

    /// Have the local replica give up leadership, if it leads.
    pub fn step_down_if_leader(&mut self, reason: &str) -> (r: StepDownReply)
        ensures
            r.accepted == (old(self).local_replica.role is Leader),
            r.current_term == old(self).local_replica.current_term,
            r.current_leader_id == final(self).spec_leader_id(),
            *final(self) == (PxGroup { local_replica: final(self).local_replica, ..*old(self) }),
            final(self).local_replica == if old(self).local_replica.role is Leader {
                PxLocalReplica {
                    role: PxLocalReplicaRole::Follower,
                    believed_leader: None,
                    lease_read_until_ms: 0,
                    admin_step_down: true,
                    ..old(self).local_replica
                }
            } else {
                old(self).local_replica
            },
    {
        let req = StepDownRequestPayload {
            term: self.local_replica.current_term,
            target_leader_id: self.local_replica.id,
            reason: reason.to_owned(),
        };
        self.local_replica.handle_step_down(&req)
    }

    // ── Settings ────────────────────────────────────────────────
    /// Write the membership to the group's own configuration file.
    pub fn set_config_store(&mut self, store: GroupConfigStore)
        ensures
            *final(self) == (PxGroup { config_store: Some(store), ..*old(self) }),
    {
        self.config_store = Some(store);
    }

    /// Write the membership to the node's common configuration file.
    pub fn set_node_config_store(&mut self, store_id: u64)
        ensures
            *final(self) == (PxGroup { node_config_store: Some(store_id), ..*old(self) }),
    {
        self.node_config_store = Some(store_id);
    }

    pub fn set_wal_early_ack(&mut self, enabled: bool)
        ensures
            *final(self) == (PxGroup {
                config: CrowKVConfig { wal_early_ack: enabled, ..old(self).config },
                ..*old(self)
            }),
    {
        self.config.wal_early_ack = enabled;
    }

    pub fn set_async_engine_apply(&mut self, enabled: bool)
        ensures
            *final(self) == (PxGroup {
                config: CrowKVConfig { async_engine_apply: enabled, ..old(self).config },
                ..*old(self)
            }),
    {
        self.config.async_engine_apply = enabled;
    }

    pub fn set_force_classic(&mut self, force: bool)
        ensures
            *final(self) == (PxGroup {
                config: CrowKVConfig { force_classic: force, ..old(self).config },
                ..*old(self)
            }),
    {
        self.config.force_classic = force;
    }

    /// Replace the admission gate. No proposal may be in flight.
    pub fn set_inflight_config(
        &mut self,
        max_inflight: usize,
        queues: usize,
        policy: AdmissionPolicy,
    )
        requires
            old(self).wf(),
            InflightAdmission::countable(max_inflight, queues),
        ensures
            final(self).wf(),
            final(self).inflight.spec_occupied() == 0,
            final(self).inflight.queue_count == if queues == 0 {
                1
            } else {
                queues
            },
            final(self).inflight.window_per_queue == crate::cluster::inflight::ceil_div(
                max_inflight as nat,
                final(self).inflight.queue_count as nat,
            ),
            final(self).inflight.policy == policy,
            *final(self) == (PxGroup {
                inflight: final(self).inflight,
                config: CrowKVConfig {
                    inflight: InflightConfig {
                        max_inflight_proposals: max_inflight,
                        inflight_queues: queues,
                        inflight_admission: policy,
                        ..old(self).config.inflight
                    },
                    ..old(self).config
                },
                ..*old(self)
            }),
    {
        self.inflight = InflightAdmission::new(max_inflight, queues, policy);
        self.config.inflight.max_inflight_proposals = max_inflight;
        self.config.inflight.inflight_queues = queues;
        self.config.inflight.inflight_admission = policy;
    }

    /// Take over all tunables, with an admission gate made from them.
    pub fn set_from_config(&mut self, config: &CrowKVConfig)
        requires
            old(self).wf(),
            InflightAdmission::countable(
                config.inflight.max_inflight_proposals,
                config.inflight.inflight_queues,
            ),
        ensures
            final(self).wf(),
            final(self).config == *config,
            final(self).inflight.spec_occupied() == 0,
            final(self).inflight.queue_count == if config.inflight.inflight_queues == 0 {
                1
            } else {
                config.inflight.inflight_queues
            },
            final(self).inflight.window_per_queue == crate::cluster::inflight::ceil_div(
                config.inflight.max_inflight_proposals as nat,
                final(self).inflight.queue_count as nat,
            ),
            final(self).inflight.policy == config.inflight.inflight_admission,
            *final(self) == (PxGroup {
                config: *config,
                inflight: final(self).inflight,
                ..*old(self)
            }),
    {
        self.config = *config;
        self.set_inflight_config(
            config.inflight.max_inflight_proposals,
            config.inflight.inflight_queues,
            config.inflight.inflight_admission,
        );
    }

    /// Slot of the next proposal, at least `1`.
    pub fn set_next_slot(&mut self, next_slot: SlotIndex)
        requires
            old(self).wf(),
        ensures
            final(self).wf(),
            *final(self) == (PxGroup {
                next_slot: if next_slot == 0 {
                    1
                } else {
                    next_slot
                },
                ..*old(self)
            }),
    {
        self.next_slot = if next_slot == 0 {
            1
        } else {
            next_slot
        };
    }

    pub fn group_id(&self) -> (id: u64)
        ensures
            id == self.group_id,
    {
        self.group_id
    }

    pub fn local_replica(&self) -> (r: &PxLocalReplica)
        ensures
            *r == self.local_replica,
    {
        &self.local_replica
    }

    /// All tunables of this group.
    pub fn config(&self) -> (c: &CrowKVConfig)
        ensures
            *c == self.config,
    {
        &self.config
    }

    /// Where the membership is written, if in a file of its own.
    pub fn config_store(&self) -> (s: Option<&GroupConfigStore>)
        ensures
            match (s, self.config_store) {
                (Some(a), Some(b)) => *a == b,
                (None, None) => true,
                _ => false,
            },
    {
        match &self.config_store {
            Some(s) => Some(s),
            None => None,
        }
    }

    /// The store whose entry in the node's common configuration file is this
    /// group's, if it is written there.
    pub fn node_config_store_sid(&self) -> (s: Option<u64>)
        ensures
            s == self.node_config_store,
    {
        self.node_config_store
    }

    /// Whether a prepare phase runs before every accept phase.
    pub fn force_classic(&self) -> (r: bool)
        ensures
            r == self.config.force_classic,
    {
        self.config.force_classic
    }

    /// Whether a chosen entry may be reported before its local log record is
    /// durable.
    pub fn wal_early_ack(&self) -> (r: bool)
        ensures
            r == self.config.wal_early_ack,
    {
        self.config.wal_early_ack
    }

    /// Whether a chosen entry may be reported before the local engine has applied
    /// it.
    pub fn async_engine_apply(&self) -> (r: bool)
        ensures
            r == self.config.async_engine_apply,
    {
        self.config.async_engine_apply
    }

    /// Whether the leader has recovered enough to serve reads.
    pub fn leader_read_ready(&self) -> (r: bool)
        ensures
            r == self.leader_read_ready,
    {
        self.leader_read_ready
    }

    /// Members needed for a quorum.
    pub fn quorum(&self) -> (q: usize)
        requires
            self.wf(),
        ensures
            q == self.cached_quorum,
            q == quorum_of(self.voters()),
    {
        self.cached_quorum
    }

    /// Proposals that may be in flight at once.
    pub fn inflight_window_size(&self) -> (n: usize)
        requires
            self.wf(),
        ensures
            n == self.inflight.window_per_queue * self.inflight.queue_count,
    {
        self.inflight.total_permits()
    }

    /// Number of admission queues.
    pub fn inflight_queue_count(&self) -> (n: usize)
        ensures
            n == self.inflight.queue_count,
    {
        self.inflight.queue_count
    }

    /// What happens to a proposal that finds its queue full.
    pub fn inflight_admission_policy(&self) -> (p: AdmissionPolicy)
        ensures
            p == self.inflight.policy,
    {
        self.inflight.policy
    }

    /// Proposals in flight.
    pub fn inflight_slot_count(&self) -> (n: u64)
        requires
            self.wf(),
        ensures
            n == self.inflight.spec_occupied(),
    {
        self.inflight.occupied()
    }
}


// ── Laws of a group's status ─────────────────────────────────────
proof fn lemma_worst_peer_level(start: StatusLevel, r: Seq<PxRemoteReplica>)
    ensures
        worst_peer_level(start, r).rank() >= start.rank(),
        forall|i: int|
            0 <= i < r.len() ==> worst_peer_level(start, r).rank() >= if (
            #[trigger] r[i]).channel_open {
                0int
            } else {
                1int
            },
        worst_peer_level(start, r) == start || exists|i: int|
            0 <= i < r.len() && !(#[trigger] r[i]).channel_open && worst_peer_level(start, r)
                == StatusLevel::Degraded,
    decreases r.len(),
{
    if r.len() > 0 {
        let front = r.drop_last();
        lemma_worst_peer_level(start, front);
        assert forall|i: int| 0 <= i < front.len() implies front[i] == #[trigger] r[i] by {}
        assert(r[r.len() - 1] == r.last());
        if worst_peer_level(start, front) != start && worst_peer_level(start, r) != start {
            let i = choose|i: int|
                0 <= i < front.len() && !(#[trigger] front[i]).channel_open && worst_peer_level(
                    start,
                    front,
                ) == StatusLevel::Degraded;
            assert(!r[i].channel_open);
        }
    }
}

proof fn lemma_reachable_filtered(
    r: Seq<PxRemoteReplica>,
    p: spec_fn(PxRemoteReplica) -> bool,
)
    requires
        forall|m: PxRemoteReplica| #[trigger] p(m) == (m.voting && m.channel_open),
    ensures
        reachable_voters(r) == r.filter(p).len(),
    decreases r.len(),
{
    reveal(Seq::filter);
    if r.len() > 0 {
        lemma_reachable_filtered(r.drop_last(), p);
    }
}

proof fn lemma_member_listed(s: Seq<RemoteReplicaKind>, i: int)
    requires
        0 <= i < s.len(),
        s[i] is Real,
    ensures
        exists|k: int|
            0 <= k < real_remotes(s).len() && #[trigger] real_remotes(s)[k] == s[i]->Real_0,
    decreases s.len(),
{
    let front = s.drop_last();
    if i < front.len() {
        assert(front[i] == s[i]);
        lemma_member_listed(front, i);
        let k = choose|k: int|
            0 <= k < real_remotes(front).len() && #[trigger] real_remotes(front)[k] == s[i]->Real_0;
        assert(real_remotes(s)[k] == s[i]->Real_0);
    } else {
        assert(real_remotes(s)[real_remotes(s).len() - 1] == s[i]->Real_0);
    }
}

/// A group is never reported better than one of its members: not than this
/// replica, nor than a remote member that is reported with it. A remote member
/// without a channel makes the group at least degraded.
pub proof fn group_is_no_better_than_its_members(g: PxGroup, s: GroupStatus)
    requires
        g.reported_by(s),
    ensures
        s.status.rank() >= s.local_replica.status.rank(),
        forall|k: int|
            0 <= k < s.remotes.len() ==> s.status.rank() >= (#[trigger] s.remotes[k]).status.rank(),
        forall|i: int|
            0 <= i < g.remote_replicas.len() ==> (
            #[trigger] g.remote_replicas[i] matches RemoteReplicaKind::Real(r) ==> {
                &&& s.status.rank() >= peer_level(r).rank()
                &&& !r.channel_open ==> s.status != StatusLevel::Healthy
            }),
        g.local_replica.shutdown_started ==> s.status == StatusLevel::Unhealthy,
{
    let start = if g.local_replica.shutdown_started {
        StatusLevel::Unhealthy
    } else {
        StatusLevel::Healthy
    };
    let members = real_remotes(g.remote_replicas@);
    lemma_worst_peer_level(start, members);
    assert forall|k: int| 0 <= k < s.remotes.len() implies s.status.rank() >= (
    #[trigger] s.remotes[k]).status.rank() by {
        assert(members[k].reported_by(s.remotes[k]));
    }
    assert forall|i: int| 0 <= i < g.remote_replicas.len() implies (
    #[trigger] g.remote_replicas[i] matches RemoteReplicaKind::Real(r) ==> {
        &&& s.status.rank() >= peer_level(r).rank()
        &&& !r.channel_open ==> s.status != StatusLevel::Healthy
    }) by {
        if g.remote_replicas[i] is Real {
            lemma_member_listed(g.remote_replicas@, i);
            let k = choose|k: int|
                0 <= k < members.len() && #[trigger] members[k]
                    == g.remote_replicas@[i]->Real_0;
            assert(members[k].channel_open || s.status.rank() >= 1);
        }
    }
}

/// A group is not reported worse than there is a reason for: it is unhealthy
/// only if this replica is shut down, and degraded only if a remote member has
/// no channel or the voting members that can be reached are short of a quorum.
pub proof fn healthy_members_make_a_healthy_group(g: PxGroup, s: GroupStatus)
    requires
        g.reported_by(s),
    ensures
        s.status == StatusLevel::Unhealthy <==> g.local_replica.shutdown_started,
        s.status == StatusLevel::Healthy <==> {
            &&& !g.local_replica.shutdown_started
            &&& forall|k: int|
                0 <= k < real_remotes(g.remote_replicas@).len() ==> (#[trigger] real_remotes(
                    g.remote_replicas@,
                )[k]).channel_open
            &&& real_remotes(g.remote_replicas@).filter(
                |m: PxRemoteReplica| m.voting && m.channel_open,
            ).len() + (if g.local_replica.voting {
                1int
            } else {
                0
            }) >= g.cached_quorum
        },
{
    let start = if g.local_replica.shutdown_started {
        StatusLevel::Unhealthy
    } else {
        StatusLevel::Healthy
    };
    let members = real_remotes(g.remote_replicas@);
    let p = |m: PxRemoteReplica| m.voting && m.channel_open;
    lemma_worst_peer_level(start, members);
    lemma_reachable_filtered(members, p);
}

/// A group short of a quorum says so, as its last message; one with a quorum
/// and whose members have nothing to tell has no message at all.
pub proof fn want_of_a_quorum_is_told(g: PxGroup, s: GroupStatus)
    requires
        g.reported_by(s),
    ensures
        real_remotes(g.remote_replicas@).filter(
            |m: PxRemoteReplica| m.voting && m.channel_open,
        ).len() + (if g.local_replica.voting && !g.local_replica.shutdown_started {
            1int
        } else {
            0
        }) < g.cached_quorum ==> s.messages.len() > 0 && s.messages@.last()@ == g.quorum_message(),
        s.status == StatusLevel::Healthy <==> s.messages.len() == 0,
{
    let members = real_remotes(g.remote_replicas@);
    let p = |m: PxRemoteReplica| m.voting && m.channel_open;
    lemma_reachable_filtered(members, p);
    healthy_members_make_a_healthy_group(g, s);
    lemma_no_peer_messages(members);
    let told = texts(s.messages@);
    assert(told.len() == s.messages.len());
    if told.len() > 0 {
        assert(told.last() == s.messages@.last()@);
    }
}

proof fn lemma_no_peer_messages(r: Seq<PxRemoteReplica>)
    ensures
        all_peer_messages(r).len() == 0 <==> forall|k: int|
            0 <= k < r.len() ==> (#[trigger] r[k]).channel_open,
    decreases r.len(),
{
    if r.len() > 0 {
        let front = r.drop_last();
        lemma_no_peer_messages(front);
        assert forall|i: int| 0 <= i < front.len() implies front[i] == #[trigger] r[i] by {}
        assert(r[r.len() - 1] == r.last());
        if forall|k: int| 0 <= k < front.len() ==> (#[trigger] front[k]).channel_open {
            assert forall|k: int| 0 <= k < front.len() implies (#[trigger] r[k]).channel_open by {
                assert(front[k].channel_open);
            }
        }
    }
}

/// A request that this replica cannot serve is sent on to the leader's endpoint
/// where it follows and the leader that it believes in is a member; a leader
/// sends nobody away, and a replica that knows of no leader gives no endpoint.
pub proof fn follower_points_to_its_leader(g: PxGroup, id: u64, r: PxRemoteReplica)
    requires
        id < g.remote_replicas.len(),
        g.remote_replicas@[id as int] == RemoteReplicaKind::Real(r),
    ensures
        !(g.local_replica.role is Leader) && g.local_replica.believed_leader == Some(id)
            ==> g.leader_hint() == r.endpoint@,
        g.local_replica.role is Leader ==> g.leader_hint().len() == 0,
        g.local_replica.believed_leader is None ==> g.leader_hint().len() == 0,
        g.spec_member_endpoint(id) == Some(r.endpoint@),
{
}

/// A group that was shut down reports itself unhealthy, keeps its members, and
/// has each of them marked as shut down; its tenure is over.
pub proof fn shut_down_group_is_unhealthy(before: PxGroup, after: PxGroup, s: GroupStatus)
    requires
        before.shut_down_as(after),
        after.reported_by(s),
    ensures
        s.status == StatusLevel::Unhealthy,
        after.tenure_cancelled,
        after.local_replica.shutdown_started,
        forall|i: int|
            0 <= i < before.remote_replicas.len() ==> (
            #[trigger] before.remote_replicas@[i] matches RemoteReplicaKind::Real(r) ==> (
            after.remote_replicas@[i] matches RemoteReplicaKind::Real(now) && now.shutdown_started
                && now.node_id == r.node_id && now.endpoint == r.endpoint && now.voting
                == r.voting)),
{
    group_is_no_better_than_its_members(after, s);
    assert forall|i: int| 0 <= i < before.remote_replicas.len() implies (
    #[trigger] before.remote_replicas@[i] matches RemoteReplicaKind::Real(r) ==> (
    after.remote_replicas@[i] matches RemoteReplicaKind::Real(now) && now.shutdown_started
        && now.node_id == r.node_id && now.endpoint == r.endpoint && now.voting == r.voting)) by {
        assert(after.remote_replicas@[i] == match before.remote_replicas@[i] {
            RemoteReplicaKind::Real(r) => RemoteReplicaKind::Real(
                PxRemoteReplica { shutdown_started: true, ..r },
            ),
            RemoteReplicaKind::Placeholder => RemoteReplicaKind::Placeholder,
        });
    }
}

/// A shutdown reaches the local replica and every peer, and leaves out none.
pub proof fn shutdown_reaches_every_member(before: PxGroup, after: PxGroup, i: int)
    requires
        before.shut_down_as(after),
    ensures
        after.tenure_cancelled,
        after.local_replica.shutdown_started,
        after.group_id == before.group_id,
        after.remote_replicas@.len() == before.remote_replicas@.len(),
        0 <= i < before.remote_replicas@.len() ==> (
        before.remote_replicas@[i] matches RemoteReplicaKind::Real(r) ==> (
        after.remote_replicas@[i] matches RemoteReplicaKind::Real(s) && s.shutdown_started
            && s.node_id == r.node_id && s.endpoint == r.endpoint)),
{
    if 0 <= i < before.remote_replicas@.len() {
        assert(after.remote_replicas@[i] == after.remote_replicas@[i]);
    }
}

} // verus!
