//! One consensus group: membership, epochs, watermarks, status and shutdown.
//!
//! The proposer's side of a group is in [`crate::cluster::proposer`], its
//! elections are in [`crate::cluster::election`].

use crate::cluster::group_config::{
    members_view, ConfigView, GroupConfigStore, MemberView, PxGroupConfig, PxGroupMember,
};
use crate::cluster::inflight::InflightAdmission;
use crate::cluster::local_replica::PxLocalReplica;
use crate::cluster::quorum::{quorum_is_the_least_majority, quorum_of};
use crate::cluster::remote_replica::PxRemoteReplica;
use crate::common::config::CrowKVConfig;
use crate::paxos::{PxGroupId, PxNodeId};
use crate::paxos::roles::DedupTag;
use std::collections::HashMap;
use vstd::prelude::*;
use vstd::string::*;

verus! {

broadcast use vstd::std_specs::hash::group_hash_axioms;

/// An entry of a group's member table, which is indexed by node id.
#[derive(Debug)]
pub enum RemoteReplicaKind {
    Real(PxRemoteReplica),
    Placeholder,
}

impl RemoteReplicaKind {
    /// A member that counts toward quorums.
    pub open spec fn votes(self) -> bool {
        self matches RemoteReplicaKind::Real(r) && r.voting
    }

    fn voting(&self) -> (r: bool)
        ensures
            r == self.votes(),
    {
        match self {
            RemoteReplicaKind::Real(r) => r.voting,
            RemoteReplicaKind::Placeholder => false,
        }
    }

    fn endpoint(&self) -> (r: Option<&str>)
        ensures
            match (self, r) {
                (RemoteReplicaKind::Real(m), Some(e)) => e@ == m.endpoint@,
                (RemoteReplicaKind::Placeholder, None) => true,
                _ => false,
            },
    {
        match self {
            RemoteReplicaKind::Real(r) => Some(r.endpoint.as_str()),
            RemoteReplicaKind::Placeholder => None,
        }
    }

    fn as_real(&self) -> (r: Option<&PxRemoteReplica>)
        ensures
            match (self, r) {
                (RemoteReplicaKind::Real(m), Some(e)) => *e == *m,
                (RemoteReplicaKind::Placeholder, None) => true,
                _ => false,
            },
    {
        match self {
            RemoteReplicaKind::Real(r) => Some(r),
            RemoteReplicaKind::Placeholder => None,
        }
    }
}

/// The members in a table, in order of their ids.
pub open spec fn real_remotes(s: Seq<RemoteReplicaKind>) -> Seq<PxRemoteReplica>
    decreases s.len(),
{
    if s.len() == 0 {
        Seq::empty()
    } else {
        match s.last() {
            RemoteReplicaKind::Real(r) => real_remotes(s.drop_last()).push(r),
            RemoteReplicaKind::Placeholder => real_remotes(s.drop_last()),
        }
    }
}

/// Number of members in a table that count toward quorums.
pub open spec fn voting_remotes(s: Seq<RemoteReplicaKind>) -> nat
    decreases s.len(),
{
    if s.len() == 0 {
        0
    } else {
        voting_remotes(s.drop_last()) + if s.last().votes() {
            1nat
        } else {
            0
        }
    }
}

/// Every member stands at the index of its id.
pub open spec fn indexed_by_id(s: Seq<RemoteReplicaKind>) -> bool {
    forall|i: int|
        0 <= i < s.len() ==> (#[trigger] s[i] matches RemoteReplicaKind::Real(r) ==> r.node_id == i)
}

pub proof fn lemma_counts_bounded(s: Seq<RemoteReplicaKind>)
    ensures
        voting_remotes(s) <= real_remotes(s).len() <= s.len(),
    decreases s.len(),
{
    if s.len() > 0 {
        lemma_counts_bounded(s.drop_last());
    }
}

/// How the counts change when one entry of a table is replaced.
pub proof fn lemma_counts_update(s: Seq<RemoteReplicaKind>, i: int, k: RemoteReplicaKind)
    requires
        0 <= i < s.len(),
    ensures
        voting_remotes(s.update(i, k)) == voting_remotes(s) - (if s[i].votes() {
            1int
        } else {
            0
        }) + (if k.votes() {
            1int
        } else {
            0
        }),
        real_remotes(s.update(i, k)).len() == real_remotes(s).len() - (if s[i] is Real {
            1int
        } else {
            0
        }) + (if k is Real {
            1int
        } else {
            0
        }),
    decreases s.len(),
{
    if i == s.len() - 1 {
        assert(s.update(i, k).drop_last() =~= s.drop_last());
    } else {
        lemma_counts_update(s.drop_last(), i, k);
        assert(s.update(i, k).drop_last() =~= s.drop_last().update(i, k));
    }
}

/// Placeholders at the end of a table change no count.
pub proof fn lemma_counts_padding(s: Seq<RemoteReplicaKind>)
    ensures
        voting_remotes(s.push(RemoteReplicaKind::Placeholder)) == voting_remotes(s),
        real_remotes(s.push(RemoteReplicaKind::Placeholder)) == real_remotes(s),
{
    assert(s.push(RemoteReplicaKind::Placeholder).drop_last() =~= s);
}

/// Two tables with the same members at the same places have the same counts.
pub proof fn lemma_same_counts(a: Seq<RemoteReplicaKind>, b: Seq<RemoteReplicaKind>)
    requires
        a.len() == b.len(),
        forall|i: int|
            0 <= i < a.len() ==> (#[trigger] a[i]).votes() == b[i].votes() && (a[i] is Real) == (
            b[i] is Real),
    ensures
        voting_remotes(a) == voting_remotes(b),
        real_remotes(a).len() == real_remotes(b).len(),
    decreases a.len(),
{
    if a.len() > 0 {
        let last = a.len() - 1;
        assert(a[last].votes() == b[last].votes());
        assert forall|i: int| 0 <= i < a.drop_last().len() implies (#[trigger] a.drop_last()[i]).votes()
            == b.drop_last()[i].votes() && (a.drop_last()[i] is Real) == (b.drop_last()[i] is Real) by {
            assert(a[i].votes() == b[i].votes());
        }
        lemma_same_counts(a.drop_last(), b.drop_last());
    }
}

proof fn lemma_no_members(s: Seq<RemoteReplicaKind>)
    requires
        forall|i: int| 0 <= i < s.len() ==> #[trigger] s[i] is Placeholder,
    ensures
        real_remotes(s) == Seq::<PxRemoteReplica>::empty(),
        voting_remotes(s) == 0,
    decreases s.len(),
{
    if s.len() > 0 {
        assert(s[s.len() - 1] is Placeholder);
        lemma_no_members(s.drop_last());
    }
}

/// The slot that a member was last heard to have reached; `0` before it was
/// heard from.
pub open spec fn reported(peers: Map<u64, u64>, id: u64) -> u64 {
    if peers.contains_key(id) {
        peers[id]
    } else {
        0
    }
}

/// The lowest slot among `local` and what the voting members have reported.
pub open spec fn lowest_reported(
    s: Seq<RemoteReplicaKind>,
    peers: Map<u64, u64>,
    local: u64,
) -> u64
    decreases s.len(),
{
    if s.len() == 0 {
        local
    } else {
        let front = lowest_reported(s.drop_last(), peers, local);
        match s.last() {
            RemoteReplicaKind::Real(r) if r.voting && reported(peers, r.node_id) < front => {
                reported(peers, r.node_id)
            },
            _ => front,
        }
    }
}

/// The highest slot that any voting member has reported.
pub open spec fn highest_reported(s: Seq<RemoteReplicaKind>, peers: Map<u64, u64>) -> u64
    decreases s.len(),
{
    if s.len() == 0 {
        0
    } else {
        let front = highest_reported(s.drop_last(), peers);
        match s.last() {
            RemoteReplicaKind::Real(r) if r.voting && reported(peers, r.node_id) > front => {
                reported(peers, r.node_id)
            },
            _ => front,
        }
    }
}

/// Inputs of the sweep that a new leader runs over the open slots.
#[derive(Clone, Copy, Debug, PartialEq, Eq, Structural)]
pub struct PendingLeaderHandoff {
    pub term: u64,
    pub peer_floor: u64,
    pub peer_ceiling: u64,
}

/// Single-key operations collected into one proposal.
#[derive(Debug)]
pub struct PendingBatch {
    /// Bodies of the operations, one behind the other.
    pub op_bodies: Vec<u8>,
    pub op_count: u8,
    pub tags: Vec<DedupTag>,
}

/// Where a group's configuration is written to.
#[derive(Debug)]
pub enum ConfigTarget {
    /// The entry of `store_id` in the node's common configuration file.
    NodeConfig { store_id: u64 },
    /// The group's own configuration file.
    GroupFile,
    /// Nowhere.
    Nowhere,
}

/// One consensus group on this node.
#[derive(Debug)]
pub struct PxGroup {
    pub group_id: PxGroupId,
    /// Members needed for a quorum.
    pub cached_quorum: usize,
    pub local_replica: PxLocalReplica,
    /// Remote members, indexed by node id.
    pub remote_replicas: Vec<RemoteReplicaKind>,
    pub valid_replica_count: usize,
    /// Slot of the next proposal.
    pub next_slot: u64,
    pub config: CrowKVConfig,
    /// Set when the current leadership tenure is over, or the group shuts down.
    pub tenure_cancelled: bool,
    pub pending_leader_handoff: Option<PendingLeaderHandoff>,
    /// Term of the tenure in which this replica proposes.
    pub proposing_term: u64,
    /// Whether the leader has recovered enough to serve reads.
    pub leader_read_ready: bool,
    /// Applied slots that the voting members reported.
    pub peer_applied: HashMap<u64, u64>,
    /// Slot that every voting member is known to have applied.
    pub group_safe_slot: u64,
    /// Durable slots that the voting members reported.
    pub peer_durable: HashMap<u64, u64>,
    /// Slot that is durable here and on at least one other member.
    pub group_snapshot_slot: u64,
    pub inflight: InflightAdmission,
    pub config_store: Option<GroupConfigStore>,
    /// Store whose entry in the node's common configuration file is this group's.
    pub node_config_store: Option<u64>,
    /// Number of changes of the voting membership.
    pub membership_epoch: u64,
    pub last_snapshot_slot: u64,
    pub last_snapshot_time_ms: u64,
    /// Operations that are being collected, if any.
    pub coalescer: Option<PendingBatch>,
}

impl PxGroup {
    /// Number of voting members, the local replica among them.
    pub open spec fn voters(&self) -> nat {
        voting_remotes(self.remote_replicas@) + if self.local_replica.voting {
            1nat
        } else {
            0
        }
    }

    /// Members are indexed by their ids and counted; the quorum is a majority
    /// of the voting members; slots start at 1.
    pub open spec fn wf(&self) -> bool {
        &&& self.local_replica.wf()
        &&& indexed_by_id(self.remote_replicas@)
        &&& self.remote_replicas.len() < usize::MAX
        &&& self.valid_replica_count >= real_remotes(self.remote_replicas@).len()
        &&& self.cached_quorum == quorum_of(self.voters())
        &&& self.inflight.wf()
        &&& self.next_slot >= 1
    }

    /// The membership as a configuration, the local replica first.
    pub open spec fn membership(&self) -> ConfigView {
        ConfigView {
            group_id: self.group_id,
            term: self.local_replica.current_term,
            members: seq![
                MemberView {
                    replica_id: self.local_replica.id,
                    endpoint: match self.local_replica.own_endpoint {
                        Some(e) => e@,
                        None => Seq::<char>::empty(),
                    },
                    voting: self.local_replica.voting,
                },
            ] + real_remotes(self.remote_replicas@).map_values(
                |r: PxRemoteReplica| member_of(r),
            ),
        }
    }

    /// This is a new group of one: only the local replica.
    pub open spec fn is_new(&self, group_id: u64, local_replica: PxLocalReplica) -> bool {
        &&& self.group_id == group_id
        &&& self.local_replica == local_replica
        &&& self.remote_replicas@ == Seq::<RemoteReplicaKind>::empty()
        &&& self.valid_replica_count == 0
        &&& self.next_slot == 1
        &&& !self.tenure_cancelled
        &&& self.pending_leader_handoff is None
        &&& self.proposing_term == 0
        &&& self.leader_read_ready
        &&& self.peer_applied@ == Map::<u64, u64>::empty()
        &&& self.group_safe_slot == 0
        &&& self.peer_durable@ == Map::<u64, u64>::empty()
        &&& self.group_snapshot_slot == 0
        &&& self.config == CrowKVConfig::default_spec()
        &&& self.inflight.spec_occupied() == 0
        &&& self.inflight.waiting == 0
        &&& self.inflight.route_counter == 0
        &&& self.inflight.queue_count == 1
        &&& self.inflight.window_per_queue == 16
        &&& self.inflight.policy is Reject
        &&& self.config_store is None
        &&& self.node_config_store is None
        &&& self.membership_epoch == 0
        &&& self.last_snapshot_slot == 0
        &&& self.last_snapshot_time_ms == 0
        &&& self.coalescer is None
    }

    /// A group of one: only the local replica.
    pub fn new(group_id: PxGroupId, local_replica: PxLocalReplica) -> (g: Self)
        requires
            local_replica.wf(),
        ensures
            g.wf(),
            g.is_new(group_id, local_replica),
    {
        let config = CrowKVConfig::default();
        let inflight = InflightAdmission::new(
            config.inflight.max_inflight_proposals,
            config.inflight.inflight_queues,
            config.inflight.inflight_admission,
        );
        PxGroup {
            group_id,
            cached_quorum: 1,
            local_replica,
            remote_replicas: Vec::new(),
            valid_replica_count: 0,
            next_slot: 1,
            config,
            tenure_cancelled: false,
            pending_leader_handoff: None,
            proposing_term: 0,
            leader_read_ready: true,
            peer_applied: HashMap::new(),
            group_safe_slot: 0,
            peer_durable: HashMap::new(),
            group_snapshot_slot: 0,
            inflight,
            config_store: None,
            node_config_store: None,
            membership_epoch: 0,
            last_snapshot_slot: 0,
            last_snapshot_time_ms: 0,
            coalescer: None,
        }
    }

    // ── Membership ──────────────────────────────────────────────
    /// Count the voting members anew.
    pub(crate) fn recompute_quorum(&mut self)
        requires
            old(self).remote_replicas.len() < usize::MAX,
        ensures
            *final(self) == (PxGroup {
                cached_quorum: final(self).cached_quorum,
                ..*old(self)
            }),
            final(self).cached_quorum == quorum_of(final(self).voters()),
    {
        let ghost s = self.remote_replicas@;
        let mut voting_count: usize = 0;
        let mut i: usize = 0;
        proof {
            assert(s.take(0) =~= Seq::empty());
        }
        while i < self.remote_replicas.len()
            invariant
                i <= self.remote_replicas.len(),
                s == self.remote_replicas@,
                voting_count <= i,
                voting_count == voting_remotes(s.take(i as int)),
            decreases self.remote_replicas.len() - i,
        {
            proof {
                assert(s.take(i + 1).drop_last() =~= s.take(i as int));
                assert(s.take(i + 1).last() == s[i as int]);
            }
            if self.remote_replicas[i].voting() {
                voting_count = voting_count + 1;
            }
            i = i + 1;
        }
        proof {
            assert(s.take(i as int) =~= s);
        }
        if self.local_replica.voting {
            voting_count = voting_count + 1;
        }
        self.cached_quorum = voting_count / 2 + 1;
    }

    /// Make the member table long enough for index `idx`.
    fn reserve_member(&mut self, idx: usize)
        requires
            old(self).wf(),
            idx < usize::MAX - 1,
        ensures
            final(self).wf(),
            idx < final(self).remote_replicas.len(),
            *final(self) == (PxGroup {
                remote_replicas: final(self).remote_replicas,
                ..*old(self)
            }),
            padded(old(self).remote_replicas@, final(self).remote_replicas@),
            final(self).remote_replicas.len() == if idx < old(self).remote_replicas.len() {
                old(self).remote_replicas.len() as int
            } else {
                idx + 1
            },
    {
        while idx >= self.remote_replicas.len()
            invariant
                self.wf(),
                idx < usize::MAX - 1,
                *self == (PxGroup { remote_replicas: self.remote_replicas, ..*old(self) }),
                padded(old(self).remote_replicas@, self.remote_replicas@),
                self.remote_replicas.len() == old(self).remote_replicas.len()
                    || self.remote_replicas.len() <= idx + 1,
            decreases idx + 1 - self.remote_replicas.len(),
        {
            proof {
                lemma_counts_padding(self.remote_replicas@);
            }
            self.remote_replicas.push(RemoteReplicaKind::Placeholder);
        }
    }

    /// Add a remote member, or replace the one with its id. The epoch moves on
    /// exactly when the voting membership changes.
    pub fn add_remote_replica(&mut self, remote: PxRemoteReplica)
        requires
            old(self).wf(),
            remote.node_id < usize::MAX - 1,
            old(self).valid_replica_count < usize::MAX,
            entry_at(old(self).remote_replicas@, remote.node_id as int).votes() != remote.voting
                ==> old(self).membership_epoch < u64::MAX,
        ensures
            final(self).wf(),
            member_added(*old(self), *final(self), remote),
            ({
                let idx = remote.node_id as int;
                let before = entry_at(old(self).remote_replicas@, idx);
                &&& with_member(
                    old(self).remote_replicas@,
                    final(self).remote_replicas@,
                    idx,
                    RemoteReplicaKind::Real(remote),
                )
                &&& final(self).valid_replica_count == old(self).valid_replica_count + if before is Real {
                    0int
                } else {
                    1
                }
                &&& final(self).membership_epoch == old(self).membership_epoch + if before.votes()
                    != remote.voting {
                    1int
                } else {
                    0
                }
            }),
            *final(self) == (PxGroup {
                remote_replicas: final(self).remote_replicas,
                valid_replica_count: final(self).valid_replica_count,
                cached_quorum: final(self).cached_quorum,
                membership_epoch: final(self).membership_epoch,
                ..*old(self)
            }),
    {
        let idx: usize = remote.node_id as usize;
        self.reserve_member(idx);
        let ghost s = self.remote_replicas@;
        let was_voting = self.remote_replicas[idx].voting();
        let new_voting = remote.voting;
        let was_real = match self.remote_replicas[idx] {
            RemoteReplicaKind::Real(_) => true,
            RemoteReplicaKind::Placeholder => false,
        };
        if !was_real {
            self.valid_replica_count = self.valid_replica_count + 1;
        }
        proof {
            lemma_counts_update(s, idx as int, RemoteReplicaKind::Real(remote));
        }
        self.remote_replicas.set(idx, RemoteReplicaKind::Real(remote));
        self.recompute_quorum();
        if was_voting != new_voting {
            self.membership_epoch = self.membership_epoch + 1;
        }
    }

    /// Remove the remote member `node_id`. Returns whether there was one. The
    /// epoch moves on exactly when a voting member leaves.
    pub fn remove_remote_replica(&mut self, node_id: PxNodeId) -> (removed: bool)
        requires
            old(self).wf(),
            node_id <= usize::MAX,
            entry_at(old(self).remote_replicas@, node_id as int).votes() ==> old(
                self,
            ).membership_epoch < u64::MAX,
        ensures
            final(self).wf(),
            member_dropped(*old(self), *final(self), node_id, removed),
            ({
                let before = entry_at(old(self).remote_replicas@, node_id as int);
                &&& removed == (before is Real)
                &&& removed ==> {
                    &&& final(self).remote_replicas@ == old(self).remote_replicas@.update(
                        node_id as int,
                        RemoteReplicaKind::Placeholder,
                    )
                    &&& final(self).valid_replica_count == old(self).valid_replica_count - 1
                    &&& final(self).membership_epoch == old(self).membership_epoch
                        + if before.votes() {
                        1int
                    } else {
                        0
                    }
                    &&& *final(self) == (PxGroup {
                        remote_replicas: final(self).remote_replicas,
                        valid_replica_count: final(self).valid_replica_count,
                        cached_quorum: final(self).cached_quorum,
                        membership_epoch: final(self).membership_epoch,
                        ..*old(self)
                    })
                }
                &&& !removed ==> *final(self) == *old(self)
            }),
    {
        let idx: usize = node_id as usize;
        if idx >= self.remote_replicas.len() {
            return false;
        }
        let ghost s = self.remote_replicas@;
        let was_voting = match &self.remote_replicas[idx] {
            RemoteReplicaKind::Real(prev) => prev.voting,
            RemoteReplicaKind::Placeholder => {
                return false;
            },
        };
        proof {
            lemma_counts_update(s, idx as int, RemoteReplicaKind::Placeholder);
        }
        self.remote_replicas.set(idx, RemoteReplicaKind::Placeholder);
        self.valid_replica_count = self.valid_replica_count - 1;
        self.recompute_quorum();
        if was_voting {
            self.membership_epoch = self.membership_epoch + 1;
        }
        true
    }

    /// Replace the endpoint of the member `node_id`, and return the old one. A
    /// node that is no member yet becomes a voting one, and the epoch moves on.
    pub fn update_member_endpoint(&mut self, node_id: PxNodeId, endpoint: String) -> (previous:
        Option<String>)
        requires
            old(self).wf(),
            node_id < usize::MAX - 1,
            entry_at(old(self).remote_replicas@, node_id as int) is Placeholder ==> old(
                self,
            ).membership_epoch < u64::MAX,
        ensures
            final(self).wf(),
            match (entry_at(old(self).remote_replicas@, node_id as int), previous) {
                (RemoteReplicaKind::Real(r), Some(p)) => {
                    &&& p == r.endpoint
                    &&& final(self).remote_replicas@ == old(self).remote_replicas@.update(
                        node_id as int,
                        RemoteReplicaKind::Real(PxRemoteReplica { endpoint, ..r }),
                    )
                    &&& *final(self) == (PxGroup {
                        remote_replicas: final(self).remote_replicas,
                        ..*old(self)
                    })
                },
                (RemoteReplicaKind::Placeholder, None) => {
                    &&& exists|m: PxRemoteReplica| #[trigger]
                        m.is_fresh(node_id, endpoint@, true) && with_member(
                            old(self).remote_replicas@,
                            final(self).remote_replicas@,
                            node_id as int,
                            RemoteReplicaKind::Real(m),
                        )
                    &&& final(self).valid_replica_count == real_remotes(
                        final(self).remote_replicas@,
                    ).len()
                    &&& final(self).membership_epoch == old(self).membership_epoch + 1
                    &&& *final(self) == (PxGroup {
                        remote_replicas: final(self).remote_replicas,
                        valid_replica_count: final(self).valid_replica_count,
                        cached_quorum: final(self).cached_quorum,
                        membership_epoch: final(self).membership_epoch,
                        ..*old(self)
                    })
                },
                _ => false,
            },
    {
        let idx: usize = node_id as usize;
        if idx < self.remote_replicas.len() {
            let ghost s = self.remote_replicas@;
            if let RemoteReplicaKind::Real(remote) = &self.remote_replicas[idx] {
                let old_endpoint: String = remote.endpoint.clone();
                let ghost updated = RemoteReplicaKind::Real(PxRemoteReplica { endpoint, ..*remote });
                let mut kind = RemoteReplicaKind::Placeholder;
                self.remote_replicas.set_and_swap(idx, &mut kind);
                if let RemoteReplicaKind::Real(mut r) = kind {
                    r.endpoint = endpoint;
                    self.remote_replicas.set(idx, RemoteReplicaKind::Real(r));
                }
                proof {
                    lemma_counts_update(s, idx as int, updated);
                    assert(self.remote_replicas@ =~= s.update(idx as int, updated));
                }
                return Some(old_endpoint);
            }
        }
        self.reserve_member(idx);
        let ghost s = self.remote_replicas@;
        let fresh = PxRemoteReplica::new(node_id, endpoint);
        let ghost m = fresh;
        proof {
            lemma_counts_update(s, idx as int, RemoteReplicaKind::Real(m));
            lemma_counts_bounded(s.update(idx as int, RemoteReplicaKind::Real(m)));
        }
        self.remote_replicas.set(idx, RemoteReplicaKind::Real(fresh));
        self.valid_replica_count = self.count_members();
        self.recompute_quorum();
        self.membership_epoch = self.membership_epoch + 1;
        proof {
            assert(m.is_fresh(node_id, endpoint@, true));
        }
        None
    }

    /// Number of remote members.
    fn count_members(&self) -> (n: usize)
        ensures
            n == real_remotes(self.remote_replicas@).len(),
    {
        let ghost s = self.remote_replicas@;
        let mut n: usize = 0;
        let mut i: usize = 0;
        proof {
            assert(s.take(0) =~= Seq::empty());
        }
        while i < self.remote_replicas.len()
            invariant
                i <= self.remote_replicas.len(),
                s == self.remote_replicas@,
                n <= i,
                n == real_remotes(s.take(i as int)).len(),
            decreases self.remote_replicas.len() - i,
        {
            proof {
                assert(s.take(i + 1).drop_last() =~= s.take(i as int));
                assert(s.take(i + 1).last() == s[i as int]);
            }
            if self.remote_replicas[i].as_real().is_some() {
                n = n + 1;
            }
            i = i + 1;
        }
        proof {
            assert(s.take(i as int) =~= s);
        }
        n
    }
}

/// The entry at index `idx`, or a placeholder beyond the end.
pub open spec fn entry_at(s: Seq<RemoteReplicaKind>, idx: int) -> RemoteReplicaKind {
    if 0 <= idx < s.len() {
        s[idx]
    } else {
        RemoteReplicaKind::Placeholder
    }
}

/// `after` is `before` with placeholders behind it.
pub open spec fn padded(before: Seq<RemoteReplicaKind>, after: Seq<RemoteReplicaKind>) -> bool {
    &&& before.len() <= after.len()
    &&& forall|i: int| 0 <= i < after.len() ==> #[trigger] after[i] == entry_at(before, i)
}

/// `after` is `before` with `k` at index `idx`, and placeholders up to there.
pub open spec fn with_member(
    before: Seq<RemoteReplicaKind>,
    after: Seq<RemoteReplicaKind>,
    idx: int,
    k: RemoteReplicaKind,
) -> bool {
    &&& after.len() == if idx < before.len() {
        before.len() as int
    } else {
        idx + 1
    }
    &&& forall|i: int|
        0 <= i < after.len() ==> #[trigger] after[i] == if i == idx {
            k
        } else {
            entry_at(before, i)
        }
}

/// `after` is `before` with the remote member `remote`, in place of the one with
/// its id if there was one.
pub open spec fn member_added(before: PxGroup, after: PxGroup, remote: PxRemoteReplica) -> bool {
    let idx = remote.node_id as int;
    let was = entry_at(before.remote_replicas@, idx);
    &&& with_member(
        before.remote_replicas@,
        after.remote_replicas@,
        idx,
        RemoteReplicaKind::Real(remote),
    )
    &&& after.membership_epoch == before.membership_epoch + if was.votes() != remote.voting {
        1int
    } else {
        0
    }
    &&& after == (PxGroup {
        remote_replicas: after.remote_replicas,
        valid_replica_count: after.valid_replica_count,
        cached_quorum: after.cached_quorum,
        membership_epoch: after.membership_epoch,
        ..before
    })
}

/// `after` is `before` without the remote member `node_id`; `removed` tells
/// whether there was one.
pub open spec fn member_dropped(
    before: PxGroup,
    after: PxGroup,
    node_id: u64,
    removed: bool,
) -> bool {
    let was = entry_at(before.remote_replicas@, node_id as int);
    &&& removed == (was is Real)
    &&& if removed {
        &&& after.remote_replicas@ == before.remote_replicas@.update(
            node_id as int,
            RemoteReplicaKind::Placeholder,
        )
        &&& after.membership_epoch == before.membership_epoch + if was.votes() {
            1int
        } else {
            0
        }
        &&& after == (PxGroup {
            remote_replicas: after.remote_replicas,
            valid_replica_count: after.valid_replica_count,
            cached_quorum: after.cached_quorum,
            membership_epoch: after.membership_epoch,
            ..before
        })
    } else {
        after == before
    }
}

// ── Whole memberships ────────────────────────────────────────────
/// The highest id among `remotes`, `0` if there are none.
pub open spec fn highest_id(remotes: Seq<PxRemoteReplica>) -> u64
    decreases remotes.len(),
{
    if remotes.len() == 0 {
        0
    } else {
        let front = highest_id(remotes.drop_last());
        if remotes.last().node_id > front {
            remotes.last().node_id
        } else {
            front
        }
    }
}

/// The last of `remotes` with this id, if any.
pub open spec fn last_with_id(remotes: Seq<PxRemoteReplica>, id: int) -> Option<PxRemoteReplica>
    decreases remotes.len(),
{
    if remotes.len() == 0 {
        None
    } else {
        match last_with_id(remotes.drop_first(), id) {
            Some(r) => Some(r),
            None => if remotes[0].node_id == id {
                Some(remotes[0])
            } else {
                None
            },
        }
    }
}

/// `table` holds `remotes` by their ids; of several with one id, the last.
pub open spec fn is_table_of(table: Seq<RemoteReplicaKind>, remotes: Seq<PxRemoteReplica>) -> bool {
    &&& table.len() == highest_id(remotes) + 1
    &&& forall|i: int|
        0 <= i < table.len() ==> #[trigger] table[i] == match last_with_id(remotes, i) {
            Some(r) => RemoteReplicaKind::Real(r),
            None => RemoteReplicaKind::Placeholder,
        }
}

proof fn lemma_id_bounded(remotes: Seq<PxRemoteReplica>, k: int)
    requires
        0 <= k < remotes.len(),
    ensures
        remotes[k].node_id <= highest_id(remotes),
    decreases remotes.len(),
{
    if k < remotes.len() - 1 {
        lemma_id_bounded(remotes.drop_last(), k);
    }
}

/// The members of a configuration other than the local replica.
pub open spec fn other_members(m: Seq<MemberView>, local_id: u64) -> Seq<MemberView>
    decreases m.len(),
{
    if m.len() == 0 {
        Seq::empty()
    } else if m.last().replica_id != local_id {
        other_members(m.drop_last(), local_id).push(m.last())
    } else {
        other_members(m.drop_last(), local_id)
    }
}

/// `remotes` are fresh peers for the members `m`, one for one.
pub open spec fn fresh_peers(remotes: Seq<PxRemoteReplica>, m: Seq<MemberView>) -> bool {
    &&& remotes.len() == m.len()
    &&& forall|i: int|
        0 <= i < m.len() ==> (#[trigger] remotes[i]).is_fresh(
            m[i].replica_id,
            m[i].endpoint,
            m[i].voting,
        )
}

/// `after` is `before` with the membership `config`: every member but the local
/// replica is a peer that has not been contacted.
pub open spec fn config_applied(
    before: PxGroup,
    after: PxGroup,
    config: ConfigView,
    membership_epoch: u64,
) -> bool {
    let others = other_members(config.members, before.local_replica.id);
    &&& exists|remotes: Seq<PxRemoteReplica>| #[trigger]
        fresh_peers(remotes, others) && is_table_of(after.remote_replicas@, remotes)
    &&& after.valid_replica_count == others.len()
    &&& after == (PxGroup {
        remote_replicas: after.remote_replicas,
        valid_replica_count: after.valid_replica_count,
        cached_quorum: after.cached_quorum,
        membership_epoch,
        ..before
    })
}

/// A remote member as a configuration lists it.
pub open spec fn member_of(r: PxRemoteReplica) -> MemberView {
    MemberView { replica_id: r.node_id, endpoint: r.endpoint@, voting: r.voting }
}

impl PxGroup {
    /// Replace all remote members.
    pub fn set_remote_replicas(&mut self, remote_replicas: Vec<PxRemoteReplica>)
        requires
            old(self).wf(),
            forall|i: int|
                0 <= i < remote_replicas.len() ==> (#[trigger] remote_replicas[i]).node_id
                    < usize::MAX - 1,
        ensures
            final(self).wf(),
            is_table_of(final(self).remote_replicas@, remote_replicas@),
            final(self).valid_replica_count == remote_replicas.len(),
            *final(self) == (PxGroup {
                remote_replicas: final(self).remote_replicas,
                valid_replica_count: final(self).valid_replica_count,
                cached_quorum: final(self).cached_quorum,
                ..*old(self)
            }),
    {
        let ghost all = remote_replicas@;
        let count: usize = remote_replicas.len();
        let mut rest = remote_replicas;
        let mut max_id: u64 = 0;
        let mut i: usize = 0;
        proof {
            assert(all.take(0) =~= Seq::empty());
        }
        while i < rest.len()
            invariant
                i <= rest.len(),
                rest@ == all,
                max_id == highest_id(all.take(i as int)),
                max_id < usize::MAX - 1,
                forall|i: int| 0 <= i < all.len() ==> (#[trigger] all[i]).node_id < usize::MAX - 1,
            decreases rest.len() - i,
        {
            proof {
                assert(all.take(i + 1).drop_last() =~= all.take(i as int));
                assert(all.take(i + 1).last() == all[i as int]);
            }
            if rest[i].node_id > max_id {
                max_id = rest[i].node_id;
            }
            i = i + 1;
        }
        proof {
            assert(all.take(i as int) =~= all);
        }
        let len: usize = max_id as usize + 1;
        let mut table: Vec<RemoteReplicaKind> = Vec::new();
        while table.len() < len
            invariant
                table.len() <= len,
                forall|k: int| 0 <= k < table.len() ==> #[trigger] table[k] is Placeholder,
            decreases len - table.len(),
        {
            table.push(RemoteReplicaKind::Placeholder);
        }
        proof {
            lemma_no_members(table@);
            assert(all.skip(all.len() as int) =~= Seq::empty());
            assert(rest@ =~= all.take(all.len() as int));
        }
        // From the last to the first, so that the first entry found for an id
        // is the one that stays.
        while rest.len() > 0
            invariant
                rest.len() <= all.len(),
                rest@ == all.take(rest.len() as int),
                len == highest_id(all) + 1,
                table.len() == len,
                len < usize::MAX,
                indexed_by_id(table@),
                real_remotes(table@).len() <= all.len() - rest.len(),
                forall|k: int|
                    0 <= k < table.len() ==> #[trigger] table[k] == match last_with_id(
                        all.skip(rest.len() as int),
                        k,
                    ) {
                        Some(r) => RemoteReplicaKind::Real(r),
                        None => RemoteReplicaKind::Placeholder,
                    },
            decreases rest.len(),
        {
            let ghost n = rest.len() as int;
            let ghost before = table@;
            proof {
                lemma_id_bounded(all, n - 1);
                assert(all.skip(n - 1).drop_first() =~= all.skip(n));
                assert(all.skip(n - 1)[0] == all[n - 1]);
            }
            match rest.pop() {
                Some(remote) => {
                    let idx: usize = remote.node_id as usize;
                    let ghost r = remote;
                    let free = match table[idx] {
                        RemoteReplicaKind::Placeholder => true,
                        RemoteReplicaKind::Real(_) => false,
                    };
                    if free {
                        proof {
                            lemma_counts_update(before, idx as int, RemoteReplicaKind::Real(r));
                        }
                        table.set(idx, RemoteReplicaKind::Real(remote));
                    }
                    proof {
                        assert(rest@ =~= all.take(n - 1));
                        assert(r == all[n - 1]);
                        assert forall|k: int| 0 <= k < table.len() implies #[trigger] table[k]
                            == match last_with_id(all.skip(n - 1), k) {
                            Some(r) => RemoteReplicaKind::Real(r),
                            None => RemoteReplicaKind::Placeholder,
                        } by {
                            assert(before[k] == match last_with_id(all.skip(n), k) {
                                Some(r) => RemoteReplicaKind::Real(r),
                                None => RemoteReplicaKind::Placeholder,
                            });
                        }
                    }
                },
                None => {},
            }
        }
        proof {
            assert(all.skip(0) =~= all);
        }
        self.remote_replicas = table;
        self.valid_replica_count = count;
        self.recompute_quorum();
    }

    /// Take over a persisted membership: every member but the local replica
    /// becomes a peer that has not been contacted, and the epoch is set.
    pub fn apply_config(&mut self, config: &PxGroupConfig, membership_epoch: u64)
        requires
            old(self).wf(),
            forall|i: int|
                0 <= i < config.members.len() ==> (#[trigger] config.members[i]).replica_id
                    < usize::MAX - 1,
        ensures
            final(self).wf(),
            config_applied(*old(self), *final(self), config@, membership_epoch),
    {
        let local_id: u64 = self.local_replica.id;
        let ghost m = config@.members;
        let mut remotes: Vec<PxRemoteReplica> = Vec::new();
        let mut i: usize = 0;
        proof {
            assert(m.take(0) =~= Seq::empty());
        }
        while i < config.members.len()
            invariant
                i <= config.members.len(),
                m == config@.members,
                fresh_peers(remotes@, other_members(m.take(i as int), local_id)),
                forall|k: int|
                    0 <= k < remotes.len() ==> (#[trigger] remotes[k]).node_id < usize::MAX - 1,
                forall|i: int|
                    0 <= i < config.members.len() ==> (#[trigger] config.members[i]).replica_id
                        < usize::MAX - 1,
            decreases config.members.len() - i,
        {
            proof {
                assert(m.take(i + 1).drop_last() =~= m.take(i as int));
                assert(m.take(i + 1).last() == config.members[i as int]@);
            }
            let member = &config.members[i];
            if member.replica_id != local_id {
                remotes.push(
                    PxRemoteReplica::new(member.replica_id, member.endpoint.clone()).with_voting(
                        member.voting,
                    ),
                );
            }
            i = i + 1;
        }
        proof {
            assert(m.take(i as int) =~= m);
        }
        let ghost r = remotes@;
        self.set_remote_replicas(remotes);
        self.membership_epoch = membership_epoch;
        proof {
            assert(fresh_peers(r, other_members(m, local_id)));
        }
    }

    /// The current membership as a configuration, the local replica first, and
    /// where it is to be written.
    pub fn persist_config(&self) -> (r: (PxGroupConfig, ConfigTarget))
        ensures
            r.0@ == self.membership(),
            r.0@ == (ConfigView {
                group_id: self.group_id,
                term: self.local_replica.current_term,
                members: seq![
                    MemberView {
                        replica_id: self.local_replica.id,
                        endpoint: match self.local_replica.own_endpoint {
                            Some(e) => e@,
                            None => Seq::<char>::empty(),
                        },
                        voting: self.local_replica.voting,
                    },
                ] + real_remotes(self.remote_replicas@).map_values(
                    |r: PxRemoteReplica| member_of(r),
                ),
            }),
            match r.1 {
                ConfigTarget::NodeConfig { store_id } => self.node_config_store == Some(store_id),
                ConfigTarget::GroupFile => self.node_config_store is None && self.config_store is Some,
                ConfigTarget::Nowhere => self.node_config_store is None
                    && self.config_store is None,
            },
    {
        let mut members: Vec<PxGroupMember> = Vec::new();
        members.push(
            PxGroupMember {
                replica_id: self.local_replica.id,
                endpoint: match &self.local_replica.own_endpoint {
                    Some(e) => e.clone(),
                    None => String::new(),
                },
                voting: self.local_replica.voting,
            },
        );
        let ghost s = self.remote_replicas@;
        let ghost first = members@[0]@;
        let ghost f = |r: PxRemoteReplica| member_of(r);
        let mut i: usize = 0;
        proof {
            assert(s.take(0) =~= Seq::empty());
            assert(members_view(members@) =~= seq![first] + real_remotes(s.take(0)).map_values(f));
        }
        while i < self.remote_replicas.len()
            invariant
                i <= self.remote_replicas.len(),
                s == self.remote_replicas@,
                f == (|r: PxRemoteReplica| member_of(r)),
                members_view(members@) == seq![first] + real_remotes(s.take(i as int)).map_values(
                    f,
                ),
            decreases self.remote_replicas.len() - i,
        {
            let ghost before = members@;
            proof {
                assert(s.take(i + 1).drop_last() =~= s.take(i as int));
                assert(s.take(i + 1).last() == s[i as int]);
            }
            match &self.remote_replicas[i] {
                RemoteReplicaKind::Real(remote) => {
                    members.push(
                        PxGroupMember {
                            replica_id: remote.node_id,
                            endpoint: remote.endpoint.clone(),
                            voting: remote.voting,
                        },
                    );
                    proof {
                        assert(members_view(members@) =~= members_view(before).push(
                            member_of(*remote),
                        ));
                        assert(members_view(members@) =~= seq![first] + real_remotes(
                            s.take(i + 1),
                        ).map_values(f));
                    }
                },
                RemoteReplicaKind::Placeholder => {},
            }
            i = i + 1;
        }
        proof {
            assert(s.take(i as int) =~= s);
        }
        let target = match self.node_config_store {
            Some(store_id) => ConfigTarget::NodeConfig { store_id },
            None => if self.config_store.is_some() {
                ConfigTarget::GroupFile
            } else {
                ConfigTarget::Nowhere
            },
        };
        (
            PxGroupConfig {
                group_id: self.group_id,
                term: self.local_replica.current_term,
                members,
            },
            target,
        )
    }

    /// Id, endpoint and voting right of every remote member.
    pub fn remote_replica_info(&self) -> (r: Vec<(PxNodeId, String, bool)>)
        ensures
            r.len() == real_remotes(self.remote_replicas@).len(),
            forall|i: int|
                0 <= i < r.len() ==> ({
                    let m = real_remotes(self.remote_replicas@)[i];
                    &&& (#[trigger] r[i]).0 == m.node_id
                    &&& r[i].1@ == m.endpoint@
                    &&& r[i].2 == m.voting
                }),
    {
        let ghost s = self.remote_replicas@;
        let mut r: Vec<(PxNodeId, String, bool)> = Vec::new();
        let mut i: usize = 0;
        proof {
            assert(s.take(0) =~= Seq::empty());
        }
        while i < self.remote_replicas.len()
            invariant
                i <= self.remote_replicas.len(),
                s == self.remote_replicas@,
                r.len() == real_remotes(s.take(i as int)).len(),
                forall|k: int|
                    0 <= k < r.len() ==> ({
                        let m = real_remotes(s.take(i as int))[k];
                        &&& (#[trigger] r[k]).0 == m.node_id
                        &&& r[k].1@ == m.endpoint@
                        &&& r[k].2 == m.voting
                    }),
            decreases self.remote_replicas.len() - i,
        {
            proof {
                assert(s.take(i + 1).drop_last() =~= s.take(i as int));
                assert(s.take(i + 1).last() == s[i as int]);
            }
            match &self.remote_replicas[i] {
                RemoteReplicaKind::Real(remote) => {
                    r.push((remote.node_id, remote.endpoint.clone(), remote.voting));
                },
                RemoteReplicaKind::Placeholder => {},
            }
            i = i + 1;
        }
        proof {
            assert(s.take(i as int) =~= s);
        }
        r
    }
}

// ── Laws of membership ───────────────────────────────────────────
/// Moving the voting membership of a well-formed group by one member keeps
/// choices safe: every quorum before the change meets every quorum after it.
pub proof fn one_membership_change_keeps_quorums_overlapping(before: PxGroup, after: PxGroup)
    requires
        before.wf(),
        after.wf(),
        after.voters() <= before.voters() + 1,
        before.voters() <= after.voters() + 1,
    ensures
        ({
            let all = if before.voters() >= after.voters() {
                before.voters()
            } else {
                after.voters()
            };
            before.cached_quorum + after.cached_quorum > all
        }),
{
}

/// Peers that carry distinct ids are all in the table that is made of them.
pub proof fn distinct_peers_are_all_members(
    table: Seq<RemoteReplicaKind>,
    remotes: Seq<PxRemoteReplica>,
    k: int,
)
    requires
        is_table_of(table, remotes),
        0 <= k < remotes.len(),
        forall|i: int, j: int|
            0 <= i < j < remotes.len() ==> #[trigger] remotes[i].node_id
                != #[trigger] remotes[j].node_id,
    ensures
        table[remotes[k].node_id as int] == RemoteReplicaKind::Real(remotes[k]),
{
    lemma_id_bounded(remotes, k);
    lemma_last_with_distinct_id(remotes, k);
    assert(table[remotes[k].node_id as int] == RemoteReplicaKind::Real(remotes[k]));
}

proof fn lemma_last_with_distinct_id(remotes: Seq<PxRemoteReplica>, k: int)
    requires
        0 <= k < remotes.len(),
        forall|i: int, j: int|
            0 <= i < j < remotes.len() ==> #[trigger] remotes[i].node_id
                != #[trigger] remotes[j].node_id,
    ensures
        last_with_id(remotes, remotes[k].node_id as int) == Some(remotes[k]),
    decreases remotes.len(),
{
    let tail = remotes.drop_first();
    assert forall|i: int, j: int| 0 <= i < j < tail.len() implies #[trigger] tail[i].node_id
        != #[trigger] tail[j].node_id by {
        assert(remotes[i + 1].node_id != remotes[j + 1].node_id);
    }
    if k > 0 {
        lemma_last_with_distinct_id(tail, k - 1);
    } else {
        lemma_absent_id(tail, remotes[0].node_id as int);
    }
}

proof fn lemma_absent_id(remotes: Seq<PxRemoteReplica>, id: int)
    requires
        forall|i: int| 0 <= i < remotes.len() ==> #[trigger] remotes[i].node_id != id,
    ensures
        last_with_id(remotes, id) is None,
    decreases remotes.len(),
{
    if remotes.len() > 0 {
        assert(remotes[0].node_id != id);
        assert forall|i: int| 0 <= i < remotes.drop_first().len() implies #[trigger] remotes.drop_first()[i].node_id
            != id by {
            assert(remotes[i + 1].node_id != id);
        }
        lemma_absent_id(remotes.drop_first(), id);
    }
}

proof fn lemma_members_contained(s: Seq<RemoteReplicaKind>, r: PxRemoteReplica)
    ensures
        real_remotes(s).contains(r) <==> s.contains(RemoteReplicaKind::Real(r)),
    decreases s.len(),
{
    let k = RemoteReplicaKind::Real(r);
    let all = real_remotes(s);
    if s.len() > 0 {
        let front = s.drop_last();
        let before = real_remotes(front);
        lemma_members_contained(front, r);
        assert(s[s.len() - 1] == s.last());
        if before.contains(r) {
            let i = choose|i: int| 0 <= i < before.len() && before[i] == r;
            assert(all[i] == r);
            let j = choose|j: int| 0 <= j < front.len() && front[j] == k;
            assert(s[j] == k);
        }
        if s.contains(k) {
            let j = choose|j: int| 0 <= j < s.len() && s[j] == k;
            if j < front.len() {
                assert(front[j] == k);
            } else {
                assert(all[all.len() - 1] == r);
            }
        }
        if all.contains(r) && !before.contains(r) {
            let i = choose|i: int| 0 <= i < all.len() && all[i] == r;
            if i < before.len() {
                assert(before[i] == r);
            }
        }
    }
}

proof fn lemma_voting_filtered(
    s: Seq<RemoteReplicaKind>,
    p: spec_fn(RemoteReplicaKind) -> bool,
)
    requires
        forall|k: RemoteReplicaKind| #[trigger]
            p(k) == (k matches RemoteReplicaKind::Real(r) && r.voting),
    ensures
        voting_remotes(s) == s.filter(p).len(),
    decreases s.len(),
{
    reveal(Seq::filter);
    if s.len() > 0 {
        lemma_voting_filtered(s.drop_last(), p);
    }
}

/// The members of a group are exactly those in its table.
pub proof fn table_lists_its_members(s: Seq<RemoteReplicaKind>, r: PxRemoteReplica)
    ensures
        real_remotes(s).contains(r) <==> exists|i: int|
            0 <= i < s.len() && #[trigger] s[i] == RemoteReplicaKind::Real(r),
{
    lemma_members_contained(s, r);
    if exists|i: int| 0 <= i < s.len() && #[trigger] s[i] == RemoteReplicaKind::Real(r) {
        let i = choose|i: int| 0 <= i < s.len() && #[trigger] s[i] == RemoteReplicaKind::Real(r);
        assert(s.contains(s[i]));
    }
}

/// The quorum of a well-formed group is the least majority of its voting
/// members, which are the voting members in its table and the local replica
/// where it votes. Members without a vote do not count.
pub proof fn group_quorum_is_the_least_majority(g: PxGroup, n: nat)
    requires
        g.wf(),
    ensures
        ({
            let voters = g.remote_replicas@.filter(
                |k: RemoteReplicaKind| k matches RemoteReplicaKind::Real(r) && r.voting,
            ).len() + (if g.local_replica.voting {
                1nat
            } else {
                0
            });
            n >= g.cached_quorum <==> 2 * n > voters
        }),
{
    let p = |k: RemoteReplicaKind| k matches RemoteReplicaKind::Real(r) && r.voting;
    lemma_voting_filtered(g.remote_replicas@, p);
    quorum_is_the_least_majority(g.voters(), n);
}

proof fn lemma_last_with_id(remotes: Seq<PxRemoteReplica>, id: int)
    ensures
        match last_with_id(remotes, id) {
            Some(r) => r.node_id == id && exists|k: int|
                0 <= k < remotes.len() && #[trigger] remotes[k] == r && forall|j: int|
                    k < j < remotes.len() ==> (#[trigger] remotes[j]).node_id != id,
            None => forall|k: int|
                0 <= k < remotes.len() ==> (#[trigger] remotes[k]).node_id != id,
        },
    decreases remotes.len(),
{
    if remotes.len() > 0 {
        let tail = remotes.drop_first();
        lemma_last_with_id(tail, id);
        assert forall|k: int| 0 < k < remotes.len() implies #[trigger] remotes[k] == tail[k - 1] by {}
        if let Some(r) = last_with_id(tail, id) {
            let k = choose|k: int|
                0 <= k < tail.len() && #[trigger] tail[k] == r && forall|j: int|
                    k < j < tail.len() ==> (#[trigger] tail[j]).node_id != id;
            assert(remotes[k + 1] == r);
            assert forall|j: int| k + 1 < j < remotes.len() implies (
            #[trigger] remotes[j]).node_id != id by {
                assert(tail[j - 1].node_id != id);
            }
        } else {
            assert forall|j: int| 0 < j < remotes.len() implies (
            #[trigger] remotes[j]).node_id != id by {
                assert(tail[j - 1].node_id != id);
            }
        }
    }
}

/// A table made of peers holds, at the index of every id, the last peer with
/// that id, and no peer that is not among them.
pub proof fn table_holds_the_last_of_each_id(
    table: Seq<RemoteReplicaKind>,
    remotes: Seq<PxRemoteReplica>,
)
    requires
        is_table_of(table, remotes),
    ensures
        forall|k: int|
            0 <= k < remotes.len() && (forall|j: int|
                k < j < remotes.len() ==> (#[trigger] remotes[j]).node_id != remotes[k].node_id)
                ==> (#[trigger] remotes[k]).node_id < table.len()
                && table[remotes[k].node_id as int] == RemoteReplicaKind::Real(remotes[k]),
        forall|i: int|
            0 <= i < table.len() ==> (#[trigger] table[i] matches RemoteReplicaKind::Real(r)
                ==> r.node_id == i && remotes.contains(r)),
{
    assert forall|k: int|
        0 <= k < remotes.len() && (forall|j: int|
            k < j < remotes.len() ==> (#[trigger] remotes[j]).node_id != remotes[k].node_id)
    implies (#[trigger] remotes[k]).node_id < table.len() && table[remotes[k].node_id as int]
        == RemoteReplicaKind::Real(remotes[k]) by {
        let id = remotes[k].node_id as int;
        lemma_id_bounded(remotes, k);
        lemma_last_with_id(remotes, id);
        let r = last_with_id(remotes, id)->0;
        let m = choose|m: int|
            0 <= m < remotes.len() && #[trigger] remotes[m] == r && forall|j: int|
                m < j < remotes.len() ==> (#[trigger] remotes[j]).node_id != id;
        assert(m == k);
        assert(table[id] == RemoteReplicaKind::Real(remotes[k]));
    }
    assert forall|i: int| 0 <= i < table.len() implies (
    #[trigger] table[i] matches RemoteReplicaKind::Real(r) ==> r.node_id == i && remotes.contains(
        r,
    )) by {
        lemma_last_with_id(remotes, i);
    }
}

proof fn lemma_other_members(m: Seq<MemberView>, local_id: u64, x: MemberView)
    ensures
        other_members(m, local_id).contains(x) <==> m.contains(x) && x.replica_id != local_id,
    decreases m.len(),
{
    let all = other_members(m, local_id);
    if m.len() > 0 {
        let front = m.drop_last();
        let before = other_members(front, local_id);
        lemma_other_members(front, local_id, x);
        assert(m[m.len() - 1] == m.last());
        if before.contains(x) {
            let i = choose|i: int| 0 <= i < before.len() && before[i] == x;
            assert(all[i] == x);
            let j = choose|j: int| 0 <= j < front.len() && front[j] == x;
            assert(m[j] == x);
        }
        if m.contains(x) && x.replica_id != local_id {
            let j = choose|j: int| 0 <= j < m.len() && m[j] == x;
            if j < front.len() {
                assert(front[j] == x);
            } else {
                assert(all[all.len() - 1] == x);
            }
        }
        if all.contains(x) && !before.contains(x) {
            let i = choose|i: int| 0 <= i < all.len() && all[i] == x;
            if i < before.len() {
                assert(before[i] == x);
            }
        }
    }
}

/// A group that takes over a configuration has as remote members exactly the
/// members that the configuration lists, other than the local replica, each
/// with the endpoint and the vote that it lists for it. Ids are distinct. The
/// epoch is the one that comes with it, and nothing else changes but what is
/// counted.
pub proof fn configured_members_are_the_members(
    before: PxGroup,
    after: PxGroup,
    config: ConfigView,
    membership_epoch: u64,
    x: MemberView,
)
    requires
        config_applied(before, after, config, membership_epoch),
        forall|i: int, j: int|
            0 <= i < j < config.members.len() ==> #[trigger] config.members[i].replica_id
                != #[trigger] config.members[j].replica_id,
    ensures
        config.members.contains(x) && x.replica_id != before.local_replica.id ==> exists|i: int|
            0 <= i < after.remote_replicas.len() && (
            #[trigger] after.remote_replicas@[i] matches RemoteReplicaKind::Real(r) && r.node_id
                == x.replica_id && r.endpoint@ == x.endpoint && r.voting == x.voting),
        forall|i: int|
            0 <= i < after.remote_replicas.len() ==> (
            #[trigger] after.remote_replicas@[i] matches RemoteReplicaKind::Real(r) ==> r.node_id
                == i && r.node_id != before.local_replica.id && config.members.contains(
                member_of(r),
            )),
        after.membership_epoch == membership_epoch,
        after.local_replica == before.local_replica,
        after.next_slot == before.next_slot,
{
    let local_id = before.local_replica.id;
    let others = other_members(config.members, local_id);
    let remotes = choose|remotes: Seq<PxRemoteReplica>| #[trigger]
        fresh_peers(remotes, others) && is_table_of(after.remote_replicas@, remotes);
    let table = after.remote_replicas@;
    table_holds_the_last_of_each_id(table, remotes);
    lemma_other_members(config.members, local_id, x);
    if config.members.contains(x) && x.replica_id != local_id {
        let k = choose|k: int| 0 <= k < others.len() && others[k] == x;
        assert(remotes[k].is_fresh(x.replica_id, x.endpoint, x.voting));
        let id = remotes[k].node_id as int;
        lemma_id_bounded(remotes, k);
        lemma_last_with_id(remotes, id);
        let r = last_with_id(remotes, id)->0;
        let m = choose|m: int|
            0 <= m < remotes.len() && #[trigger] remotes[m] == r && forall|j: int|
                m < j < remotes.len() ==> (#[trigger] remotes[j]).node_id != id;
        assert(remotes[m].is_fresh(others[m].replica_id, others[m].endpoint, others[m].voting));
        lemma_other_members(config.members, local_id, others[m]);
        assert(others.contains(others[m]));
        let a = choose|a: int| 0 <= a < config.members.len() && config.members[a] == x;
        let b = choose|b: int| 0 <= b < config.members.len() && config.members[b] == others[m];
        assert(config.members[a].replica_id == config.members[b].replica_id);
        assert(a == b);
        assert(table[id] == RemoteReplicaKind::Real(r));
    }
    assert forall|i: int| 0 <= i < table.len() implies (
    #[trigger] table[i] matches RemoteReplicaKind::Real(r) ==> r.node_id == i && r.node_id
        != local_id && config.members.contains(member_of(r))) by {
        if let RemoteReplicaKind::Real(r) = table[i] {
            let k = choose|k: int| 0 <= k < remotes.len() && remotes[k] == r;
            assert(remotes[k].is_fresh(others[k].replica_id, others[k].endpoint, others[k].voting));
            lemma_other_members(config.members, local_id, others[k]);
            assert(others.contains(others[k]));
            assert(member_of(r) == others[k]);
        }
    }
}

/// Putting a member into a table puts it at the index of its id, and leaves
/// every other entry as it was.
pub proof fn added_member_keeps_the_others(
    before: Seq<RemoteReplicaKind>,
    after: Seq<RemoteReplicaKind>,
    idx: int,
    k: RemoteReplicaKind,
)
    requires
        idx >= 0,
        with_member(before, after, idx, k),
    ensures
        idx < after.len() && after[idx] == k,
        forall|i: int| 0 <= i < before.len() && i != idx ==> i < after.len() && #[trigger] after[i]
            == before[i],
        forall|i: int|
            before.len() <= i < after.len() && i != idx ==> #[trigger] after[i] is Placeholder,
{
}

proof fn lemma_counts_with_member(
    before: Seq<RemoteReplicaKind>,
    after: Seq<RemoteReplicaKind>,
    idx: int,
    k: RemoteReplicaKind,
)
    requires
        idx >= 0,
        with_member(before, after, idx, k),
    ensures
        voting_remotes(after) == voting_remotes(before) - (if entry_at(before, idx).votes() {
            1int
        } else {
            0
        }) + (if k.votes() {
            1int
        } else {
            0
        }),
    decreases after.len() - before.len(),
{
    if idx < before.len() {
        lemma_counts_update(before, idx, k);
        assert(after =~= before.update(idx, k));
    } else {
        let more = before.push(RemoteReplicaKind::Placeholder);
        lemma_counts_padding(before);
        assert forall|i: int| 0 <= i < after.len() implies #[trigger] after[i] == if i == idx {
            k
        } else {
            entry_at(more, i)
        } by {
            assert(after[i] == if i == idx {
                k
            } else {
                entry_at(before, i)
            });
        }
        lemma_counts_with_member(more, after, idx, k);
    }
}

/// A member that is added is a member, with its endpoint and its vote, and the
/// others stay. The number of voting members, and with it the quorum, follows
/// its vote, and the epoch moves on exactly if that vote is a change.
pub proof fn added_member_is_counted(before: PxGroup, after: PxGroup, remote: PxRemoteReplica)
    requires
        before.wf(),
        after.wf(),
        member_added(before, after, remote),
    ensures
        real_remotes(after.remote_replicas@).contains(remote),
        entry_at(before.remote_replicas@, remote.node_id as int) is Placeholder && remote.voting
            ==> {
            &&& after.voters() == before.voters() + 1
            &&& after.cached_quorum == quorum_of(before.voters() + 1)
            &&& after.membership_epoch == before.membership_epoch + 1
        },
        entry_at(before.remote_replicas@, remote.node_id as int) is Placeholder && !remote.voting
            ==> {
            &&& after.voters() == before.voters()
            &&& after.cached_quorum == before.cached_quorum
            &&& after.membership_epoch == before.membership_epoch
        },
        forall|other: PxRemoteReplica|
            other.node_id != remote.node_id ==> (#[trigger] real_remotes(
                after.remote_replicas@,
            ).contains(other) <==> real_remotes(before.remote_replicas@).contains(other)),
        after.local_replica == before.local_replica,
        after.next_slot == before.next_slot,
{
    let idx = remote.node_id as int;
    let s = before.remote_replicas@;
    let t = after.remote_replicas@;
    lemma_counts_with_member(s, t, idx, RemoteReplicaKind::Real(remote));
    table_lists_its_members(t, remote);
    assert(t[idx] == RemoteReplicaKind::Real(remote));
    assert forall|other: PxRemoteReplica| other.node_id != remote.node_id implies (
    #[trigger] real_remotes(t).contains(other) <==> real_remotes(s).contains(other)) by {
        table_lists_its_members(t, other);
        table_lists_its_members(s, other);
        if exists|i: int| 0 <= i < t.len() && #[trigger] t[i] == RemoteReplicaKind::Real(other) {
            let i = choose|i: int|
                0 <= i < t.len() && #[trigger] t[i] == RemoteReplicaKind::Real(other);
            assert(i != idx);
            assert(t[i] == entry_at(s, i));
            assert(s[i] == RemoteReplicaKind::Real(other));
        }
        if exists|i: int| 0 <= i < s.len() && #[trigger] s[i] == RemoteReplicaKind::Real(other) {
            let i = choose|i: int|
                0 <= i < s.len() && #[trigger] s[i] == RemoteReplicaKind::Real(other);
            assert(other.node_id == i);
            assert(t[i] == entry_at(s, i));
        }
    }
}

/// A member that is removed is no member any more; whoever else was one still
/// is. The quorum follows, and the epoch moves on exactly if the member voted.
/// Where there was no such member nothing changes.
pub proof fn dropped_member_is_gone(
    before: PxGroup,
    after: PxGroup,
    node_id: u64,
    removed: bool,
    other: PxRemoteReplica,
)
    requires
        before.wf(),
        after.wf(),
        node_id <= usize::MAX,
        member_dropped(before, after, node_id, removed),
    ensures
        real_remotes(after.remote_replicas@).contains(other) <==> real_remotes(
            before.remote_replicas@,
        ).contains(other) && other.node_id != node_id,
        entry_at(before.remote_replicas@, node_id as int).votes() ==> {
            &&& after.voters() + 1 == before.voters()
            &&& after.membership_epoch == before.membership_epoch + 1
        },
        !entry_at(before.remote_replicas@, node_id as int).votes() ==> {
            &&& after.voters() == before.voters()
            &&& after.cached_quorum == before.cached_quorum
            &&& after.membership_epoch == before.membership_epoch
        },
        after.local_replica == before.local_replica,
{
    let s = before.remote_replicas@;
    let t = after.remote_replicas@;
    let idx = node_id as int;
    if removed {
        lemma_counts_update(s, idx, RemoteReplicaKind::Placeholder);
    }
    table_lists_its_members(s, other);
    table_lists_its_members(t, other);
    if exists|i: int| 0 <= i < t.len() && #[trigger] t[i] == RemoteReplicaKind::Real(other) {
        let i = choose|i: int| 0 <= i < t.len() && #[trigger] t[i] == RemoteReplicaKind::Real(other);
        assert(other.node_id == i);
        assert(s[i] == t[i]);
        if i == idx {
            assert(entry_at(s, idx) is Real);
        }
    }
    if other.node_id != node_id && exists|i: int|
        0 <= i < s.len() && #[trigger] s[i] == RemoteReplicaKind::Real(other) {
        let i = choose|i: int| 0 <= i < s.len() && #[trigger] s[i] == RemoteReplicaKind::Real(other);
        assert(other.node_id == i);
        assert(t[i] == s[i]);
    }
}

/// Removing a member that was just added, and was none before, leaves the
/// members and the quorum as they were; the epoch has moved on by both changes
/// if the member voted.
pub proof fn dropping_undoes_adding(
    before: PxGroup,
    added: PxGroup,
    after: PxGroup,
    remote: PxRemoteReplica,
    removed: bool,
    other: PxRemoteReplica,
)
    requires
        before.wf(),
        added.wf(),
        after.wf(),
        remote.node_id <= usize::MAX,
        entry_at(before.remote_replicas@, remote.node_id as int) is Placeholder,
        member_added(before, added, remote),
        member_dropped(added, after, remote.node_id, removed),
    ensures
        removed,
        real_remotes(after.remote_replicas@).contains(other) <==> real_remotes(
            before.remote_replicas@,
        ).contains(other),
        after.voters() == before.voters(),
        after.cached_quorum == before.cached_quorum,
        after.membership_epoch == before.membership_epoch + if remote.voting {
            2int
        } else {
            0
        },
{
    let idx = remote.node_id as int;
    added_member_is_counted(before, added, remote);
    assert(added.remote_replicas@[idx] == RemoteReplicaKind::Real(remote));
    dropped_member_is_gone(added, after, remote.node_id, removed, other);
    if other.node_id == remote.node_id {
        table_lists_its_members(before.remote_replicas@, other);
        if real_remotes(before.remote_replicas@).contains(other) {
            let s = before.remote_replicas@;
            let i = choose|i: int|
                0 <= i < s.len() && #[trigger] s[i] == RemoteReplicaKind::Real(other);
            assert(other.node_id == i);
        }
    }
}

proof fn lemma_ids_ascend(s: Seq<RemoteReplicaKind>)
    requires
        indexed_by_id(s),
    ensures
        forall|i: int, j: int|
            0 <= i < j < real_remotes(s).len() ==> (#[trigger] real_remotes(s)[i]).node_id < (
            #[trigger] real_remotes(s)[j]).node_id,
        forall|i: int|
            0 <= i < real_remotes(s).len() ==> (#[trigger] real_remotes(s)[i]).node_id < s.len(),
    decreases s.len(),
{
    if s.len() > 0 {
        let front = s.drop_last();
        assert forall|i: int| 0 <= i < front.len() implies (
        #[trigger] front[i] matches RemoteReplicaKind::Real(r) ==> r.node_id == i) by {
            assert(s[i] == front[i]);
        }
        lemma_ids_ascend(front);
        let before = real_remotes(front);
        let all = real_remotes(s);
        assert(s[s.len() - 1] == s.last());
        assert forall|i: int| 0 <= i < before.len() implies before[i] == #[trigger] all[i] by {}
    }
}

/// A membership that was written down is restored: a group of the same local
/// replica that takes it over has the same remote members, with the same
/// endpoints and votes.
pub proof fn written_membership_is_restored(
    g: PxGroup,
    fresh: PxGroup,
    restored: PxGroup,
    membership_epoch: u64,
    r: PxRemoteReplica,
)
    requires
        g.wf(),
        restored.wf(),
        fresh.local_replica.id == g.local_replica.id,
        entry_at(g.remote_replicas@, g.local_replica.id as int) is Placeholder,
        config_applied(fresh, restored, g.membership(), membership_epoch),
    ensures
        real_remotes(g.remote_replicas@).contains(r) ==> exists|i: int|
            0 <= i < restored.remote_replicas.len() && (
            #[trigger] restored.remote_replicas@[i] matches RemoteReplicaKind::Real(x) && member_of(
                x,
            ) == member_of(r)),
        real_remotes(restored.remote_replicas@).contains(r) ==> exists|i: int|
            0 <= i < g.remote_replicas.len() && (
            #[trigger] g.remote_replicas@[i] matches RemoteReplicaKind::Real(x) && member_of(x)
                == member_of(r)),
{
    let config = g.membership();
    let all = real_remotes(g.remote_replicas@);
    let m = config.members;
    lemma_ids_ascend(g.remote_replicas@);
    assert forall|i: int| 0 < i < m.len() implies #[trigger] m[i] == member_of(all[i - 1]) by {}
    assert forall|i: int| 0 <= i < all.len() implies (#[trigger] all[i]).node_id
        != g.local_replica.id by {
        assert(all.contains(all[i]));
        table_lists_its_members(g.remote_replicas@, all[i]);
        let k = choose|k: int|
            0 <= k < g.remote_replicas@.len() && #[trigger] g.remote_replicas@[k]
                == RemoteReplicaKind::Real(all[i]);
        assert(all[i].node_id == k);
    }
    assert forall|i: int, j: int| 0 <= i < j < m.len() implies #[trigger] m[i].replica_id
        != #[trigger] m[j].replica_id by {
        if i > 0 {
            assert(all[i - 1].node_id < all[j - 1].node_id);
        } else {
            assert(m[j] == member_of(all[j - 1]));
        }
    }
    let x = member_of(r);
    configured_members_are_the_members(fresh, restored, config, membership_epoch, x);
    if all.contains(r) {
        let k = choose|k: int| 0 <= k < all.len() && all[k] == r;
        assert(m[k + 1] == x);
        assert(m.contains(x));
    }
    if real_remotes(restored.remote_replicas@).contains(r) {
        table_lists_its_members(restored.remote_replicas@, r);
        let i = choose|i: int|
            0 <= i < restored.remote_replicas@.len() && #[trigger] restored.remote_replicas@[i]
                == RemoteReplicaKind::Real(r);
        assert(m.contains(x));
        let k = choose|k: int| 0 <= k < m.len() && m[k] == x;
        assert(k > 0);
        assert(all.contains(all[k - 1]));
        table_lists_its_members(g.remote_replicas@, all[k - 1]);
    }
}

} // verus!
