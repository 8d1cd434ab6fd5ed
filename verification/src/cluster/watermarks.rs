//! The membership epoch and the slots up to which a group is safe.

use crate::cluster::group::{
    highest_reported, lowest_reported, reported, PxGroup, RemoteReplicaKind,
};
use crate::paxos::roles::SlotIndex;
use crate::paxos::PxNodeId;
use std::collections::HashMap;
use vstd::prelude::*;

verus! {

broadcast use vstd::std_specs::hash::group_hash_axioms;

/// The greater of two slots.
pub open spec fn later(a: u64, b: u64) -> u64 {
    if a >= b {
        a
    } else {
        b
    }
}

/// The lesser of two slots.
pub open spec fn earlier(a: u64, b: u64) -> u64 {
    if a <= b {
        a
    } else {
        b
    }
}

/// A reported slot, `0` before the member was heard from.
fn known_slot(peers: &HashMap<u64, u64>, id: u64) -> (s: u64)
    ensures
        s == reported(peers@, id),
{
    match peers.get(&id) {
        Some(s) => *s,
        None => 0,
    }
}

impl PxGroup {
    /// Epoch that requests carry and that peers must be at.
    pub fn membership_epoch(&self) -> (e: u64)
        ensures
            e == self.membership_epoch,
    {
        self.membership_epoch
    }

    /// Set the epoch to a persisted or taken-over value.
    pub fn set_membership_epoch(&mut self, epoch: u64)
        ensures
            *final(self) == (PxGroup { membership_epoch: epoch, ..*old(self) }),
    {
        self.membership_epoch = epoch;
    }

    /// Take over a peer's epoch if it is higher. Returns the epoch in effect.
    pub fn adopt_membership_epoch(&mut self, epoch: u64) -> (e: u64)
        ensures
            e == later(old(self).membership_epoch, epoch),
            *final(self) == (PxGroup { membership_epoch: e, ..*old(self) }),
    {
        if epoch > self.membership_epoch {
            self.membership_epoch = epoch;
        }
        self.membership_epoch
    }

    /// Slot that every voting member is known to have applied.
    pub fn group_safe_slot(&self) -> (s: SlotIndex)
        ensures
            s == self.group_safe_slot,
    {
        self.group_safe_slot
    }

    /// Slot that is durable here and on at least one other voting member.
    pub fn group_snapshot_slot(&self) -> (s: SlotIndex)
        ensures
            s == self.group_snapshot_slot,
    {
        self.group_snapshot_slot
    }

    /// Note how far a peer has applied the log, and raise the safe slot to the
    /// lowest slot among this replica and all voting members. The safe slot
    /// never goes back.
    pub fn note_peer_applied(&mut self, peer_id: PxNodeId, applied: SlotIndex)
        ensures
            applied_noted(*old(self), *final(self), peer_id, applied),
            final(self).peer_applied@ == old(self).peer_applied@.insert(peer_id, applied),
            final(self).group_safe_slot == later(
                old(self).group_safe_slot,
                lowest_reported(
                    old(self).remote_replicas@,
                    final(self).peer_applied@,
                    old(self).local_replica.learner.frontier(),
                ),
            ),
            *final(self) == (PxGroup {
                peer_applied: final(self).peer_applied,
                group_safe_slot: final(self).group_safe_slot,
                ..*old(self)
            }),
    {
        self.peer_applied.insert(peer_id, applied);
        let ghost s = self.remote_replicas@;
        let ghost peers = self.peer_applied@;
        let ghost local = self.local_replica.learner.frontier();
        let mut safe: u64 = self.local_replica.contiguous_applied();
        let mut i: usize = 0;
        proof {
            assert(s.take(0) =~= Seq::empty());
        }
        while i < self.remote_replicas.len()
            invariant
                i <= self.remote_replicas.len(),
                s == self.remote_replicas@,
                peers == self.peer_applied@,
                safe == lowest_reported(s.take(i as int), peers, local),
            decreases self.remote_replicas.len() - i,
        {
            proof {
                assert(s.take(i + 1).drop_last() =~= s.take(i as int));
                assert(s.take(i + 1).last() == s[i as int]);
            }
            if let RemoteReplicaKind::Real(r) = &self.remote_replicas[i] {
                if r.voting {
                    let peer: u64 = known_slot(&self.peer_applied, r.node_id);
                    if peer < safe {
                        safe = peer;
                    }
                }
            }
            i = i + 1;
        }
        proof {
            assert(s.take(i as int) =~= s);
        }
        if safe > self.group_safe_slot {
            self.group_safe_slot = safe;
        }
    }

    /// Note how far a peer's log is durable, and raise the snapshot slot to
    /// what is durable here and on the voting member that is furthest along.
    /// The snapshot slot never goes back.
    pub fn note_peer_durable(&mut self, peer_id: PxNodeId, durable: SlotIndex)
        ensures
            durable_noted(*old(self), *final(self), peer_id, durable),
            final(self).peer_durable@ == old(self).peer_durable@.insert(peer_id, durable),
            final(self).group_snapshot_slot == later(
                old(self).group_snapshot_slot,
                earlier(
                    match old(self).local_replica.durable_snapshot {
                        Some(s) => s,
                        None => 0,
                    },
                    highest_reported(old(self).remote_replicas@, final(self).peer_durable@),
                ),
            ),
            *final(self) == (PxGroup {
                peer_durable: final(self).peer_durable,
                group_snapshot_slot: final(self).group_snapshot_slot,
                ..*old(self)
            }),
    {
        self.peer_durable.insert(peer_id, durable);
        let ghost s = self.remote_replicas@;
        let ghost peers = self.peer_durable@;
        let mut best: u64 = 0;
        let mut i: usize = 0;
        proof {
            assert(s.take(0) =~= Seq::empty());
        }
        while i < self.remote_replicas.len()
            invariant
                i <= self.remote_replicas.len(),
                s == self.remote_replicas@,
                peers == self.peer_durable@,
                best == highest_reported(s.take(i as int), peers),
            decreases self.remote_replicas.len() - i,
        {
            proof {
                assert(s.take(i + 1).drop_last() =~= s.take(i as int));
                assert(s.take(i + 1).last() == s[i as int]);
            }
            if let RemoteReplicaKind::Real(r) = &self.remote_replicas[i] {
                if r.voting {
                    let peer: u64 = known_slot(&self.peer_durable, r.node_id);
                    if peer > best {
                        best = peer;
                    }
                }
            }
            i = i + 1;
        }
        proof {
            assert(s.take(i as int) =~= s);
        }
        let local: u64 = match self.local_replica.durable_snapshot {
            Some(s) => s,
            None => 0,
        };
        let snapshot: u64 = if local <= best {
            local
        } else {
            best
        };
        if snapshot > self.group_snapshot_slot {
            self.group_snapshot_slot = snapshot;
        }
    }

    /// Forget everything that peers reported: both slots are `0` until the
    /// next heartbeats. A new tenure starts like this.
    pub fn reset_safe_slot_tracking(&mut self)
        ensures
            final(self).peer_applied@ == Map::<u64, u64>::empty(),
            final(self).peer_durable@ == Map::<u64, u64>::empty(),
            *final(self) == (PxGroup {
                peer_applied: final(self).peer_applied,
                group_safe_slot: 0,
                peer_durable: final(self).peer_durable,
                group_snapshot_slot: 0,
                ..*old(self)
            }),
    {
        self.peer_applied = HashMap::new();
        self.group_safe_slot = 0;
        self.peer_durable = HashMap::new();
        self.group_snapshot_slot = 0;
    }
}

// ── Laws of the watermarks ───────────────────────────────────────
/// What the safe slot is raised to has been applied by this replica and by
/// every voting member: none of them was heard at a lower slot, and a member
/// that was never heard from keeps it at `0`.
pub proof fn safe_slot_is_applied_everywhere(
    s: Seq<RemoteReplicaKind>,
    peers: Map<u64, u64>,
    local: u64,
)
    ensures
        lowest_reported(s, peers, local) <= local,
        forall|i: int|
            0 <= i < s.len() ==> (#[trigger] s[i] matches RemoteReplicaKind::Real(r) ==> (r.voting
                ==> lowest_reported(s, peers, local) <= reported(peers, r.node_id))),
    decreases s.len(),
{
    if s.len() > 0 {
        let front = s.drop_last();
        safe_slot_is_applied_everywhere(front, peers, local);
        assert forall|i: int| 0 <= i < s.len() implies (#[trigger] s[i] matches RemoteReplicaKind::Real(
            r,
        ) ==> (r.voting ==> lowest_reported(s, peers, local) <= reported(peers, r.node_id))) by {
            if i < front.len() {
                assert(front[i] == s[i]);
            }
        }
    }
}

/// What the snapshot slot is raised to is durable here and on some voting
/// member, as soon as it is above `0`.
pub proof fn snapshot_slot_is_durable_on_two_members(
    s: Seq<RemoteReplicaKind>,
    peers: Map<u64, u64>,
    local: u64,
)
    ensures
        ({
            let slot = earlier(local, highest_reported(s, peers));
            slot > 0 ==> slot <= local && exists|i: int|
                0 <= i < s.len() && (#[trigger] s[i] matches RemoteReplicaKind::Real(r) && r.voting
                    && slot <= reported(peers, r.node_id))
        }),
    decreases s.len(),
{
    lemma_highest_reported_is_reported(s, peers);
}

proof fn lemma_highest_reported_is_reported(s: Seq<RemoteReplicaKind>, peers: Map<u64, u64>)
    ensures
        highest_reported(s, peers) > 0 ==> exists|i: int|
            0 <= i < s.len() && (#[trigger] s[i] matches RemoteReplicaKind::Real(r) && r.voting
                && highest_reported(s, peers) == reported(peers, r.node_id)),
    decreases s.len(),
{
    if s.len() > 0 {
        let front = s.drop_last();
        lemma_highest_reported_is_reported(front, peers);
        if highest_reported(s, peers) > 0 {
            if highest_reported(s, peers) == highest_reported(front, peers) {
                let i = choose|i: int|
                    0 <= i < front.len() && (#[trigger] front[i] matches RemoteReplicaKind::Real(r)
                        && r.voting && highest_reported(front, peers) == reported(
                        peers,
                        r.node_id,
                    ));
                assert(s[i] == front[i]);
            } else {
                assert(s[s.len() - 1] == s.last());
            }
        }
    }
}

/// Adopting epochs only ever raises the epoch, and a peer's epoch that was
/// adopted is not below that peer's.
pub proof fn epochs_converge_upward(mine: u64, first: u64, second: u64)
    ensures
        later(mine, first) >= mine,
        later(mine, first) >= first,
        later(later(mine, first), second) == later(later(mine, second), first),
{
}

/// The safe slot is raised as far as the members allow: a slot that this
/// replica and every voting member have reached is not above it.
pub proof fn slot_applied_everywhere_is_safe(
    s: Seq<RemoteReplicaKind>,
    peers: Map<u64, u64>,
    local: u64,
    slot: u64,
)
    requires
        slot <= local,
        forall|i: int|
            0 <= i < s.len() ==> (#[trigger] s[i] matches RemoteReplicaKind::Real(r) ==> (r.voting
                ==> peers.contains_key(r.node_id) && slot <= peers[r.node_id])),
    ensures
        slot <= lowest_reported(s, peers, local),
    decreases s.len(),
{
    if s.len() > 0 {
        let front = s.drop_last();
        assert forall|i: int| 0 <= i < front.len() implies (
        #[trigger] front[i] matches RemoteReplicaKind::Real(r) ==> (r.voting
            ==> peers.contains_key(r.node_id) && slot <= peers[r.node_id])) by {
            assert(front[i] == s[i]);
        }
        slot_applied_everywhere_is_safe(front, peers, local, slot);
        assert(s[s.len() - 1] == s.last());
    }
}

/// The snapshot slot is raised as far as the members allow: a slot that is
/// durable here and on one voting member is not above it.
pub proof fn slot_durable_on_two_members_is_kept(
    s: Seq<RemoteReplicaKind>,
    peers: Map<u64, u64>,
    local: u64,
    slot: u64,
    i: int,
)
    requires
        slot <= local,
        0 <= i < s.len(),
        s[i] matches RemoteReplicaKind::Real(r) && r.voting && peers.contains_key(r.node_id) && slot
            <= peers[r.node_id],
    ensures
        slot <= earlier(local, highest_reported(s, peers)),
    decreases s.len(),
{
    let front = s.drop_last();
    if i < front.len() {
        assert(front[i] == s[i]);
        slot_durable_on_two_members_is_kept(front, peers, local, slot, i);
    }
}

/// The greater and the lesser of two slots are the two slots, in order.
pub proof fn slots_are_ordered(a: u64, b: u64)
    ensures
        earlier(a, b) <= a <= later(a, b),
        earlier(a, b) <= b <= later(a, b),
        earlier(a, b) + later(a, b) == a + b,
{
}

/// `after` is `before` once a peer has told how far it has applied the log.
pub open spec fn applied_noted(before: PxGroup, after: PxGroup, peer_id: u64, applied: u64) -> bool {
    &&& after.peer_applied@ == before.peer_applied@.insert(peer_id, applied)
    &&& after.group_safe_slot == later(
        before.group_safe_slot,
        lowest_reported(
            before.remote_replicas@,
            after.peer_applied@,
            before.local_replica.learner.frontier(),
        ),
    )
    &&& after == (PxGroup {
        peer_applied: after.peer_applied,
        group_safe_slot: after.group_safe_slot,
        ..before
    })
}

/// `after` is `before` once a peer has told how far its log is durable.
pub open spec fn durable_noted(before: PxGroup, after: PxGroup, peer_id: u64, durable: u64) -> bool {
    &&& after.peer_durable@ == before.peer_durable@.insert(peer_id, durable)
    &&& after.group_snapshot_slot == later(
        before.group_snapshot_slot,
        earlier(
            match before.local_replica.durable_snapshot {
                Some(s) => s,
                None => 0,
            },
            highest_reported(before.remote_replicas@, after.peer_durable@),
        ),
    )
    &&& after == (PxGroup {
        peer_durable: after.peer_durable,
        group_snapshot_slot: after.group_snapshot_slot,
        ..before
    })
}

/// What a peer tells of its progress replaces what it told before and nothing
/// else. The safe slot never goes back. It is raised to a slot only if this
/// replica and every voting member have reached that slot, and to every slot
/// that they all have reached.
pub proof fn safe_slot_follows_the_slowest_member(
    before: PxGroup,
    after: PxGroup,
    peer_id: u64,
    applied: u64,
    other: u64,
    slot: u64,
)
    requires
        applied_noted(before, after, peer_id, applied),
    ensures
        reported(after.peer_applied@, peer_id) == applied,
        other != peer_id ==> reported(after.peer_applied@, other) == reported(
            before.peer_applied@,
            other,
        ),
        after.group_safe_slot >= before.group_safe_slot,
        after.group_safe_slot > before.group_safe_slot ==> {
            &&& after.group_safe_slot <= before.local_replica.learner.frontier()
            &&& forall|i: int|
                0 <= i < before.remote_replicas@.len() ==> (
                #[trigger] before.remote_replicas@[i] matches RemoteReplicaKind::Real(r) ==> (
                r.voting ==> after.group_safe_slot <= reported(after.peer_applied@, r.node_id)))
        },
        slot <= before.local_replica.learner.frontier() && (forall|i: int|
            0 <= i < before.remote_replicas@.len() ==> (
            #[trigger] before.remote_replicas@[i] matches RemoteReplicaKind::Real(r) ==> (r.voting
                ==> after.peer_applied@.contains_key(r.node_id) && slot
                <= after.peer_applied@[r.node_id]))) ==> slot <= after.group_safe_slot,
        after.local_replica == before.local_replica,
{
    let s = before.remote_replicas@;
    let peers = after.peer_applied@;
    let local = before.local_replica.learner.frontier();
    safe_slot_is_applied_everywhere(s, peers, local);
    if slot <= local && (forall|i: int|
        0 <= i < s.len() ==> (#[trigger] s[i] matches RemoteReplicaKind::Real(r) ==> (r.voting
            ==> peers.contains_key(r.node_id) && slot <= peers[r.node_id]))) {
        slot_applied_everywhere_is_safe(s, peers, local, slot);
    }
}

/// The snapshot slot never goes back. It is raised to a slot only if that slot is
/// durable here and on a voting member.
pub proof fn snapshot_slot_follows_two_members(
    before: PxGroup,
    after: PxGroup,
    peer_id: u64,
    durable: u64,
)
    requires
        durable_noted(before, after, peer_id, durable),
    ensures
        reported(after.peer_durable@, peer_id) == durable,
        after.group_snapshot_slot >= before.group_snapshot_slot,
        after.group_snapshot_slot > before.group_snapshot_slot ==> {
            &&& before.local_replica.durable_snapshot matches Some(d) && after.group_snapshot_slot
                <= d
            &&& exists|i: int|
                0 <= i < before.remote_replicas@.len() && (
                #[trigger] before.remote_replicas@[i] matches RemoteReplicaKind::Real(r)
                    && r.voting && after.group_snapshot_slot <= reported(
                    after.peer_durable@,
                    r.node_id,
                ))
        },
        after.local_replica == before.local_replica,
{
    let local = match before.local_replica.durable_snapshot {
        Some(s) => s,
        None => 0,
    };
    snapshot_slot_is_durable_on_two_members(before.remote_replicas@, after.peer_durable@, local);
}

} // verus!
