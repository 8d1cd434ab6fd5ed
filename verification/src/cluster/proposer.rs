//! The proposer's requests, and its two phases bound to a group's membership.

use crate::cluster::group::{real_remotes, PxGroup, RemoteReplicaKind};
use crate::cluster::phases::{
    accept_casts, accept_outcome, accepting_quorum_chooses, decide_accept, decide_prepare,
    prepare_casts, prepare_outcome, promising_quorum_proceeds, rounds_have_successor,
    AcceptDecision, PrepareAttempt,
};
use crate::cluster::remote_replica::{
    AcceptRequest, ChosenNotification, PrepareRequest, PxRemoteReplica,
};
use crate::common::payload::{buffer_bytes, buffer_clone};
use crate::paxos::roles::{
    DedupTag, LogEntryView, PxAcceptReply, PxBallot, PxLogEntry, PxPrepareReply,
};
use crate::paxos::PxNodeId;
use bytes::Bytes;
use vstd::prelude::*;

verus! {

/// Voting rights of members.
pub open spec fn voting_rights(r: Seq<PxRemoteReplica>) -> Seq<bool> {
    r.map_values(|r: PxRemoteReplica| r.voting)
}

/// The dedup tag of a client operation. There is none without a client.
pub fn dedup_tag(client_id: Option<u64>, seq: Option<u64>) -> (tag: Option<DedupTag>)
    ensures
        tag == match (client_id, seq) {
            (Some(cid), Some(s)) => if cid != 0 {
                Some(DedupTag { client_id: cid, seq: s })
            } else {
                None
            },
            _ => None,
        },
{
    match (client_id, seq) {
        (Some(cid), Some(s)) => if cid != 0 {
            Some(DedupTag { client_id: cid, seq: s })
        } else {
            None
        },
        _ => None,
    }
}

/// A copy of `tags`.
pub fn clone_tags(tags: &Vec<DedupTag>) -> (r: Vec<DedupTag>)
    ensures
        r@ == tags@,
{
    let mut r: Vec<DedupTag> = Vec::new();
    let mut i: usize = 0;
    while i < tags.len()
        invariant
            i <= tags.len(),
            r@ == tags@.take(i as int),
        decreases tags.len() - i,
    {
        r.push(tags[i]);
        i = i + 1;
        proof {
            assert(tags@.take(i as int) =~= tags@.take(i - 1).push(tags@[i - 1]));
        }
    }
    proof {
        assert(tags@.take(i as int) =~= tags@);
    }
    r
}

impl PxGroup {
    /// The entry that a proposal starts with at `slot`: the lowest ballot of
    /// this replica, in its current term.
    pub open spec fn spec_base_entry(&self, slot: u64, payload: Seq<u8>) -> LogEntryView {
        LogEntryView {
            slot,
            ballot: PxBallot { round: 0, leader_id: self.local_replica.id },
            term: self.local_replica.current_term,
            payload,
        }
    }

    /// The entry that a proposal starts with at `slot`.
    pub fn base_entry(&self, slot: u64, payload: &Bytes) -> (e: PxLogEntry)
        ensures
            e@ == self.spec_base_entry(slot, buffer_bytes(*payload)),
    {
        PxLogEntry {
            slot,
            ballot: PxBallot::new(0, self.local_replica.id),
            term: self.local_replica.current_term,
            payload: buffer_clone(payload),
        }
    }

    /// Round of a new ballot at `slot`: one above `min_round` and above what
    /// this replica has promised there.
    pub open spec fn next_round(&self, slot: u64, min_round: u64) -> int {
        match self.local_replica.acceptor.promised(slot) {
            Some(b) if b.round > min_round => b.round + 1,
            _ => min_round + 1,
        }
    }

    /// The entry that a prepare phase asks promises for.
    pub fn begin_prepare_phase(&self, slot: u64, payload: &Bytes, min_round: u64) -> (e: PxLogEntry)
        requires
            self.next_round(slot, min_round) <= u64::MAX,
        ensures
            e@ == (LogEntryView {
                ballot: PxBallot {
                    round: self.next_round(slot, min_round) as u64,
                    leader_id: self.local_replica.id,
                },
                ..self.spec_base_entry(slot, buffer_bytes(*payload))
            }),
    {
        let mut max_round: u64 = min_round;
        if let Some(b) = self.local_replica.promised_at(slot) {
            if b.round > max_round {
                max_round = b.round;
            }
        }
        let mut entry = self.base_entry(slot, payload);
        entry.ballot = PxBallot::new(max_round + 1, self.local_replica.id);
        entry
    }

    /// Voting rights of the remote members, in order.
    pub fn remote_voting_rights(&self) -> (v: Vec<bool>)
        ensures
            v@ == voting_rights(real_remotes(self.remote_replicas@)),
            v.len() <= self.remote_replicas.len(),
    {
        let ghost s = self.remote_replicas@;
        let mut v: Vec<bool> = Vec::new();
        let mut i: usize = 0;
        proof {
            assert(s.take(0) =~= Seq::empty());
            assert(v@ =~= voting_rights(real_remotes(s.take(0))));
        }
        while i < self.remote_replicas.len()
            invariant
                i <= self.remote_replicas.len(),
                s == self.remote_replicas@,
                v@ == voting_rights(real_remotes(s.take(i as int))),
                v.len() <= i,
            decreases self.remote_replicas.len() - i,
        {
            proof {
                assert(s.take(i + 1).drop_last() =~= s.take(i as int));
                assert(s.take(i + 1).last() == s[i as int]);
            }
            if let RemoteReplicaKind::Real(r) = &self.remote_replicas[i] {
                v.push(r.voting);
                proof {
                    assert(v@ =~= voting_rights(real_remotes(s.take(i + 1))));
                }
            }
            i = i + 1;
        }
        proof {
            assert(s.take(i as int) =~= s);
        }
        v
    }

    /// Decide a prepare phase for `entry` from the local reply and the replies
    /// of the remote members, in order.
    pub fn run_prepare_phase(
        &self,
        entry: PxLogEntry,
        quorum: usize,
        local: &Option<PxPrepareReply>,
        replies: &Vec<Option<PxPrepareReply>>,
    ) -> (r: PrepareAttempt)
        requires
            self.wf(),
            replies.len() == real_remotes(self.remote_replicas@).len(),
            !(local matches Some(PxPrepareReply::EpochMismatch { .. })),
        ensures
            r@ == prepare_outcome(
                entry@,
                prepare_casts(
                    self.local_replica.voting,
                    *local,
                    voting_rights(real_remotes(self.remote_replicas@)),
                    replies@,
                ),
                quorum as nat,
            ),
    {
        let voting = self.remote_voting_rights();
        decide_prepare(entry, quorum, self.local_replica.voting, local, &voting, replies)
    }

    /// Whether the local replica answers an accept request before its log
    /// record is durable. A group of one must not: nobody else could recover
    /// the entry.
    pub open spec fn spec_early_ack(&self) -> bool {
        self.config.wal_early_ack && self.cached_quorum > 1
    }

    /// Decide an accept phase from the local reply and the replies of the
    /// remote members, in order.
    pub fn run_accept_phase(
        &self,
        quorum: usize,
        local: &Option<PxAcceptReply>,
        replies: &Vec<Option<PxAcceptReply>>,
    ) -> (r: AcceptDecision)
        requires
            self.wf(),
            replies.len() == real_remotes(self.remote_replicas@).len(),
            !(local matches Some(PxAcceptReply::EpochMismatch { .. })),
            rounds_have_successor(
                accept_casts(
                    self.local_replica.voting,
                    *local,
                    voting_rights(real_remotes(self.remote_replicas@)),
                    replies@,
                ),
            ),
        ensures
            r.attempt == accept_outcome(
                accept_casts(
                    self.local_replica.voting,
                    *local,
                    voting_rights(real_remotes(self.remote_replicas@)),
                    replies@,
                ),
                quorum as nat,
            ),
            r.persist_deferred == (self.spec_early_ack() && (*local matches Some(PxAcceptReply::Accepted { .. }))
                && r.attempt is Chosen),
    {
        let voting = self.remote_voting_rights();
        let early_ack = self.config.wal_early_ack && self.cached_quorum > 1;
        decide_accept(quorum, early_ack, self.local_replica.voting, local, &voting, replies)
    }

    /// The phase-1 requests for `entry`, one for every remote member.
    pub fn prepare_requests(&self, entry: &PxLogEntry) -> (r: Vec<(PxNodeId, PrepareRequest)>)
        ensures
            r.len() == real_remotes(self.remote_replicas@).len(),
            forall|i: int|
                0 <= i < r.len() ==> #[trigger] r[i] == (
                    real_remotes(self.remote_replicas@)[i].node_id,
                    PrepareRequest {
                        version: 1,
                        slot: entry.slot,
                        round: entry.ballot.round,
                        leader_id: entry.ballot.leader_id,
                        request_id: 0,
                        request_create_ms: 0,
                        group_id: self.group_id,
                        term: entry.term,
                        membership_epoch: self.membership_epoch,
                    },
                ),
    {
        let ghost s = self.remote_replicas@;
        let mut r: Vec<(PxNodeId, PrepareRequest)> = Vec::new();
        let mut i: usize = 0;
        proof {
            assert(s.take(0) =~= Seq::empty());
        }
        while i < self.remote_replicas.len()
            invariant
                i <= self.remote_replicas.len(),
                s == self.remote_replicas@,
                r.len() == real_remotes(s.take(i as int)).len(),
                forall|k: int|
                    0 <= k < r.len() ==> #[trigger] r[k] == (
                        real_remotes(s.take(i as int))[k].node_id,
                        PrepareRequest {
                            version: 1,
                            slot: entry.slot,
                            round: entry.ballot.round,
                            leader_id: entry.ballot.leader_id,
                            request_id: 0,
                            request_create_ms: 0,
                            group_id: self.group_id,
                            term: entry.term,
                            membership_epoch: self.membership_epoch,
                        },
                    ),
            decreases self.remote_replicas.len() - i,
        {
            proof {
                assert(s.take(i + 1).drop_last() =~= s.take(i as int));
                assert(s.take(i + 1).last() == s[i as int]);
            }
            if let RemoteReplicaKind::Real(remote) = &self.remote_replicas[i] {
                let req = remote.prepare_request(
                    entry.slot,
                    entry.ballot,
                    entry.term,
                    self.group_id,
                    self.membership_epoch,
                );
                r.push((remote.node_id, req));
            }
            i = i + 1;
        }
        proof {
            assert(s.take(i as int) =~= s);
        }
        r
    }

    /// The phase-2 requests for `entry`, one for every remote member, each
    /// under a request number of the member's own.
    pub fn accept_requests(&mut self, entry: &PxLogEntry, tags: &Vec<DedupTag>) -> (r: Vec<
        (PxNodeId, AcceptRequest),
    >)
        ensures
            r.len() == real_remotes(old(self).remote_replicas@).len(),
            forall|i: int|
                0 <= i < r.len() ==> is_accept_request(
                    #[trigger] r[i],
                    real_remotes(old(self).remote_replicas@)[i],
                    *entry,
                    tags@,
                    old(self).group_id,
                    old(self).membership_epoch,
                ),
            *final(self) == (PxGroup {
                remote_replicas: final(self).remote_replicas,
                ..*old(self)
            }),
            final(self).remote_replicas.len() == old(self).remote_replicas.len(),
            forall|i: int|
                0 <= i < old(self).remote_replicas.len() ==> #[trigger] final(self).remote_replicas@[i]
                    == numbered(old(self).remote_replicas@[i]),
    {
        let ghost s = self.remote_replicas@;
        let mut r: Vec<(PxNodeId, AcceptRequest)> = Vec::new();
        let mut i: usize = 0;
        proof {
            assert(s.take(0) =~= Seq::empty());
        }
        while i < self.remote_replicas.len()
            invariant
                i <= self.remote_replicas.len(),
                s == old(self).remote_replicas@,
                self.remote_replicas.len() == s.len(),
                *self == (PxGroup { remote_replicas: self.remote_replicas, ..*old(self) }),
                forall|k: int| i <= k < s.len() ==> #[trigger] self.remote_replicas@[k] == s[k],
                forall|k: int| 0 <= k < i ==> #[trigger] self.remote_replicas@[k] == numbered(s[k]),
                r.len() == real_remotes(s.take(i as int)).len(),
                forall|k: int|
                    0 <= k < r.len() ==> is_accept_request(
                        #[trigger] r[k],
                        real_remotes(s.take(i as int))[k],
                        *entry,
                        tags@,
                        old(self).group_id,
                        old(self).membership_epoch,
                    ),
            decreases self.remote_replicas.len() - i,
        {
            proof {
                assert(s.take(i + 1).drop_last() =~= s.take(i as int));
                assert(s.take(i + 1).last() == s[i as int]);
            }
            let group_id: u64 = self.group_id;
            let epoch: u64 = self.membership_epoch;
            let mut kind = RemoteReplicaKind::Placeholder;
            self.remote_replicas.set_and_swap(i, &mut kind);
            if let RemoteReplicaKind::Real(mut remote) = kind {
                let req = remote.accept_request(entry, clone_tags(tags), group_id, epoch);
                r.push((remote.node_id, req));
                self.remote_replicas.set(i, RemoteReplicaKind::Real(remote));
            }
            i = i + 1;
        }
        proof {
            assert(s.take(i as int) =~= s);
        }
        r
    }

    /// The notices that `entry` is chosen, one for every remote member.
    pub fn fan_out_chosen_notice(&self, entry: &PxLogEntry) -> (r: Vec<
        (PxNodeId, ChosenNotification),
    >)
        ensures
            r.len() == real_remotes(self.remote_replicas@).len(),
            forall|i: int|
                0 <= i < r.len() ==> #[trigger] r[i] == (
                    real_remotes(self.remote_replicas@)[i].node_id,
                    ChosenNotification {
                        version: 1,
                        group_id: self.group_id,
                        slot: entry.slot,
                        term: entry.term,
                        leader_id: entry.ballot.leader_id,
                        request_id: 0,
                        request_create_ms: 0,
                    },
                ),
    {
        let ghost s = self.remote_replicas@;
        let mut r: Vec<(PxNodeId, ChosenNotification)> = Vec::new();
        let mut i: usize = 0;
        proof {
            assert(s.take(0) =~= Seq::empty());
        }
        while i < self.remote_replicas.len()
            invariant
                i <= self.remote_replicas.len(),
                s == self.remote_replicas@,
                r.len() == real_remotes(s.take(i as int)).len(),
                forall|k: int|
                    0 <= k < r.len() ==> #[trigger] r[k] == (
                        real_remotes(s.take(i as int))[k].node_id,
                        ChosenNotification {
                            version: 1,
                            group_id: self.group_id,
                            slot: entry.slot,
                            term: entry.term,
                            leader_id: entry.ballot.leader_id,
                            request_id: 0,
                            request_create_ms: 0,
                        },
                    ),
            decreases self.remote_replicas.len() - i,
        {
            proof {
                assert(s.take(i + 1).drop_last() =~= s.take(i as int));
                assert(s.take(i + 1).last() == s[i as int]);
            }
            if let RemoteReplicaKind::Real(remote) = &self.remote_replicas[i] {
                let notice = remote.chosen_notice(
                    entry.slot,
                    entry.term,
                    entry.ballot.leader_id,
                    self.group_id,
                );
                r.push((remote.node_id, notice));
            }
            i = i + 1;
        }
        proof {
            assert(s.take(i as int) =~= s);
        }
        r
    }
}

/// A member after one request number was taken.
pub open spec fn numbered(k: RemoteReplicaKind) -> RemoteReplicaKind {
    match k {
        RemoteReplicaKind::Real(r) => RemoteReplicaKind::Real(
            PxRemoteReplica {
                next_request_id: (if r.next_request_id == 0 {
                    1u64
                } else {
                    r.next_request_id
                }).wrapping_add(1),
                ..r
            },
        ),
        RemoteReplicaKind::Placeholder => RemoteReplicaKind::Placeholder,
    }
}

/// `m` is the phase-2 request for `entry` to the member `to`.
pub open spec fn is_accept_request(
    m: (PxNodeId, AcceptRequest),
    to: PxRemoteReplica,
    entry: PxLogEntry,
    tags: Seq<DedupTag>,
    group_id: u64,
    membership_epoch: u64,
) -> bool {
    &&& m.0 == to.node_id
    &&& m.1.version == 1
    &&& m.1.slot == entry.slot
    &&& m.1.round == entry.ballot.round
    &&& m.1.leader_id == entry.ballot.leader_id
    &&& m.1.term == entry.term
    &&& m.1.value.entry() == entry@
    &&& m.1.request_id == if to.next_request_id == 0 {
        1
    } else {
        to.next_request_id
    }
    &&& m.1.request_create_ms == 0
    &&& m.1.dedup_tags@ == tags
    &&& m.1.group_id == group_id
    &&& m.1.membership_epoch == membership_epoch
}

// ── Laws of proposing ────────────────────────────────────────────
/// The ballot of a new prepare phase is above `min_round`, and above whatever
/// this replica has promised at the slot: its own acceptor promises it.
pub proof fn new_ballot_outranks_what_was_promised(g: PxGroup, slot: u64, min_round: u64)
    requires
        g.next_round(slot, min_round) <= u64::MAX,
    ensures
        ({
            let ballot = PxBallot {
                round: g.next_round(slot, min_round) as u64,
                leader_id: g.local_replica.id,
            };
            &&& ballot.round > min_round
            &&& g.local_replica.acceptor.promised(slot) matches Some(p) ==> ballot.above(p)
            &&& g.local_replica.acceptor.slot(slot).prepared(ballot).promised == Some(ballot)
        }),
{
}

/// A group chooses an entry as soon as a quorum of its voting members accepts
/// it, the local replica being member `0` and the remote members following in
/// order: the others need not answer.
pub proof fn accepting_members_choose(
    g: PxGroup,
    local: Option<PxAcceptReply>,
    replies: Seq<Option<PxAcceptReply>>,
    who: Set<int>,
)
    requires
        replies.len() == real_remotes(g.remote_replicas@).len(),
        who.finite(),
        who.len() >= g.cached_quorum,
        forall|m: int| #[trigger]
            who.contains(m) ==> {
                &&& 0 <= m <= replies.len()
                &&& m == 0 ==> g.local_replica.voting && (local matches Some(
                    PxAcceptReply::Accepted { .. },
                ))
                &&& m > 0 ==> real_remotes(g.remote_replicas@)[m - 1].voting && (
                replies[m - 1] matches Some(PxAcceptReply::Accepted { .. }))
            },
    ensures
        accept_outcome(
            accept_casts(
                g.local_replica.voting,
                local,
                voting_rights(real_remotes(g.remote_replicas@)),
                replies,
            ),
            g.cached_quorum as nat,
        ) is Chosen,
{
    accepting_quorum_chooses(
        g.local_replica.voting,
        local,
        voting_rights(real_remotes(g.remote_replicas@)),
        replies,
        g.cached_quorum as nat,
        who,
    );
}

/// A group goes on to the accept phase as soon as a quorum of its voting
/// members promises, unless a member is in a later term.
pub proof fn promising_members_let_the_group_proceed(
    g: PxGroup,
    entry: LogEntryView,
    local: Option<PxPrepareReply>,
    replies: Seq<Option<PxPrepareReply>>,
    who: Set<int>,
)
    requires
        replies.len() == real_remotes(g.remote_replicas@).len(),
        who.finite(),
        who.len() >= g.cached_quorum,
        forall|m: int| #[trigger]
            who.contains(m) ==> {
                &&& 0 <= m <= replies.len()
                &&& m == 0 ==> g.local_replica.voting && (local matches Some(
                    PxPrepareReply::Promised { .. },
                ))
                &&& m > 0 ==> real_remotes(g.remote_replicas@)[m - 1].voting && (
                replies[m - 1] matches Some(PxPrepareReply::Promised { .. }))
            },
        !(local matches Some(PxPrepareReply::TermStale { .. })),
        forall|i: int|
            0 <= i < replies.len() ==> !(#[trigger] replies[i] matches Some(
                PxPrepareReply::TermStale { .. },
            )),
    ensures
        prepare_outcome(
            entry,
            prepare_casts(
                g.local_replica.voting,
                local,
                voting_rights(real_remotes(g.remote_replicas@)),
                replies,
            ),
            g.cached_quorum as nat,
        ) is Proceed,
{
    promising_quorum_proceeds(
        entry,
        g.local_replica.voting,
        local,
        voting_rights(real_remotes(g.remote_replicas@)),
        replies,
        g.cached_quorum as nat,
        who,
    );
}

/// A group of one never answers before its log record is durable; a larger one
/// does exactly if it is told to.
pub proof fn lone_replica_writes_before_it_answers(g: PxGroup)
    requires
        g.wf(),
    ensures
        g.voters() <= 1 ==> !g.spec_early_ack(),
        g.voters() > 1 ==> (g.spec_early_ack() <==> g.config.wal_early_ack),
{
}

/// Successive requests to a member carry successive numbers, none of them `0`
/// until the numbers run out.
pub proof fn requests_are_numbered_in_turn(
    first: (PxNodeId, AcceptRequest),
    second: (PxNodeId, AcceptRequest),
    to: PxRemoteReplica,
    next: PxRemoteReplica,
    entry: PxLogEntry,
    later_entry: PxLogEntry,
    tags: Seq<DedupTag>,
    later_tags: Seq<DedupTag>,
    group_id: u64,
    membership_epoch: u64,
)
    requires
        is_accept_request(first, to, entry, tags, group_id, membership_epoch),
        numbered(RemoteReplicaKind::Real(to)) == RemoteReplicaKind::Real(next),
        is_accept_request(second, next, later_entry, later_tags, group_id, membership_epoch),
        first.1.request_id < u64::MAX,
    ensures
        first.1.request_id != 0,
        second.1.request_id == first.1.request_id + 1,
        first.0 == second.0,
{
}

/// A proposal starts below every ballot that a prepare phase can bring it to,
/// in the term of its replica and with the payload that it was given.
pub proof fn first_ballot_is_the_lowest(g: PxGroup, slot: u64, payload: Seq<u8>, b: PxBallot)
    requires
        b.round > 0,
    ensures
        b.above(g.spec_base_entry(slot, payload).ballot),
        g.spec_base_entry(slot, payload).ballot.leader_id == g.local_replica.id,
        g.spec_base_entry(slot, payload).slot == slot,
        g.spec_base_entry(slot, payload).term == g.local_replica.current_term,
        g.spec_base_entry(slot, payload).payload == payload,
{
}

/// What a member is asked to accept is the entry itself: its slot, its ballot,
/// its term and its payload, with the tags of the operations, for this group and
/// the epoch of its membership.
pub proof fn accept_request_carries_the_entry(
    m: (PxNodeId, AcceptRequest),
    to: PxRemoteReplica,
    entry: PxLogEntry,
    tags: Seq<DedupTag>,
    group_id: u64,
    membership_epoch: u64,
)
    requires
        is_accept_request(m, to, entry, tags, group_id, membership_epoch),
    ensures
        m.0 == to.node_id,
        m.1.version == 1,
        m.1.slot == entry@.slot && m.1.value.slot == entry@.slot,
        m.1.round == entry@.ballot.round && m.1.value.round == entry@.ballot.round,
        m.1.leader_id == entry@.ballot.leader_id && m.1.value.leader_id == entry@.ballot.leader_id,
        m.1.term == entry@.term && m.1.value.term == entry@.term,
        buffer_bytes(m.1.value.payload) == entry@.payload,
        m.1.dedup_tags@ == tags,
        m.1.group_id == group_id,
        m.1.membership_epoch == membership_epoch,
        m.1.request_id != 0,
{
    assert(m.1.value.entry().ballot == entry@.ballot);
}

} // verus!
