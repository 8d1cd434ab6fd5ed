//! Rebuilding a group with other members.
//!
//! A rebuild keeps the local replica with its log, promises, term and vote, so
//! that a group can be built up member by member without losing its leader. The
//! members that stay keep their votes, the epoch counts on, and slots are given
//! out from where the group stopped.

use crate::cluster::group::{
    entry_at, indexed_by_id, lemma_counts_bounded, lemma_counts_update, member_of, padded,
    real_remotes, with_member, PxGroup, RemoteReplicaKind,
};
use crate::cluster::group_config::{members_view, MemberView, PxGroupMember};
use crate::cluster::info::RemoteReplicaInfo;
use crate::cluster::local_replica::PxLocalReplica;
use crate::cluster::remote_replica::PxRemoteReplica;
use crate::common::config::CrowKVConfig;
use vstd::prelude::*;

verus! {

/// An id with an endpoint.
pub type PeerView = (u64, Seq<char>);

/// What a list of peers says.
pub open spec fn peers_view(v: Seq<RemoteReplicaInfo>) -> Seq<PeerView> {
    v.map_values(|p: RemoteReplicaInfo| (p.replica_id, p.endpoint@))
}

/// Where the remote members of a group are, in order of their ids.
pub open spec fn peers_of(g: PxGroup) -> Seq<PeerView> {
    real_remotes(g.remote_replicas@).map_values(|r: PxRemoteReplica| (r.node_id, r.endpoint@))
}

/// The remote members of a group with their votes, in order of their ids.
pub open spec fn members_of(g: PxGroup) -> Seq<MemberView> {
    real_remotes(g.remote_replicas@).map_values(|r: PxRemoteReplica| member_of(r))
}

/// Peers as new members: they have a vote.
pub open spec fn new_members(peers: Seq<PeerView>) -> Seq<MemberView> {
    peers.map_values(
        |p: PeerView| MemberView { replica_id: p.0, endpoint: p.1, voting: true },
    )
}

/// The member that stands last for this id, if any.
pub open spec fn member_for(members: Seq<MemberView>, id: int) -> Option<MemberView>
    decreases members.len(),
{
    if members.len() == 0 {
        None
    } else if members.last().replica_id == id {
        Some(members.last())
    } else {
        member_for(members.drop_last(), id)
    }
}

/// The member with this id has a vote.
pub open spec fn has_vote(members: Seq<MemberView>, id: int) -> bool {
    member_for(members, id) matches Some(m) && m.voting
}

/// How often the voting membership changes when `more` are added to `members`
/// one by one.
pub open spec fn vote_changes(members: Seq<MemberView>, more: Seq<MemberView>) -> nat
    decreases more.len(),
{
    if more.len() == 0 {
        0
    } else {
        let front = more.drop_last();
        let m = more.last();
        vote_changes(members, front) + if has_vote(members + front, m.replica_id as int)
            != m.voting {
            1nat
        } else {
            0
        }
    }
}

/// The entry of a member table agrees with what a member is to be: it has that
/// endpoint and that vote, and has not been contacted.
pub open spec fn entry_agrees(k: RemoteReplicaKind, id: int, member: Option<MemberView>) -> bool {
    match (k, member) {
        (RemoteReplicaKind::Real(r), Some(m)) => r.is_fresh(id as u64, m.endpoint, m.voting),
        (RemoteReplicaKind::Placeholder, None) => true,
        _ => false,
    }
}

/// A member table holds exactly `members`, none of which has been contacted.
pub open spec fn holds_members(table: Seq<RemoteReplicaKind>, members: Seq<MemberView>) -> bool {
    forall|id: int|
        0 <= id ==> entry_agrees(#[trigger] entry_at(table, id), id, member_for(members, id))
}

/// The local replica of a rebuild of `prior`.
pub open spec fn kept_replica(prior: PxGroup) -> PxLocalReplica {
    PxLocalReplica { shutdown_started: false, admin_step_down: false, ..prior.local_replica }
}

/// `g` is a rebuild of `prior` with the remote members `members`, at `epoch`. It
/// gives out slots from where `prior` stopped.
pub open spec fn rebuilt_from(
    g: PxGroup,
    prior: PxGroup,
    members: Seq<MemberView>,
    epoch: int,
) -> bool {
    &&& holds_members(g.remote_replicas@, members)
    &&& g.valid_replica_count == real_remotes(g.remote_replicas@).len()
    &&& g.membership_epoch == epoch
    &&& g.config == (CrowKVConfig {
        election: prior.config.election,
        force_classic: prior.config.force_classic,
        ..CrowKVConfig::default_spec()
    })
    &&& g.proposing_term == prior.proposing_term
    &&& g.next_slot == prior.next_slot
    &&& exists|fresh: PxGroup| #[trigger] is_refitted(g, prior, fresh)
}

/// `fresh` is a new group with the local replica of `prior`, and `g` differs
/// from it in its remote members and in what a rebuild takes over.
pub open spec fn is_refitted(g: PxGroup, prior: PxGroup, fresh: PxGroup) -> bool {
    &&& fresh.is_new(prior.group_id, kept_replica(prior))
    &&& g == (PxGroup {
        remote_replicas: g.remote_replicas,
        valid_replica_count: g.valid_replica_count,
        cached_quorum: g.cached_quorum,
        membership_epoch: g.membership_epoch,
        config: g.config,
        proposing_term: g.proposing_term,
        next_slot: g.next_slot,
        ..fresh
    })
}

/// A rebuild of `group` without remote members.
pub fn rebuild_group_with_same_config(group: PxGroup) -> (g: PxGroup)
    requires
        group.wf(),
    ensures
        g.wf(),
        g.remote_replicas@ == Seq::<RemoteReplicaKind>::empty(),
        rebuilt_from(g, group, Seq::<MemberView>::empty(), 0),
{
    let election = group.config.election;
    let force_classic = group.config.force_classic;
    let proposing_term: u64 = group.proposing_term;
    let next_slot: u64 = group.next_slot;
    let local_replica = PxLocalReplica::new_inheriting_election_state(group.local_replica);
    let mut g = PxGroup::new(group.group_id, local_replica);
    let ghost fresh = g;
    g.config.election = election;
    g.proposing_term = proposing_term;
    g.set_next_slot(next_slot);
    if force_classic {
        g.set_force_classic(true);
    }
    proof {
        assert(is_refitted(g, group, fresh));
    }
    g
}

/// Ids of members are within what a member table can hold.
pub open spec fn ids_fit(members: Seq<MemberView>) -> bool {
    forall|i: int| 0 <= i < members.len() ==> (#[trigger] members[i]).replica_id < usize::MAX - 1
}

proof fn lemma_real_count_bound(g: PxGroup)
    requires
        g.wf(),
        g.valid_replica_count == real_remotes(g.remote_replicas@).len(),
    ensures
        g.valid_replica_count < usize::MAX,
{
    lemma_counts_bounded(g.remote_replicas@);
}

/// Adding members one by one changes the voting membership at most once each.
proof fn lemma_vote_changes_bound(members: Seq<MemberView>, more: Seq<MemberView>)
    ensures
        vote_changes(members, more) <= more.len(),
    decreases more.len(),
{
    if more.len() > 0 {
        lemma_vote_changes_bound(members, more.drop_last());
    }
}

/// The voting membership changes no less often when more are added.
proof fn lemma_vote_changes_grow(members: Seq<MemberView>, more: Seq<MemberView>, n: int)
    requires
        0 <= n <= more.len(),
    ensures
        vote_changes(members, more.take(n)) <= vote_changes(members, more),
    decreases more.len(),
{
    if n == more.len() {
        assert(more.take(n) =~= more);
    } else {
        lemma_vote_changes_grow(members, more.drop_last(), n);
        assert(more.drop_last().take(n) =~= more.take(n));
    }
}

/// Add members to a rebuild, each as one that has not been contacted.
fn add_members(
    group: &mut PxGroup,
    members: &Vec<PxGroupMember>,
    Ghost(prior): Ghost<PxGroup>,
    Ghost(done): Ghost<Seq<MemberView>>,
)
    requires
        old(group).wf(),
        rebuilt_from(*old(group), prior, done, old(group).membership_epoch as int),
        ids_fit(members_view(members@)),
        old(group).membership_epoch + vote_changes(done, members_view(members@)) <= u64::MAX,
    ensures
        final(group).wf(),
        rebuilt_from(
            *final(group),
            prior,
            done + members_view(members@),
            old(group).membership_epoch + vote_changes(done, members_view(members@)),
        ),
{
    let ghost views = members_view(members@);
    let ghost epoch = group.membership_epoch as int;
    let mut i: usize = 0;
    proof {
        assert(done + views.take(0) =~= done);
        assert(views.take(0) =~= Seq::empty());
    }
    while i < members.len()
        invariant
            i <= members.len(),
            views == members_view(members@),
            ids_fit(views),
            0 <= epoch,
            epoch + vote_changes(done, views) <= u64::MAX,
            group.wf(),
            rebuilt_from(
                *group,
                prior,
                done + views.take(i as int),
                epoch + vote_changes(done, views.take(i as int)),
            ),
        decreases members.len() - i,
    {
        let id: u64 = members[i].replica_id;
        let ghost before = *group;
        let ghost said = done + views.take(i as int);
        let ghost next = done + views.take(i + 1);
        let remote = PxRemoteReplica::new(id, members[i].endpoint.clone()).with_voting(
            members[i].voting,
        );
        let ghost member = remote;
        proof {
            assert(views[i as int] == members@[i as int]@);
            lemma_real_count_bound(*group);
            lemma_vote_changes_grow(done, views, i + 1);
            assert(views.take(i + 1).drop_last() =~= views.take(i as int));
            assert(next =~= said.push(views[i as int]));
            assert(next.drop_last() =~= said);
        }
        proof {
            assert(entry_agrees(
                entry_at(before.remote_replicas@, id as int),
                id as int,
                member_for(said, id as int),
            ));
            assert(entry_at(before.remote_replicas@, id as int).votes() == has_vote(
                said,
                id as int,
            ));
        }
        group.add_remote_replica(remote);
        proof {
            let table = group.remote_replicas@;
            let prev = before.remote_replicas@;
            assert forall|k: int| 0 <= k implies entry_agrees(
                #[trigger] entry_at(table, k),
                k,
                member_for(next, k),
            ) by {
                assert(entry_agrees(entry_at(prev, k), k, member_for(said, k)));
            }
            lemma_added_count(prev, table, id as int, RemoteReplicaKind::Real(member));
            let fresh = choose|fresh: PxGroup| #[trigger] is_refitted(before, prior, fresh);
            assert(is_refitted(*group, prior, fresh));
        }
        i = i + 1;
    }
    proof {
        assert(views.take(i as int) =~= views);
    }
}

/// How the number of members changes when one is put into a table.
proof fn lemma_added_count(
    before: Seq<RemoteReplicaKind>,
    after: Seq<RemoteReplicaKind>,
    idx: int,
    k: RemoteReplicaKind,
)
    requires
        0 <= idx,
        k is Real,
        with_member(before, after, idx, k),
    ensures
        real_remotes(after).len() == real_remotes(before).len() + if entry_at(before, idx) is Real {
            0int
        } else {
            1
        },
    decreases after.len(),
{
    if idx < before.len() {
        assert(after =~= before.update(idx, k));
        lemma_counts_update(before, idx, k);
    } else {
        assert(after.last() == k);
        lemma_padding_count(before, after.drop_last());
    }
}

proof fn lemma_padding_count(before: Seq<RemoteReplicaKind>, after: Seq<RemoteReplicaKind>)
    requires
        padded(before, after),
    ensures
        real_remotes(after) == real_remotes(before),
    decreases after.len(),
{
    if after.len() == before.len() {
        assert(after =~= before);
    } else {
        assert(after.last() == entry_at(before, after.len() - 1));
        lemma_padding_count(before, after.drop_last());
    }
}

/// Where the remote members of a group are, as a list.
pub fn peers_info(group: &PxGroup) -> (r: Vec<RemoteReplicaInfo>)
    ensures
        peers_view(r@) == peers_of(*group),
{
    let info = group.remote_replica_info();
    let mut r: Vec<RemoteReplicaInfo> = Vec::new();
    let mut i: usize = 0;
    while i < info.len()
        invariant
            i <= info.len(),
            r.len() == i,
            forall|k: int|
                0 <= k < i ==> (#[trigger] r[k]).replica_id == info[k].0 && r[k].endpoint@
                    == info[k].1@,
        decreases info.len() - i,
    {
        r.push(RemoteReplicaInfo { replica_id: info[i].0, endpoint: info[i].1.clone() });
        i = i + 1;
    }
    proof {
        assert(peers_view(r@) =~= peers_of(*group));
    }
    r
}

/// The remote members of a group with their votes, as a list.
pub fn members_info(group: &PxGroup) -> (r: Vec<PxGroupMember>)
    ensures
        members_view(r@) == members_of(*group),
{
    let info = group.remote_replica_info();
    let mut r: Vec<PxGroupMember> = Vec::new();
    let mut i: usize = 0;
    while i < info.len()
        invariant
            i <= info.len(),
            r.len() == i,
            forall|k: int|
                0 <= k < i ==> (#[trigger] r[k])@ == (MemberView {
                    replica_id: info[k].0,
                    endpoint: info[k].1@,
                    voting: info[k].2,
                }),
        decreases info.len() - i,
    {
        r.push(
            PxGroupMember {
                replica_id: info[i].0,
                endpoint: info[i].1.clone(),
                voting: info[i].2,
            },
        );
        i = i + 1;
    }
    proof {
        assert(members_view(r@) =~= members_of(*group));
    }
    r
}

/// Peers as new members.
fn as_members(peers: &Vec<RemoteReplicaInfo>) -> (r: Vec<PxGroupMember>)
    ensures
        members_view(r@) == new_members(peers_view(peers@)),
        r.len() == peers.len(),
{
    let mut r: Vec<PxGroupMember> = Vec::new();
    let mut i: usize = 0;
    while i < peers.len()
        invariant
            i <= peers.len(),
            r.len() == i,
            forall|k: int|
                0 <= k < i ==> (#[trigger] r[k])@ == (MemberView {
                    replica_id: peers@[k].replica_id,
                    endpoint: peers@[k].endpoint@,
                    voting: true,
                }),
        decreases peers.len() - i,
    {
        r.push(
            PxGroupMember {
                replica_id: peers[i].replica_id,
                endpoint: peers[i].endpoint.clone(),
                voting: true,
            },
        );
        i = i + 1;
    }
    proof {
        assert(members_view(r@) =~= new_members(peers_view(peers@)));
    }
    r
}

proof fn lemma_members_fit(g: PxGroup)
    requires
        g.wf(),
    ensures
        forall|i: int|
            0 <= i < members_of(g).len() ==> (#[trigger] members_of(g)[i]).replica_id
                < g.remote_replicas.len(),
        members_of(g).len() <= g.remote_replicas.len(),
{
    lemma_real_ids(g.remote_replicas@);
    lemma_counts_bounded(g.remote_replicas@);
    assert forall|i: int| 0 <= i < members_of(g).len() implies (
    #[trigger] members_of(g)[i]).replica_id < g.remote_replicas.len() by {
        let r = real_remotes(g.remote_replicas@)[i];
        assert(r.node_id < g.remote_replicas.len());
    }
}

proof fn lemma_real_ids(s: Seq<RemoteReplicaKind>)
    requires
        indexed_by_id(s),
    ensures
        forall|i: int|
            0 <= i < real_remotes(s).len() ==> (#[trigger] real_remotes(s)[i]).node_id < s.len(),
    decreases s.len(),
{
    if s.len() > 0 {
        let front = s.drop_last();
        assert forall|i: int| 0 <= i < front.len() implies (
        #[trigger] front[i] matches RemoteReplicaKind::Real(r) ==> r.node_id == i) by {
            assert(s[i] == front[i]);
        }
        lemma_real_ids(front);
        assert(s[s.len() - 1] == s.last());
        assert forall|i: int| 0 <= i < real_remotes(s).len() implies (
        #[trigger] real_remotes(s)[i]).node_id < s.len() by {
            if i < real_remotes(front).len() {
                assert(real_remotes(s)[i] == real_remotes(front)[i]);
            }
        }
    }
}

/// Rebuild a group with its own members, at its own epoch.
fn rebuild_same(group: PxGroup) -> (g: PxGroup)
    requires
        group.wf(),
        group.remote_replicas.len() < usize::MAX - 1,
    ensures
        g.wf(),
        rebuilt_from(g, group, members_of(group), group.membership_epoch as int),
{
    let existing = members_info(&group);
    let epoch: u64 = group.membership_epoch;
    let ghost prior = group;
    let mut g = rebuild_group_with_same_config(group);
    proof {
        lemma_members_fit(prior);
        assert(members_view(existing@).len() == existing@.len());
        assert(ids_fit(members_view(existing@)));
        assert(Seq::<MemberView>::empty() + members_of(prior) =~= members_of(prior));
        lemma_vote_changes_bound(Seq::empty(), members_of(prior));
    }
    add_members(&mut g, &existing, Ghost(prior), Ghost(Seq::empty()));
    let ghost replayed = g;
    g.set_membership_epoch(epoch);
    proof {
        let fresh = choose|fresh: PxGroup| #[trigger] is_refitted(replayed, prior, fresh);
        assert(is_refitted(g, prior, fresh));
    }
    g
}

/// The epoch can count the changes of the voting membership that come with
/// these peers.
pub open spec fn epoch_lasts(g: PxGroup, more: Seq<PeerView>) -> bool {
    g.membership_epoch + vote_changes(members_of(g), new_members(more)) <= u64::MAX
}

/// Rebuild a group with its members and more of them. A member keeps its vote; a
/// peer starts with one, and replaces a member with its id. The epoch goes on
/// from that of the group, by one for every change of the voting membership.
pub fn rebuild_with(group: PxGroup, more: &Vec<RemoteReplicaInfo>) -> (g: PxGroup)
    requires
        group.wf(),
        group.remote_replicas.len() < usize::MAX - 1,
        ids_fit(new_members(peers_view(more@))),
        epoch_lasts(group, peers_view(more@)),
    ensures
        g.wf(),
        rebuilt_with(g, group, peers_view(more@)),
{
    let ghost prior = group;
    let added = as_members(more);
    let mut g = rebuild_same(group);
    add_members(&mut g, &added, Ghost(prior), Ghost(members_of(prior)));
    g
}

/// `g` is a rebuild of `prior` with its members and the peers `more`.
pub open spec fn rebuilt_with(g: PxGroup, prior: PxGroup, more: Seq<PeerView>) -> bool {
    rebuilt_from(
        g,
        prior,
        members_of(prior) + new_members(more),
        prior.membership_epoch + vote_changes(members_of(prior), new_members(more)),
    )
}

/// `members` without those with this id.
pub open spec fn members_without(members: Seq<MemberView>, id: u64) -> Seq<MemberView>
    decreases members.len(),
{
    if members.len() == 0 {
        Seq::empty()
    } else if members.last().replica_id == id {
        members_without(members.drop_last(), id)
    } else {
        members_without(members.drop_last(), id).push(members.last())
    }
}

/// `g` is a rebuild of `prior` without the member `id`.
pub open spec fn rebuilt_without(g: PxGroup, prior: PxGroup, id: u64) -> bool {
    rebuilt_from(
        g,
        prior,
        members_without(members_of(prior), id),
        prior.membership_epoch + if has_vote(members_of(prior), id as int) {
            1int
        } else {
            0
        },
    )
}

/// Rebuild a group without the member `id`. The others keep their votes. The
/// epoch goes on from that of the group, by one where the member had a vote.
pub fn rebuild_without(group: PxGroup, id: u64) -> (g: PxGroup)
    requires
        group.wf(),
        group.remote_replicas.len() < usize::MAX - 1,
        has_vote(members_of(group), id as int) ==> group.membership_epoch < u64::MAX,
    ensures
        g.wf(),
        rebuilt_without(g, group, id),
{
    let ghost prior = group;
    let ghost members = members_of(group);
    let mut g = rebuild_same(group);
    let ghost before = g;
    let ghost prev = g.remote_replicas@;
    let ghost was = entry_at(prev, id as int);
    proof {
        assert(entry_agrees(was, id as int, member_for(members, id as int)));
    }
    if id <= usize::MAX as u64 {
        g.remove_remote_replica(id);
    }
    proof {
        let table = g.remote_replicas@;
        assert forall|k: int| 0 <= k implies entry_agrees(
            #[trigger] entry_at(table, k),
            k,
            member_for(members_without(members, id), k),
        ) by {
            removing_a_member_removes_only_it(members, id, k);
            assert(entry_agrees(entry_at(prev, k), k, member_for(members, k)));
        }
        if was is Real {
            lemma_counts_update(prev, id as int, RemoteReplicaKind::Placeholder);
        }
        let fresh = choose|fresh: PxGroup| #[trigger] is_refitted(before, prior, fresh);
        assert(is_refitted(g, prior, fresh));
    }
    g
}

// ── Laws of rebuilds ─────────────────────────────────────────────
/// A rebuild keeps the log, the promises, the term and the vote of the local
/// replica, gives out no slot again that the group gave out, and a leader that
/// could propose still can.
pub proof fn rebuild_keeps_the_local_replica(
    g: PxGroup,
    prior: PxGroup,
    members: Seq<MemberView>,
    epoch: int,
)
    requires
        rebuilt_from(g, prior, members, epoch),
    ensures
        g.group_id == prior.group_id,
        g.local_replica.acceptor == prior.local_replica.acceptor,
        g.local_replica.learner == prior.local_replica.learner,
        g.local_replica.current_term == prior.local_replica.current_term,
        g.local_replica.voted_for == prior.local_replica.voted_for,
        g.next_slot >= prior.next_slot,
        g.may_propose() == prior.may_propose(),
{
}

/// A member that is removed is no member afterwards, and every other member
/// stays where it was, with the vote that it had.
pub proof fn removing_a_member_removes_only_it(members: Seq<MemberView>, id: u64, other: int)
    ensures
        member_for(members_without(members, id), other) == if other == id {
            None
        } else {
            member_for(members, other)
        },
    decreases members.len(),
{
    if members.len() > 0 {
        removing_a_member_removes_only_it(members.drop_last(), id, other);
        let kept = members_without(members.drop_last(), id);
        assert(kept.push(members.last()).drop_last() =~= kept);
    }
}

/// Of members that are added, those count that are added later; every other
/// member stays where it was, with the vote that it had.
pub proof fn added_members_replace_those_with_their_ids(
    members: Seq<MemberView>,
    more: Seq<MemberView>,
    id: int,
)
    ensures
        member_for(members + more, id) == match member_for(more, id) {
            Some(m) => Some(m),
            None => member_for(members, id),
        },
    decreases more.len(),
{
    if more.len() == 0 {
        assert(members + more =~= members);
    } else {
        added_members_replace_those_with_their_ids(members, more.drop_last(), id);
        assert((members + more).drop_last() =~= members + more.drop_last());
    }
}

/// A rebuild never takes the epoch back. Adding one peer moves it on by one
/// unless the peer had a vote already, and removing a member moves it on by one
/// exactly if the member had a vote.
pub proof fn rebuild_moves_the_epoch_with_the_votes(
    added: PxGroup,
    removed: PxGroup,
    prior: PxGroup,
    more: Seq<PeerView>,
    id: u64,
)
    requires
        rebuilt_with(added, prior, more),
        rebuilt_without(removed, prior, id),
    ensures
        prior.membership_epoch <= added.membership_epoch <= prior.membership_epoch + more.len(),
        more.len() == 1 ==> added.membership_epoch == prior.membership_epoch + if has_vote(
            members_of(prior),
            more[0].0 as int,
        ) {
            0int
        } else {
            1
        },
        removed.membership_epoch == prior.membership_epoch + if has_vote(
            members_of(prior),
            id as int,
        ) {
            1int
        } else {
            0
        },
{
    let new = new_members(more);
    lemma_vote_changes_bound(members_of(prior), new);
    if more.len() == 1 {
        assert(new.drop_last() =~= Seq::empty());
        assert(members_of(prior) + new.drop_last() =~= members_of(prior));
        assert(vote_changes(members_of(prior), new.drop_last()) == 0);
    }
}

proof fn lemma_member_for_table(s: Seq<RemoteReplicaKind>, id: int)
    requires
        indexed_by_id(s),
        id >= 0,
    ensures
        member_for(
            real_remotes(s).map_values(|r: PxRemoteReplica| member_of(r)),
            id,
        ) == match entry_at(s, id) {
            RemoteReplicaKind::Real(r) => Some(member_of(r)),
            RemoteReplicaKind::Placeholder => None,
        },
    decreases s.len(),
{
    let f = |r: PxRemoteReplica| member_of(r);
    let all = real_remotes(s).map_values(f);
    if s.len() > 0 {
        let front = s.drop_last();
        assert forall|i: int| 0 <= i < front.len() implies (
        #[trigger] front[i] matches RemoteReplicaKind::Real(r) ==> r.node_id == i) by {
            assert(s[i] == front[i]);
        }
        lemma_member_for_table(front, id);
        let before = real_remotes(front).map_values(f);
        let last = s.len() - 1;
        assert(s[last] == s.last());
        if let RemoteReplicaKind::Real(r) = s.last() {
            assert(r.node_id == last);
            assert(all =~= before.push(member_of(r)));
            assert(all.drop_last() =~= before);
            assert(all.last() == member_of(r));
        }
        if id < last {
            assert(entry_at(s, id) == entry_at(front, id));
        }
    }
}

/// A group rebuilt without a member has every other remote member, at its
/// endpoint and with its vote, and none that the group did not have.
pub proof fn rebuild_without_a_member_keeps_the_others(
    g: PxGroup,
    prior: PxGroup,
    id: u64,
    k: int,
)
    requires
        prior.wf(),
        rebuilt_without(g, prior, id),
        k >= 0,
    ensures
        k == id ==> entry_at(g.remote_replicas@, k) is Placeholder,
        k != id ==> match (entry_at(prior.remote_replicas@, k), entry_at(g.remote_replicas@, k)) {
            (RemoteReplicaKind::Real(r), RemoteReplicaKind::Real(now)) => {
                &&& now.endpoint@ == r.endpoint@
                &&& now.voting == r.voting
                &&& now.node_id == r.node_id
            },
            (RemoteReplicaKind::Placeholder, RemoteReplicaKind::Placeholder) => true,
            _ => false,
        },
{
    let members = members_of(prior);
    lemma_member_for_table(prior.remote_replicas@, k);
    removing_a_member_removes_only_it(members, id, k);
    assert(entry_agrees(
        entry_at(g.remote_replicas@, k),
        k,
        member_for(members_without(members, id), k),
    ));
    if let RemoteReplicaKind::Real(r) = entry_at(prior.remote_replicas@, k) {
        assert(r.node_id == k);
    }
}

/// A group rebuilt with more peers has each of them, the last for its id, at its
/// endpoint and with a vote; its own members stay at their endpoints, with
/// their votes, unless a peer takes their place; and it has no others.
pub proof fn rebuild_with_peers_adds_them(
    g: PxGroup,
    prior: PxGroup,
    more: Seq<PeerView>,
    k: int,
)
    requires
        prior.wf(),
        rebuilt_with(g, prior, more),
        k >= 0,
    ensures
        forall|i: int|
            0 <= i < more.len() && (#[trigger] more[i]).0 == k && (forall|j: int|
                i < j < more.len() ==> (#[trigger] more[j]).0 != k) ==> (entry_at(
                g.remote_replicas@,
                k,
            ) matches RemoteReplicaKind::Real(now) && now.endpoint@ == more[i].1 && now.voting),
        (forall|j: int| 0 <= j < more.len() ==> (#[trigger] more[j]).0 != k) ==> match (
            entry_at(prior.remote_replicas@, k),
            entry_at(g.remote_replicas@, k),
        ) {
            (RemoteReplicaKind::Real(r), RemoteReplicaKind::Real(now)) => now.endpoint@
                == r.endpoint@ && now.voting == r.voting,
            (RemoteReplicaKind::Placeholder, RemoteReplicaKind::Placeholder) => true,
            _ => false,
        },
{
    let members = members_of(prior);
    let new = new_members(more);
    lemma_member_for_table(prior.remote_replicas@, k);
    added_members_replace_those_with_their_ids(members, new, k);
    lemma_member_for(new, k);
    assert(entry_agrees(entry_at(g.remote_replicas@, k), k, member_for(members + new, k)));
    assert forall|i: int| 0 <= i < more.len() implies (#[trigger] new[i]).replica_id == more[i].0
        && new[i].endpoint == more[i].1 && new[i].voting by {}
    assert forall|i: int|
        0 <= i < more.len() && (#[trigger] more[i]).0 == k && (forall|j: int|
            i < j < more.len() ==> (#[trigger] more[j]).0 != k) implies (entry_at(
        g.remote_replicas@,
        k,
    ) matches RemoteReplicaKind::Real(now) && now.endpoint@ == more[i].1 && now.voting) by {
        assert(new[i].replica_id == k);
        let m = member_for(new, k)->0;
        let a = choose|a: int|
            0 <= a < new.len() && #[trigger] new[a] == m && forall|j: int|
                a < j < new.len() ==> (#[trigger] new[j]).replica_id != k;
        if a < i {
            assert(new[i].replica_id != k);
        } else if i < a {
            assert(more[a].0 != k);
        }
    }
    if forall|j: int| 0 <= j < more.len() ==> (#[trigger] more[j]).0 != k {
        if member_for(new, k) is Some {
            let m = member_for(new, k)->0;
            let a = choose|a: int|
                0 <= a < new.len() && #[trigger] new[a] == m && forall|j: int|
                    a < j < new.len() ==> (#[trigger] new[j]).replica_id != k;
            assert(more[a].0 != k);
        }
    }
}

proof fn lemma_member_for(members: Seq<MemberView>, id: int)
    ensures
        match member_for(members, id) {
            Some(m) => m.replica_id == id && exists|a: int|
                0 <= a < members.len() && #[trigger] members[a] == m && forall|j: int|
                    a < j < members.len() ==> (#[trigger] members[j]).replica_id != id,
            None => forall|a: int|
                0 <= a < members.len() ==> (#[trigger] members[a]).replica_id != id,
        },
    decreases members.len(),
{
    if members.len() > 0 {
        let front = members.drop_last();
        assert(members[members.len() - 1] == members.last());
        assert forall|a: int| 0 <= a < front.len() implies front[a] == #[trigger] members[a] by {}
        if members.last().replica_id != id {
            lemma_member_for(front, id);
            if let Some(m) = member_for(front, id) {
                let a = choose|a: int|
                    0 <= a < front.len() && #[trigger] front[a] == m && forall|j: int|
                        a < j < front.len() ==> (#[trigger] front[j]).replica_id != id;
                assert(members[a] == m);
                assert forall|j: int| a < j < members.len() implies (
                #[trigger] members[j]).replica_id != id by {
                    if j < front.len() {
                        assert(front[j].replica_id != id);
                    }
                }
            } else {
                assert forall|a: int| 0 <= a < members.len() implies (
                #[trigger] members[a]).replica_id != id by {
                    if a < front.len() {
                        assert(front[a].replica_id != id);
                    }
                }
            }
        }
    }
}

} // verus!
