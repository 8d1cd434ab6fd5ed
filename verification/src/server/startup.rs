//! Setting groups up when the server starts or a group is created: paths, the
//! log's configuration, and a group around a restored replica.

use crate::cluster::group::{
    config_applied, configured_members_are_the_members, PxGroup, RemoteReplicaKind,
};
use crate::cluster::group_config::{
    config_file_name, GroupConfigStore, MemberView, PxGroupConfig,
};
use crate::cluster::local_replica::{PxLocalReplica, PxLocalReplicaRole};
use crate::cluster::px_kv_store::PxKvStore;
use crate::cluster::watermarks::later;
use crate::common::config::{CrowKVConfig, PxElectionConfig, WalConfig, WalRecordFormat};
use crate::common::path::{join_path, joined};
use crate::common::scan::decimal_reads_back;
use crate::common::text::{concat2, dec, decimal, same_text};
use crate::server::store_registry::CrowtreeBackend;
use vstd::prelude::*;
use vstd::string::*;

verus! {

/// Name of a store's directory.
pub open spec fn store_dir(store_id: u64) -> Seq<char> {
    "store"@ + dec(store_id as nat)
}

/// Name of a group's directory.
pub open spec fn group_dir(group_id: u64) -> Seq<char> {
    "group"@ + dec(group_id as nat)
}

/// Directory of a store's log.
pub fn store_wal_root(wal_root: &str, store_id: u64) -> (p: String)
    ensures
        p@ == joined(wal_root@, store_dir(store_id)),
{
    let id: String = decimal(store_id);
    let name: String = concat2("store", id.as_str());
    join_path(wal_root, name.as_str())
}

/// Directory of a group's tree engine.
pub fn store_crowtree_path(data_root: &str, store_id: u64, group_id: u64) -> (p: String)
    ensures
        p@ == joined(joined(data_root@, store_dir(store_id)), group_dir(group_id)),
{
    let store: String = store_wal_root(data_root, store_id);
    let id: String = decimal(group_id);
    let name: String = concat2("group", id.as_str());
    join_path(store.as_str(), name.as_str())
}

/// How the tree engine of a group is opened.
#[derive(Debug)]
pub struct CrowtreeOptions {
    pub path: Option<String>,
    pub backend: CrowtreeBackend,
    pub store_id: u32,
    pub group_id: u32,
}

/// An id as the tree engine takes it: `0` if it does not fit.
pub open spec fn short_id(id: u64) -> u32 {
    if id <= u32::MAX {
        id as u32
    } else {
        0
    }
}

/// How the tree engine of a group is opened.
pub fn crowtree_options(
    data_root: &str,
    store_id: u64,
    group_id: u64,
    backend: CrowtreeBackend,
) -> (o: CrowtreeOptions)
    ensures
        o.path matches Some(p) && p@ == joined(
            joined(data_root@, store_dir(store_id)),
            group_dir(group_id),
        ),
        o.backend == backend,
        o.store_id == short_id(store_id),
        o.group_id == short_id(group_id),
{
    CrowtreeOptions {
        path: Some(store_crowtree_path(data_root, store_id, group_id)),
        backend,
        store_id: if store_id <= 0xFFFF_FFFF {
            store_id as u32
        } else {
            0
        },
        group_id: if group_id <= 0xFFFF_FFFF {
            group_id as u32
        } else {
            0
        },
    }
}

/// Configuration of a group's log: the defaults under the store's directory,
/// with records as text where `text` asks for it.
pub fn group_wal_config(wal_root: &str, store_id: u64, text: bool, skip_fsync: bool) -> (c:
    WalConfig)
    ensures
        c.wal_disks.len() == 1,
        c.wal_disks[0]@ == joined(wal_root@, store_dir(store_id)),
        c.wal_skip_fsync == skip_fsync,
        c.wal_record_format == if text {
            WalRecordFormat::TextLine
        } else {
            WalRecordFormat::Auto
        },
        (WalConfig {
            wal_skip_fsync: false,
            wal_record_format: WalRecordFormat::Auto,
            ..c
        }).is_default_but_disks(),
{
    let mut c = WalConfig::with_root(store_wal_root(wal_root, store_id));
    if text {
        c.wal_record_format = WalRecordFormat::TextLine;
    }
    c.wal_skip_fsync = skip_fsync;
    c
}

/// First segment id of a log that goes on behind `max_segment_id`.
pub fn next_segment_id(max_segment_id: u64) -> (id: u64)
    ensures
        id == if max_segment_id < u64::MAX {
            (max_segment_id + 1) as u64
        } else {
            u64::MAX
        },
{
    if max_segment_id < u64::MAX {
        max_segment_id + 1
    } else {
        u64::MAX
    }
}

/// The first slot that a restored replica may hand out: behind every slot that
/// it has seen, chosen or applied.
pub open spec fn resume_slot(r: PxLocalReplica) -> u64 {
    let seen = later(later(r.highest_seen_slot, r.learner.last_slot()), r.learner.frontier());
    if seen < u64::MAX {
        (seen + 1) as u64
    } else {
        u64::MAX
    }
}

/// Take over the membership that was loaded, if there is one and it is of this
/// group, and let changes of it be written under `config_root`.
pub fn maybe_apply_persisted_config(
    group: &mut PxGroup,
    config_root: &str,
    store_id: u64,
    loaded: Option<&PxGroupConfig>,
)
    requires
        old(group).wf(),
        loaded matches Some(c) ==> forall|i: int|
            0 <= i < c.members.len() ==> (#[trigger] c.members[i]).replica_id < usize::MAX - 1,
    ensures
        final(group).wf(),
        persisted_config_applied(*old(group), *final(group), config_root@, store_id, loaded),
{
    let store = GroupConfigStore::new(config_root, store_id, group.group_id);
    if let Some(config) = loaded {
        if config.group_id == group.group_id {
            let epoch: u64 = group.membership_epoch;
            group.apply_config(config, epoch);
        }
    }
    let ghost applied = *group;
    group.set_config_store(store);
    proof {
        assert((PxGroup { config_store: applied.config_store, ..*group }) == applied);
    }
}

/// `after` is `before` with the membership that was loaded, if it is of this
/// group, and with its configuration file under `config_root`.
pub open spec fn persisted_config_applied(
    before: PxGroup,
    after: PxGroup,
    config_root: Seq<char>,
    store_id: u64,
    loaded: Option<&PxGroupConfig>,
) -> bool {
    let file = joined(config_root, config_file_name(store_id, before.group_id));
    let members = PxGroup { config_store: before.config_store, ..after };
    &&& after.config_store matches Some(s) && s.spec_path() == file
    &&& match loaded {
        Some(c) => if c.group_id == before.group_id {
            config_applied(before, members, c@, before.membership_epoch)
        } else {
            members == before
        },
        None => members == before,
    }
}

/// A group around a replica that was restored from its log.
///
/// The membership that was loaded is taken over, so that the group does not
/// start as a group of one. A group that is created as leader may propose at
/// once, in the term that the replica is in. Slots go on behind everything that
/// the replica knows of.
pub fn create_group_with_wal(
    store_id: u64,
    group_id: u64,
    local_replica: PxLocalReplica,
    initial_role: PxLocalReplicaRole,
    election_cfg: PxElectionConfig,
    config_root: &str,
    loaded: Option<&PxGroupConfig>,
) -> (g: PxGroup)
    requires
        local_replica.wf(),
        local_replica.role == initial_role,
        loaded matches Some(c) ==> forall|i: int|
            0 <= i < c.members.len() ==> (#[trigger] c.members[i]).replica_id < usize::MAX - 1,
    ensures
        g.wf(),
        g.local_replica == local_replica,
        g.next_slot == resume_slot(local_replica),
        g.proposing_term == if initial_role is Leader {
            local_replica.current_term
        } else {
            0
        },
        g.config == (CrowKVConfig { election: election_cfg, ..CrowKVConfig::default_spec() }),
        g.may_propose() == (initial_role is Leader),
        exists|fresh: PxGroup, seeded: PxGroup|
            #![trigger fresh.is_new(group_id, local_replica), persisted_config_applied(fresh, seeded, config_root@, store_id, loaded)]
            fresh.is_new(group_id, local_replica) && persisted_config_applied(
                fresh,
                seeded,
                config_root@,
                store_id,
                loaded,
            ) && g == (PxGroup {
                proposing_term: g.proposing_term,
                config: g.config,
                next_slot: g.next_slot,
                ..seeded
            }),
{
    let mut group = PxGroup::new(group_id, local_replica);
    let ghost fresh = group;
    maybe_apply_persisted_config(&mut group, config_root, store_id, loaded);
    let ghost seeded = group;
    if matches!(initial_role, PxLocalReplicaRole::Leader) {
        group.proposing_term = group.local_replica.current_term;
    }
    group.config.election = election_cfg;
    let mut slot: u64 = group.local_replica.highest_seen_slot;
    let chosen: u64 = group.local_replica.last_chosen_slot();
    if chosen > slot {
        slot = chosen;
    }
    let applied: u64 = group.local_replica.contiguous_applied();
    if applied > slot {
        slot = applied;
    }
    if slot < u64::MAX {
        slot = slot + 1;
    }
    group.set_next_slot(slot);
    proof {
        assert(fresh.is_new(group_id, local_replica));
        assert(persisted_config_applied(fresh, seeded, config_root@, store_id, loaded));
    }
    group
}

/// `g` is a new group whose only member follows, with elections by the profile.
pub open spec fn is_initial_group(g: PxGroup, group_id: u64, replica_id: u64, test: bool) -> bool {
    let election = if test {
        PxElectionConfig::tests_spec()
    } else {
        PxElectionConfig::default_spec()
    };
    &&& g.wf()
    &&& g.local_replica.is_new(replica_id, PxLocalReplicaRole::Follower)
    &&& g.config.election == election
    &&& (PxGroup { config: CrowKVConfig::default_spec(), ..g }).is_new(group_id, g.local_replica)
    &&& g.config == (CrowKVConfig { election, ..CrowKVConfig::default_spec() })
}

/// A store that the server starts with, on the given port, with all its groups.
pub fn bootstrap_store(
    store_id: u64,
    port: u16,
    group_ids: &Vec<u64>,
    replica_id: u64,
    election_profile: &str,
) -> (s: PxKvStore)
    ensures
        s.wf(),
        s.store_id == store_id,
        s.listen_addr@ == "0.0.0.0:"@ + dec(port as nat),
        s.bound_addr is None,
        !s.server_running,
        !s.stop_pending,
        !s.shutdown_started,
        forall|id: u64| #[trigger]
            s.view_groups().contains_key(id) == group_ids@.contains(id),
        forall|id: u64| #[trigger]
            s.view_groups().contains_key(id) ==> is_initial_group(
                s.view_groups()[id],
                id,
                replica_id,
                election_profile@ == "test"@,
            ),
{
    let text: String = decimal(port as u64);
    let mut s = PxKvStore::new(store_id, concat2("0.0.0.0:", text.as_str()));
    let test = same_text(election_profile, "test");
    let mut i: usize = 0;
    while i < group_ids.len()
        invariant
            i <= group_ids.len(),
            test == (election_profile@ == "test"@),
            s.wf(),
            s.store_id == store_id,
            s.listen_addr@ == "0.0.0.0:"@ + dec(port as nat),
            s.bound_addr is None,
            !s.server_running,
            !s.stop_pending,
            !s.shutdown_started,
            forall|id: u64| #[trigger]
                s.view_groups().contains_key(id) == group_ids@.take(i as int).contains(id),
            forall|id: u64| #[trigger]
                s.view_groups().contains_key(id) ==> is_initial_group(
                    s.view_groups()[id],
                    id,
                    replica_id,
                    test,
                ),
        decreases group_ids.len() - i,
    {
        let gid: u64 = group_ids[i];
        let ghost before = s.view_groups();
        let local_replica = PxLocalReplica::new(replica_id, PxLocalReplicaRole::Follower);
        let mut group = PxGroup::new(gid, local_replica);
        let ghost fresh = group;
        if test {
            group.config.election = PxElectionConfig::for_tests();
        }
        proof {
            assert((PxGroup { config: CrowKVConfig::default_spec(), ..group }) == fresh);
        }
        let ghost made = group;
        s.add_group(group);
        proof {
            assert(s.view_groups() == before.insert(gid, made));
            assert forall|id: u64| #[trigger]
                s.view_groups().contains_key(id) == group_ids@.take(i + 1).contains(id) by {
                assert(before.contains_key(id) == group_ids@.take(i as int).contains(id));
                if group_ids@.take(i as int).contains(id) {
                    let k = group_ids@.take(i as int).index_of(id);
                    assert(group_ids@.take(i + 1)[k] == id);
                }
                if group_ids@.take(i + 1).contains(id) {
                    let k = group_ids@.take(i + 1).index_of(id);
                    if k < i {
                        assert(group_ids@.take(i as int)[k] == id);
                    }
                }
                assert(group_ids@.take(i + 1)[i as int] == gid);
            }
        }
        i = i + 1;
    }
    proof {
        assert(group_ids@.take(i as int) =~= group_ids@);
    }
    s
}

/// A restored group hands out no slot that its replica has seen, learned or
/// applied.
pub proof fn restored_group_reuses_no_slot(r: PxLocalReplica, slot: u64)
    requires
        r.wf(),
        r.highest_seen_slot < u64::MAX,
        r.learner.last_slot() < u64::MAX,
        slot <= r.highest_seen_slot || r.learner.chosen(slot) || slot <= r.learner.frontier(),
    ensures
        slot < resume_slot(r),
{
    r.learner.lemma_frontier();
}

/// A restored group wastes no slot either: it goes on right behind one that its
/// replica knows of, or with the first.
pub proof fn restored_group_goes_on_right_behind(r: PxLocalReplica)
    requires
        r.wf(),
        resume_slot(r) < u64::MAX,
    ensures
        resume_slot(r) == 1 || resume_slot(r) == r.highest_seen_slot + 1 || (r.learner.chosen(
            (resume_slot(r) - 1) as u64,
        )),
{
    r.learner.lemma_frontier();
}

/// A membership that was loaded is taken over if it is of this group: its
/// members, other than the local replica, are then the members of the group. A
/// group for which none was loaded, or one of another group, keeps the members
/// that it has.
pub proof fn loaded_membership_is_taken_over(
    before: PxGroup,
    after: PxGroup,
    config_root: Seq<char>,
    store_id: u64,
    loaded: Option<&PxGroupConfig>,
    x: MemberView,
)
    requires
        persisted_config_applied(before, after, config_root, store_id, loaded),
        loaded matches Some(c) ==> forall|i: int, j: int|
            0 <= i < j < c@.members.len() ==> #[trigger] c@.members[i].replica_id
                != #[trigger] c@.members[j].replica_id,
    ensures
        after.local_replica == before.local_replica,
        after.membership_epoch == before.membership_epoch,
        loaded matches Some(c) && c.group_id == before.group_id && c@.members.contains(x)
            && x.replica_id != before.local_replica.id ==> exists|i: int|
            0 <= i < after.remote_replicas.len() && (
            #[trigger] after.remote_replicas@[i] matches RemoteReplicaKind::Real(r) && r.node_id
                == x.replica_id && r.endpoint@ == x.endpoint && r.voting == x.voting),
        loaded matches Some(c) ==> c.group_id != before.group_id ==> after.remote_replicas
            == before.remote_replicas,
        loaded is None ==> after.remote_replicas == before.remote_replicas,
{
    let members = PxGroup { config_store: before.config_store, ..after };
    if let Some(c) = loaded {
        if c.group_id == before.group_id {
            configured_members_are_the_members(before, members, c@, before.membership_epoch, x);
        }
    }
}

/// Two stores have two directories, and so have two groups.
pub proof fn directories_are_told_apart(a: u64, b: u64)
    ensures
        store_dir(a) == store_dir(b) <==> a == b,
        group_dir(a) == group_dir(b) <==> a == b,
{
    decimal_reads_back(a as nat, u64::MAX as nat);
    decimal_reads_back(b as nat, u64::MAX as nat);
    let s = "store"@.len() as int;
    let g = "group"@.len() as int;
    assert(store_dir(a).skip(s) =~= dec(a as nat));
    assert(store_dir(b).skip(s) =~= dec(b as nat));
    assert(group_dir(a).skip(g) =~= dec(a as nat));
    assert(group_dir(b).skip(g) =~= dec(b as nat));
}

/// An id that fits is taken as it is.
pub proof fn fitting_id_is_kept(id: u64)
    ensures
        id <= u32::MAX ==> short_id(id) == id,
        id > u32::MAX ==> short_id(id) == 0,
{
}

/// A new group has its local replica for its only member. That one follows,
/// votes, and knows of nothing.
pub proof fn initial_group_has_one_member(g: PxGroup, group_id: u64, replica_id: u64, test: bool)
    requires
        is_initial_group(g, group_id, replica_id, test),
    ensures
        g.group_id == group_id,
        g.local_replica.id == replica_id,
        g.local_replica.role is Follower,
        g.local_replica.voting,
        g.local_replica.current_term == 0,
        g.remote_replicas@.len() == 0,
        g.next_slot == 1,
        g.local_replica.learner.entries().len() == 0,
        g.config.election.prevote_enabled,
        g.config.election.heartbeat_interval_ms < g.config.election.lease_duration_ms,
        g.config.election.election_min_ms < g.config.election.election_max_ms,
{
}

} // verus!
