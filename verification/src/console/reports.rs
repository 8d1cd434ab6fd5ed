//! What the reports of the nodes add up to: stores, groups and replicas as one
//! sees them across the nodes.

use crate::common::api::ApiError;
use crate::common::text::{same_text, texts};
use crate::console::mgmt::{
    group_unknown, no_such_group, no_such_store, store_unknown, GroupView, ReplicaView,
};
use vstd::prelude::*;

verus! {

/// Whether a node answers.
#[derive(Clone, Copy, Debug, PartialEq, Eq, Structural)]
pub enum NodeHealth {
    Up,
    Down,
    /// Not probed yet.
    Unknown,
}

/// What is known of a node.
#[derive(Debug)]
pub struct NodeRecord {
    pub node_id: String,
    pub health: NodeHealth,
    pub last_seen_ms: u64,
}

/// A group as one node sees it.
#[derive(Clone, Copy, Debug, PartialEq, Eq, Structural)]
pub struct NodeGroup {
    pub group_id: u64,
    /// The replica that the node hosts.
    pub replica_id: u64,
    pub leader_hint: Option<u64>,
}

/// A store that a node hosts, with the groups it has there.
#[derive(Debug)]
pub struct NodeStore {
    pub node_id: String,
    pub store_id: u64,
    pub groups: Vec<NodeGroup>,
}

/// A group in the view of its store.
#[derive(Clone, Copy, Debug, PartialEq, Eq, Structural)]
pub struct GroupSummary {
    pub group_id: u64,
    pub replica_count: usize,
    pub leader: Option<u64>,
}

/// A store across its nodes.
#[derive(Debug)]
pub struct StoreView {
    pub store_id: u64,
    pub name: Option<String>,
    pub nodes: Vec<String>,
    pub groups: Vec<GroupSummary>,
}

/// The nodes that host a store, in the order of their reports.
pub open spec fn nodes_hosting(reports: Seq<NodeStore>, sid: u64) -> Seq<Seq<char>>
    decreases reports.len(),
{
    if reports.len() == 0 {
        Seq::empty()
    } else if reports.last().store_id == sid {
        nodes_hosting(reports.drop_last(), sid).push(reports.last().node_id@)
    } else {
        nodes_hosting(reports.drop_last(), sid)
    }
}

/// The groups of a store as the nodes report them, one after the other.
pub open spec fn mentions(reports: Seq<NodeStore>, sid: u64) -> Seq<NodeGroup>
    decreases reports.len(),
{
    if reports.len() == 0 {
        Seq::empty()
    } else if reports.last().store_id == sid {
        mentions(reports.drop_last(), sid) + reports.last().groups@
    } else {
        mentions(reports.drop_last(), sid)
    }
}

/// How often a group is mentioned.
pub open spec fn times_mentioned(all: Seq<NodeGroup>, gid: u64) -> nat
    decreases all.len(),
{
    if all.len() == 0 {
        0
    } else {
        times_mentioned(all.drop_last(), gid) + if all.last().group_id == gid {
            1nat
        } else {
            0
        }
    }
}

/// The first leader that is named for a group.
pub open spec fn first_hint(all: Seq<NodeGroup>, gid: u64) -> Option<u64>
    decreases all.len(),
{
    if all.len() == 0 {
        None
    } else {
        match first_hint(all.drop_last(), gid) {
            Some(l) => Some(l),
            None => if all.last().group_id == gid {
                all.last().leader_hint
            } else {
                None
            },
        }
    }
}

/// The groups that are mentioned, each once, in the order in which they first
/// are.
pub open spec fn groups_mentioned(all: Seq<NodeGroup>) -> Seq<u64>
    decreases all.len(),
{
    if all.len() == 0 {
        Seq::empty()
    } else {
        let front = groups_mentioned(all.drop_last());
        if front.contains(all.last().group_id) {
            front
        } else {
            front.push(all.last().group_id)
        }
    }
}

/// The summaries of the groups that are mentioned: every mention is one replica,
/// and the leader is the first that is named.
pub open spec fn tally(all: Seq<NodeGroup>) -> Seq<GroupSummary> {
    groups_mentioned(all).map_values(
        |gid: u64|
            GroupSummary {
                group_id: gid,
                replica_count: times_mentioned(all, gid) as usize,
                leader: first_hint(all, gid),
            },
    )
}

/// Some node hosts the store.
pub open spec fn hosted(reports: Seq<NodeStore>, sid: u64) -> bool {
    exists|i: int| 0 <= i < reports.len() && (#[trigger] reports[i]).store_id == sid
}

impl StoreView {
    /// The view is what the reports say of the store.
    pub open spec fn sums_up(&self, reports: Seq<NodeStore>) -> bool {
        &&& self.name is None
        &&& texts(self.nodes@) == nodes_hosting(reports, self.store_id)
        &&& self.groups@ == tally(mentions(reports, self.store_id))
    }
}

proof fn lemma_mentions_bounded(all: Seq<NodeGroup>, gid: u64)
    ensures
        times_mentioned(all, gid) <= all.len(),
        groups_mentioned(all).contains(gid) <==> times_mentioned(all, gid) > 0,
        !groups_mentioned(all).contains(gid) ==> first_hint(all, gid) is None,
    decreases all.len(),
{
    if all.len() > 0 {
        lemma_mentions_bounded(all.drop_last(), gid);
        let front = groups_mentioned(all.drop_last());
        let last = all.last().group_id;
        if !front.contains(last) {
            assert(front.push(last)[front.len() as int] == last);
            if front.contains(gid) {
                let k = front.index_of(gid);
                assert(front.push(last)[k] == gid);
            }
        }
    }
}

/// Sum up the groups that are mentioned.
fn tally_up(all: &Vec<NodeGroup>) -> (r: Vec<GroupSummary>)
    ensures
        r@ == tally(all@),
{
    let mut r: Vec<GroupSummary> = Vec::new();
    let mut i: usize = 0;
    proof {
        assert(all@.take(0) =~= Seq::empty());
        assert(r@ =~= tally(all@.take(0)));
    }
    while i < all.len()
        invariant
            i <= all.len(),
            r@ == tally(all@.take(i as int)),
        decreases all.len() - i,
    {
        let ghost front = all@.take(i as int);
        let ghost next = all@.take(i + 1);
        let g: NodeGroup = all[i];
        let ghost ids = groups_mentioned(front);
        proof {
            assert(next.drop_last() =~= front);
            assert(next.last() == g);
            lemma_mentions_bounded(front, g.group_id);
        }
        let mut at: usize = 0;
        while at < r.len() && r[at].group_id != g.group_id
            invariant
                at <= r.len(),
                forall|k: int| 0 <= k < at ==> (#[trigger] r@[k]).group_id != g.group_id,
            decreases r.len() - at,
        {
            at = at + 1;
        }
        proof {
            assert(forall|k: int| 0 <= k < r.len() ==> #[trigger] r@[k].group_id == ids[k]);
        }
        let ghost before = r@;
        if at < r.len() {
            proof {
                assert(ids[at as int] == g.group_id);
            }
            let mut s: GroupSummary = r[at];
            s.replica_count = s.replica_count + 1;
            if s.leader.is_none() {
                s.leader = g.leader_hint;
            }
            r.set(at, s);
            proof {
                lemma_groups_distinct(front);
                assert(r@ =~= tally(next));
            }
        } else {
            proof {
                if ids.contains(g.group_id) {
                    let k = ids.index_of(g.group_id);
                    assert(r@[k].group_id == ids[k]);
                }
            }
            r.push(
                GroupSummary {
                    group_id: g.group_id,
                    replica_count: 1,
                    leader: g.leader_hint,
                },
            );
            proof {
                assert forall|k: int| 0 <= k < before.len() implies #[trigger] tally(next)[k]
                    == before[k] by {
                    assert(ids.contains(ids[k]));
                }
                assert(r@ =~= tally(next));
            }
        }
        i = i + 1;
    }
    proof {
        assert(all@.take(i as int) =~= all@);
    }
    r
}

proof fn lemma_groups_distinct(all: Seq<NodeGroup>)
    ensures
        groups_mentioned(all).no_duplicates(),
    decreases all.len(),
{
    if all.len() > 0 {
        lemma_groups_distinct(all.drop_last());
    }
}

/// What the reports say of one store.
fn sum_up(reports: &Vec<NodeStore>, sid: u64) -> (v: StoreView)
    ensures
        v.store_id == sid,
        v.sums_up(reports@),
{
    let mut nodes: Vec<String> = Vec::new();
    let mut all: Vec<NodeGroup> = Vec::new();
    let mut i: usize = 0;
    proof {
        assert(reports@.take(0) =~= Seq::empty());
        assert(texts(nodes@) =~= Seq::empty());
    }
    while i < reports.len()
        invariant
            i <= reports.len(),
            texts(nodes@) == nodes_hosting(reports@.take(i as int), sid),
            all@ == mentions(reports@.take(i as int), sid),
        decreases reports.len() - i,
    {
        proof {
            assert(reports@.take(i + 1).drop_last() =~= reports@.take(i as int));
            assert(reports@.take(i + 1).last() == reports@[i as int]);
        }
        if reports[i].store_id == sid {
            let ghost before = nodes@;
            nodes.push(reports[i].node_id.clone());
            proof {
                assert(texts(nodes@) =~= texts(before).push(reports@[i as int].node_id@));
            }
            let ghost so_far = all@;
            let more: &Vec<NodeGroup> = &reports[i].groups;
            let mut j: usize = 0;
            proof {
                assert(all@ =~= so_far + more@.take(0));
            }
            while j < more.len()
                invariant
                    j <= more.len(),
                    all@ == so_far + more@.take(j as int),
                decreases more.len() - j,
            {
                all.push(more[j]);
                proof {
                    assert(all@ =~= so_far + more@.take(j + 1));
                }
                j = j + 1;
            }
            proof {
                assert(more@.take(j as int) =~= more@);
            }
        }
        i = i + 1;
    }
    proof {
        assert(reports@.take(i as int) =~= reports@);
    }
    StoreView { store_id: sid, name: None, nodes, groups: tally_up(&all) }
}

/// The ids of the stores that nodes host: all of them, each once, in ascending
/// order.
pub open spec fn lists_stores(ids: Seq<u64>, reports: Seq<NodeStore>) -> bool {
    &&& forall|i: int, j: int| 0 <= i < j < ids.len() ==> #[trigger] ids[i] < #[trigger] ids[j]
    &&& forall|sid: u64| #[trigger] ids.contains(sid) <==> hosted(reports, sid)
}

/// The ids of the stores that nodes host.
pub fn store_ids(reports: &Vec<NodeStore>) -> (ids: Vec<u64>)
    ensures
        lists_stores(ids@, reports@),
{
    let mut ids: Vec<u64> = Vec::new();
    let mut i: usize = 0;
    while i < reports.len()
        invariant
            i <= reports.len(),
            lists_stores(ids@, reports@.take(i as int)),
        decreases reports.len() - i,
    {
        let sid: u64 = reports[i].store_id;
        let ghost front = reports@.take(i as int);
        let ghost next = reports@.take(i + 1);
        let ghost before = ids@;
        let mut at: usize = 0;
        while at < ids.len() && ids[at] < sid
            invariant
                at <= ids.len(),
                ids@ == before,
                forall|k: int| 0 <= k < at ==> #[trigger] before[k] < sid,
            decreases ids.len() - at,
        {
            at = at + 1;
        }
        let known = at < ids.len() && ids[at] == sid;
        if !known {
            ids.insert(at, sid);
        }
        proof {
            if known {
                assert(before[at as int] == sid);
            } else {
                assert(ids@ =~= before.insert(at as int, sid));
                assert(ids@[at as int] == sid);
                assert(forall|k: int| 0 <= k < at ==> #[trigger] ids@[k] == before[k]);
                assert(forall|k: int| at < k < ids.len() ==> #[trigger] ids@[k] == before[k - 1]);
            }
            assert forall|id: u64| #[trigger] ids@.contains(id) <==> hosted(next, id) by {
                assert(before.contains(id) <==> hosted(front, id));
                if hosted(front, id) {
                    let k = choose|k: int|
                        0 <= k < front.len() && (#[trigger] front[k]).store_id == id;
                    assert(next[k].store_id == id);
                }
                if hosted(next, id) {
                    let k = choose|k: int|
                        0 <= k < next.len() && (#[trigger] next[k]).store_id == id;
                    if k < i {
                        assert(front[k].store_id == id);
                    } else {
                        assert(id == sid);
                    }
                }
                if id == sid {
                    assert(next[i as int].store_id == id);
                    assert(ids@[at as int] == id);
                }
                if before.contains(id) {
                    let k = before.index_of(id);
                    if !known {
                        if k < at {
                            assert(ids@[k] == id);
                        } else {
                            assert(ids@[k + 1] == before[k]);
                        }
                    }
                }
                if ids@.contains(id) && id != sid && !known {
                    let k = ids@.index_of(id);
                    if k < at {
                        assert(before[k] == id);
                    } else {
                        assert(before[k - 1] == id);
                    }
                }
            }
        }
        i = i + 1;
    }
    proof {
        assert(reports@.take(i as int) =~= reports@);
    }
    ids
}

/// The stores that nodes host, by ascending id, each as the reports say.
pub fn list_stores(reports: &Vec<NodeStore>) -> (r: Vec<StoreView>)
    ensures
        lists_stores(r@.map_values(|v: StoreView| v.store_id), reports@),
        forall|i: int| 0 <= i < r.len() ==> (#[trigger] r@[i]).sums_up(reports@),
{
    let ids: Vec<u64> = store_ids(reports);
    let mut r: Vec<StoreView> = Vec::new();
    let mut i: usize = 0;
    while i < ids.len()
        invariant
            i <= ids.len(),
            r.len() == i,
            forall|k: int|
                0 <= k < i ==> (#[trigger] r@[k]).sums_up(reports@) && r@[k].store_id == ids@[k],
        decreases ids.len() - i,
    {
        r.push(sum_up(reports, ids[i]));
        i = i + 1;
    }
    proof {
        assert(r@.map_values(|v: StoreView| v.store_id) =~= ids@);
    }
    r
}

/// Whether some node hosts the store.
fn find_store(reports: &Vec<NodeStore>, sid: u64) -> (r: bool)
    ensures
        r == hosted(reports@, sid),
{
    let mut i: usize = 0;
    while i < reports.len()
        invariant
            i <= reports.len(),
            forall|k: int| 0 <= k < i ==> (#[trigger] reports@[k]).store_id != sid,
        decreases reports.len() - i,
    {
        if reports[i].store_id == sid {
            proof {
                assert(reports@[i as int].store_id == sid);
            }
            return true;
        }
        i = i + 1;
    }
    false
}

/// A store across its nodes. A store that no node hosts is refused.
pub fn get_store(reports: &Vec<NodeStore>, sid: u64) -> (r: Result<StoreView, ApiError>)
    ensures
        match r {
            Ok(v) => hosted(reports@, sid) && v.store_id == sid && v.sums_up(reports@),
            Err(e) => !hosted(reports@, sid) && e.says(404, store_unknown(sid)),
        },
{
    if find_store(reports, sid) {
        Ok(sum_up(reports, sid))
    } else {
        Err(no_such_store(sid))
    }
}

/// The groups of a store across its nodes.
pub fn list_groups(reports: &Vec<NodeStore>, sid: u64) -> (r: Result<Vec<GroupSummary>, ApiError>)
    ensures
        match r {
            Ok(groups) => hosted(reports@, sid) && groups@ == tally(mentions(reports@, sid)),
            Err(e) => !hosted(reports@, sid) && e.says(404, store_unknown(sid)),
        },
{
    match get_store(reports, sid) {
        Ok(v) => Ok(v.groups),
        Err(e) => Err(e),
    }
}

/// A node hosts a store.
pub open spec fn hosts(reports: Seq<NodeStore>, node: Seq<char>, sid: u64) -> bool {
    exists|i: int|
        0 <= i < reports.len() && (#[trigger] reports[i]).store_id == sid
            && reports[i].node_id@ == node
}

/// Whether a node hosts a store.
pub fn hosts_store(reports: &Vec<NodeStore>, node: &str, sid: u64) -> (r: bool)
    ensures
        r == hosts(reports@, node@, sid),
{
    let mut i: usize = 0;
    while i < reports.len()
        invariant
            i <= reports.len(),
            forall|k: int|
                0 <= k < i ==> !((#[trigger] reports@[k]).store_id == sid && reports@[k].node_id@
                    == node@),
        decreases reports.len() - i,
    {
        if reports[i].store_id == sid && same_text(reports[i].node_id.as_str(), node) {
            proof {
                assert(reports@[i as int].store_id == sid);
            }
            return true;
        }
        i = i + 1;
    }
    false
}

/// A replica id with the node of the replica.
pub type Placement = (u64, Seq<char>);

/// Where the replicas of a group on one node are.
pub open spec fn placed_on(node: Seq<char>, groups: Seq<NodeGroup>, gid: u64) -> Seq<Placement>
    decreases groups.len(),
{
    if groups.len() == 0 {
        Seq::empty()
    } else if groups.last().group_id == gid {
        placed_on(node, groups.drop_last(), gid).push((groups.last().replica_id, node))
    } else {
        placed_on(node, groups.drop_last(), gid)
    }
}

/// Where the replicas of a group are, in the order of the reports.
pub open spec fn placements(reports: Seq<NodeStore>, sid: u64, gid: u64) -> Seq<Placement>
    decreases reports.len(),
{
    if reports.len() == 0 {
        Seq::empty()
    } else if reports.last().store_id == sid {
        placements(reports.drop_last(), sid, gid) + placed_on(
            reports.last().node_id@,
            reports.last().groups@,
            gid,
        )
    } else {
        placements(reports.drop_last(), sid, gid)
    }
}

/// The replicas of a view as placements.
pub open spec fn placed(replicas: Seq<ReplicaView>) -> Seq<Placement> {
    replicas.map_values(|r: ReplicaView| (r.replica_id, r.node_id@))
}

/// A group across its nodes, if some node has a replica of it.
pub fn resolve_group(reports: &Vec<NodeStore>, sid: u64, gid: u64) -> (r: Option<GroupView>)
    ensures
        match r {
            Some(v) => {
                &&& v.store_id == sid
                &&& v.group_id == gid
                &&& v.replicas.len() > 0
                &&& placed(v.replicas@) == placements(reports@, sid, gid)
            },
            None => placements(reports@, sid, gid).len() == 0,
        },
{
    let mut replicas: Vec<ReplicaView> = Vec::new();
    let mut i: usize = 0;
    proof {
        assert(reports@.take(0) =~= Seq::empty());
        assert(placed(replicas@) =~= Seq::empty());
    }
    while i < reports.len()
        invariant
            i <= reports.len(),
            placed(replicas@) == placements(reports@.take(i as int), sid, gid),
        decreases reports.len() - i,
    {
        proof {
            assert(reports@.take(i + 1).drop_last() =~= reports@.take(i as int));
            assert(reports@.take(i + 1).last() == reports@[i as int]);
        }
        if reports[i].store_id == sid {
            let ghost so_far = placed(replicas@);
            let node: &String = &reports[i].node_id;
            let groups: &Vec<NodeGroup> = &reports[i].groups;
            let mut j: usize = 0;
            proof {
                assert(groups@.take(0) =~= Seq::empty());
                assert(so_far + placed_on(node@, groups@.take(0), gid) =~= so_far);
            }
            while j < groups.len()
                invariant
                    j <= groups.len(),
                    placed(replicas@) == so_far + placed_on(node@, groups@.take(j as int), gid),
                decreases groups.len() - j,
            {
                proof {
                    assert(groups@.take(j + 1).drop_last() =~= groups@.take(j as int));
                    assert(groups@.take(j + 1).last() == groups@[j as int]);
                }
                if groups[j].group_id == gid {
                    let ghost before = replicas@;
                    replicas.push(
                        ReplicaView { replica_id: groups[j].replica_id, node_id: node.clone() },
                    );
                    proof {
                        assert(placed(replicas@) =~= placed(before).push(
                            (groups@[j as int].replica_id, node@),
                        ));
                        assert(placed(replicas@) =~= so_far + placed_on(
                            node@,
                            groups@.take(j + 1),
                            gid,
                        ));
                    }
                }
                j = j + 1;
            }
            proof {
                assert(groups@.take(j as int) =~= groups@);
            }
        }
        i = i + 1;
    }
    proof {
        assert(reports@.take(i as int) =~= reports@);
        assert(placed(replicas@).len() == replicas.len());
    }
    if replicas.is_empty() {
        None
    } else {
        Some(GroupView { store_id: sid, group_id: gid, replicas })
    }
}

/// A group across its nodes. A group without replicas is refused.
pub fn get_group(reports: &Vec<NodeStore>, sid: u64, gid: u64) -> (r: Result<GroupView, ApiError>)
    ensures
        match r {
            Ok(v) => {
                &&& v.store_id == sid
                &&& v.group_id == gid
                &&& v.replicas.len() > 0
                &&& placed(v.replicas@) == placements(reports@, sid, gid)
            },
            Err(e) => placements(reports@, sid, gid).len() == 0 && e.says(
                404,
                group_unknown(gid, sid),
            ),
        },
{
    match resolve_group(reports, sid, gid) {
        Some(v) => Ok(v),
        None => Err(no_such_group(gid, sid)),
    }
}

/// The replicas of a group across its nodes.
pub fn list_replicas(reports: &Vec<NodeStore>, sid: u64, gid: u64) -> (r: Result<
    Vec<ReplicaView>,
    ApiError,
>)
    ensures
        match r {
            Ok(v) => v.len() > 0 && placed(v@) == placements(reports@, sid, gid),
            Err(e) => placements(reports@, sid, gid).len() == 0 && e.says(
                404,
                group_unknown(gid, sid),
            ),
        },
{
    match get_group(reports, sid, gid) {
        Ok(v) => Ok(v.replicas),
        Err(e) => Err(e),
    }
}

/// The node is known to answer.
pub open spec fn is_up(records: Seq<NodeRecord>, node: Seq<char>) -> bool {
    health_of(records, node) == NodeHealth::Up
}

/// What is known of a node's health: the last record counts.
pub open spec fn health_of(records: Seq<NodeRecord>, node: Seq<char>) -> NodeHealth
    decreases records.len(),
{
    if records.len() == 0 {
        NodeHealth::Unknown
    } else if records.last().node_id@ == node {
        records.last().health
    } else {
        health_of(records.drop_last(), node)
    }
}

/// The record of a node, if there is one.
pub fn find_record<'a>(records: &'a Vec<NodeRecord>, node: &str) -> (r: Option<&'a NodeRecord>)
    ensures
        match r {
            Some(rec) => rec.node_id@ == node@ && rec.health == health_of(records@, node@)
                && records@.contains(*rec),
            None => health_of(records@, node@) == NodeHealth::Unknown && forall|k: int|
                0 <= k < records.len() ==> (#[trigger] records@[k]).node_id@ != node@,
        },
{
    let mut i: usize = records.len();
    proof {
        assert(records@.take(i as int) =~= records@);
    }
    while i > 0
        invariant
            i <= records.len(),
            health_of(records@, node@) == health_of(records@.take(i as int), node@),
            forall|k: int| i <= k < records.len() ==> (#[trigger] records@[k]).node_id@ != node@,
        decreases i,
    {
        i = i - 1;
        proof {
            assert(records@.take(i + 1).drop_last() =~= records@.take(i as int));
            assert(records@.take(i + 1).last() == records@[i as int]);
        }
        if same_text(records[i].node_id.as_str(), node) {
            return Some(&records[i]);
        }
    }
    None
}

/// Where the leader of a group is: the first leader that is named, if it is one
/// of the replicas; or else the first replica whose node answers.
pub open spec fn leader_at(
    reports: Seq<NodeStore>,
    records: Seq<NodeRecord>,
    sid: u64,
    gid: u64,
    i: int,
) -> bool {
    let all = placements(reports, sid, gid);
    let hint = first_hint(mentions(reports, sid), gid);
    &&& 0 <= i < all.len()
    &&& if names_one(all, hint) {
        &&& hint == Some(all[i].0)
        &&& forall|k: int| 0 <= k < i ==> hint != Some((#[trigger] all[k]).0)
    } else {
        &&& is_up(records, all[i].1)
        &&& forall|k: int| 0 <= k < i ==> !is_up(records, (#[trigger] all[k]).1)
    }
}

/// The hint names one of the replicas.
pub open spec fn names_one(all: Seq<Placement>, hint: Option<u64>) -> bool {
    exists|k: int| 0 <= k < all.len() && hint == Some((#[trigger] all[k]).0)
}

fn hint_for(groups: &Vec<GroupSummary>, gid: u64) -> (h: Option<u64>)
    ensures
        forall|all: Seq<NodeGroup>| groups@ == #[trigger] tally(all) ==> h == first_hint(all, gid),
{
    let mut i: usize = 0;
    while i < groups.len()
        invariant
            i <= groups.len(),
            forall|k: int| 0 <= k < i ==> (#[trigger] groups@[k]).group_id != gid,
        decreases groups.len() - i,
    {
        if groups[i].group_id == gid {
            proof {
                assert forall|all: Seq<NodeGroup>| groups@ == #[trigger] tally(all) implies groups@[
                i as int].leader == first_hint(all, gid) by {
                    assert(groups@[i as int].group_id == groups_mentioned(all)[i as int]);
                }
            }
            return groups[i].leader;
        }
        i = i + 1;
    }
    proof {
        assert forall|all: Seq<NodeGroup>| groups@ == #[trigger] tally(all) implies first_hint(
            all,
            gid,
        ) is None by {
            lemma_mentions_bounded(all, gid);
            if groups_mentioned(all).contains(gid) {
                let k = groups_mentioned(all).index_of(gid);
                assert(groups@[k].group_id == gid);
            }
        }
    }
    None
}

/// The replica that leads a group, as far as is known, with its node.
pub fn leader_for(reports: &Vec<NodeStore>, records: &Vec<NodeRecord>, sid: u64, gid: u64) -> (r:
    Option<ReplicaView>)
    ensures
        match r {
            Some(v) => exists|i: int| #[trigger]
                leader_at(reports@, records@, sid, gid, i) && placements(reports@, sid, gid)[i] == (
                    v.replica_id,
                    v.node_id@,
                ),
            None => forall|i: int| !(#[trigger] leader_at(reports@, records@, sid, gid, i)),
        },
{
    let ghost all = placements(reports@, sid, gid);
    let ghost hint = first_hint(mentions(reports@, sid), gid);
    let v: GroupView = match resolve_group(reports, sid, gid) {
        Some(v) => v,
        None => {
            return None;
        },
    };
    let named: Option<u64> = hint_for(&sum_up(reports, sid).groups, gid);
    proof {
        assert(all.len() == v.replicas.len());
        assert(forall|k: int|
            0 <= k < all.len() ==> #[trigger] all[k] == (
                v.replicas@[k].replica_id,
                v.replicas@[k].node_id@,
            ));
    }
    let mut i: usize = 0;
    while i < v.replicas.len()
        invariant
            i <= v.replicas.len(),
            all == placements(reports@, sid, gid),
            hint == first_hint(mentions(reports@, sid), gid),
            named == hint,
            all.len() == v.replicas.len(),
            forall|k: int|
                0 <= k < all.len() ==> #[trigger] all[k] == (
                    v.replicas@[k].replica_id,
                    v.replicas@[k].node_id@,
                ),
            forall|k: int| 0 <= k < i ==> hint != Some((#[trigger] all[k]).0),
        decreases v.replicas.len() - i,
    {
        if let Some(l) = named {
            if l == v.replicas[i].replica_id {
                proof {
                    assert(hint == Some(all[i as int].0));
                    assert(leader_at(reports@, records@, sid, gid, i as int));
                }
                return Some(
                    ReplicaView {
                        replica_id: v.replicas[i].replica_id,
                        node_id: v.replicas[i].node_id.clone(),
                    },
                );
            }
        }
        i = i + 1;
    }
    proof {
        assert(!names_one(all, hint));
    }
    let mut j: usize = 0;
    while j < v.replicas.len()
        invariant
            j <= v.replicas.len(),
            all == placements(reports@, sid, gid),
            hint == first_hint(mentions(reports@, sid), gid),
            !names_one(all, hint),
            all.len() == v.replicas.len(),
            forall|k: int|
                0 <= k < all.len() ==> #[trigger] all[k] == (
                    v.replicas@[k].replica_id,
                    v.replicas@[k].node_id@,
                ),
            forall|k: int| 0 <= k < j ==> !is_up(records@, (#[trigger] all[k]).1),
        decreases v.replicas.len() - j,
    {
        let up = match find_record(records, v.replicas[j].node_id.as_str()) {
            Some(rec) => rec.health == NodeHealth::Up,
            None => false,
        };
        if up {
            proof {
                assert(is_up(records@, all[j as int].1));
                assert(leader_at(reports@, records@, sid, gid, j as int));
            }
            return Some(
                ReplicaView {
                    replica_id: v.replicas[j].replica_id,
                    node_id: v.replicas[j].node_id.clone(),
                },
            );
        }
        j = j + 1;
    }
    None
}

// ── Laws of reports ──────────────────────────────────────────────
/// A store lists each of its groups once, and a group has as many replicas there
/// as nodes mention it.
pub proof fn groups_are_listed_once(all: Seq<NodeGroup>, i: int, j: int)
    requires
        0 <= i < tally(all).len(),
        0 <= j < tally(all).len(),
        all.len() <= usize::MAX,
    ensures
        tally(all)[i].group_id == tally(all)[j].group_id ==> i == j,
        tally(all)[i].replica_count == times_mentioned(all, tally(all)[i].group_id),
        tally(all)[i].replica_count > 0,
{
    lemma_groups_distinct(all);
    lemma_mentions_bounded(all, tally(all)[i].group_id);
    assert(groups_mentioned(all)[i] == tally(all)[i].group_id);
    assert(groups_mentioned(all)[j] == tally(all)[j].group_id);
    assert(groups_mentioned(all).contains(tally(all)[i].group_id));
}

/// A group has as many replicas in the view of its store as in its own view.
pub proof fn views_agree_on_replicas(reports: Seq<NodeStore>, sid: u64, gid: u64)
    ensures
        placements(reports, sid, gid).len() == times_mentioned(mentions(reports, sid), gid),
    decreases reports.len(),
{
    if reports.len() > 0 {
        views_agree_on_replicas(reports.drop_last(), sid, gid);
        let last = reports.last();
        lemma_placed_on_len(last.node_id@, last.groups@, gid);
        lemma_mentions_add(mentions(reports.drop_last(), sid), last.groups@, gid);
    }
}

proof fn lemma_placed_on_len(node: Seq<char>, groups: Seq<NodeGroup>, gid: u64)
    ensures
        placed_on(node, groups, gid).len() == times_mentioned(groups, gid),
    decreases groups.len(),
{
    if groups.len() > 0 {
        lemma_placed_on_len(node, groups.drop_last(), gid);
    }
}

proof fn lemma_mentions_add(a: Seq<NodeGroup>, b: Seq<NodeGroup>, gid: u64)
    ensures
        times_mentioned(a + b, gid) == times_mentioned(a, gid) + times_mentioned(b, gid),
    decreases b.len(),
{
    if b.len() == 0 {
        assert(a + b =~= a);
    } else {
        lemma_mentions_add(a, b.drop_last(), gid);
        assert((a + b).drop_last() =~= a + b.drop_last());
    }
}

/// A store lists the nodes that host it, in the order of their reports.
pub proof fn store_lists_its_nodes(reports: Seq<NodeStore>, sid: u64)
    ensures
        nodes_hosting(reports, sid) == reports.filter(
            |r: NodeStore| r.store_id == sid,
        ).map_values(|r: NodeStore| r.node_id@),
    decreases reports.len(),
{
    reveal(Seq::filter);
    let right = reports.filter(|r: NodeStore| r.store_id == sid).map_values(
        |r: NodeStore| r.node_id@,
    );
    if reports.len() > 0 {
        store_lists_its_nodes(reports.drop_last(), sid);
        assert(nodes_hosting(reports, sid) =~= right);
    } else {
        assert(nodes_hosting(reports, sid) =~= right);
    }
}

/// The groups of a store are those that its reports name, report after report.
pub proof fn store_lists_what_its_nodes_mention(reports: Seq<NodeStore>, sid: u64)
    ensures
        mentions(reports, sid) == reports.filter(|r: NodeStore| r.store_id == sid).map_values(
            |r: NodeStore| r.groups@,
        ).flatten(),
    decreases reports.len(),
{
    reveal(Seq::filter);
    let p = |r: NodeStore| r.store_id == sid;
    let f = |r: NodeStore| r.groups@;
    let all = reports.filter(p).map_values(f);
    all.lemma_flatten_and_flatten_alt_are_equivalent();
    if reports.len() > 0 {
        let front = reports.drop_last();
        let before = front.filter(p).map_values(f);
        before.lemma_flatten_and_flatten_alt_are_equivalent();
        store_lists_what_its_nodes_mention(front, sid);
        if p(reports.last()) {
            assert(all =~= before.push(f(reports.last())));
            assert(all.drop_last() =~= before);
        }
    } else {
        assert(all.len() == 0);
    }
}

/// A group is mentioned as often as there are reports of it.
pub proof fn every_mention_is_counted(all: Seq<NodeGroup>, gid: u64)
    ensures
        times_mentioned(all, gid) == all.filter(|g: NodeGroup| g.group_id == gid).len(),
    decreases all.len(),
{
    reveal(Seq::filter);
    if all.len() > 0 {
        every_mention_is_counted(all.drop_last(), gid);
    }
}

/// The leader of a group is the first that is named for it, and none is known
/// exactly if nobody names one.
pub proof fn first_named_leader_counts(all: Seq<NodeGroup>, gid: u64)
    ensures
        match first_hint(all, gid) {
            Some(l) => exists|i: int|
                0 <= i < all.len() && (#[trigger] all[i]).group_id == gid && all[i].leader_hint
                    == Some(l) && forall|j: int|
                    0 <= j < i && (#[trigger] all[j]).group_id == gid ==> all[j].leader_hint is None,
            None => forall|i: int|
                0 <= i < all.len() && (#[trigger] all[i]).group_id == gid
                    ==> all[i].leader_hint is None,
        },
    decreases all.len(),
{
    if all.len() > 0 {
        let front = all.drop_last();
        first_named_leader_counts(front, gid);
        assert(all[all.len() - 1] == all.last());
        assert forall|i: int| 0 <= i < front.len() implies front[i] == #[trigger] all[i] by {}
        if let Some(l) = first_hint(front, gid) {
            let i = choose|i: int|
                0 <= i < front.len() && (#[trigger] front[i]).group_id == gid
                    && front[i].leader_hint == Some(l) && forall|j: int|
                    0 <= j < i && (#[trigger] front[j]).group_id == gid
                        ==> front[j].leader_hint is None;
            assert(all[i].group_id == gid);
            assert forall|j: int| 0 <= j < i && (#[trigger] all[j]).group_id
                == gid implies all[j].leader_hint is None by {
                assert(front[j].group_id == gid);
            }
        } else {
            assert forall|j: int| 0 <= j < front.len() && (#[trigger] all[j]).group_id
                == gid implies all[j].leader_hint is None by {
                assert(front[j].group_id == gid);
            }
        }
    }
}

/// A store lists exactly the groups that are mentioned, in the order in which
/// they first are: what more reports bring comes behind.
pub proof fn groups_are_listed_as_first_mentioned(all: Seq<NodeGroup>, more: Seq<NodeGroup>)
    ensures
        forall|gid: u64| #[trigger]
            groups_mentioned(all).contains(gid) <==> exists|i: int|
                0 <= i < all.len() && (#[trigger] all[i]).group_id == gid,
        groups_mentioned(all).is_prefix_of(groups_mentioned(all + more)),
    decreases all.len() + more.len(),
{
    assert forall|gid: u64| #[trigger]
        groups_mentioned(all).contains(gid) <==> exists|i: int|
            0 <= i < all.len() && (#[trigger] all[i]).group_id == gid by {
        lemma_mentions_bounded(all, gid);
        every_mention_is_counted(all, gid);
        let p = |g: NodeGroup| g.group_id == gid;
        let found = all.filter(p);
        if found.len() > 0 {
            all.lemma_filter_pred(p, 0);
            all.lemma_filter_contains_rev(p, found[0]);
            let i = choose|i: int| 0 <= i < all.len() && all[i] == found[0];
            assert(all[i].group_id == gid);
        }
        if exists|i: int| 0 <= i < all.len() && (#[trigger] all[i]).group_id == gid {
            let i = choose|i: int| 0 <= i < all.len() && (#[trigger] all[i]).group_id == gid;
            all.lemma_filter_contains(p, i);
        }
    }
    if more.len() == 0 {
        assert(all + more =~= all);
    } else {
        let front = more.drop_last();
        groups_are_listed_as_first_mentioned(all, front);
        assert((all + more).drop_last() =~= all + front);
    }
}

proof fn lemma_placed_on(node: Seq<char>, groups: Seq<NodeGroup>, gid: u64)
    ensures
        placed_on(node, groups, gid) == groups.filter(|g: NodeGroup| g.group_id == gid).map_values(
            |g: NodeGroup| (g.replica_id, node),
        ),
    decreases groups.len(),
{
    reveal(Seq::filter);
    let right = groups.filter(|g: NodeGroup| g.group_id == gid).map_values(
        |g: NodeGroup| (g.replica_id, node),
    );
    if groups.len() > 0 {
        lemma_placed_on(node, groups.drop_last(), gid);
    }
    assert(placed_on(node, groups, gid) =~= right);
}

/// A group has a replica on every node that mentions it for its store, with the
/// id that the node gives it, in the order of the reports, and no others.
pub proof fn replicas_are_where_nodes_report_them(reports: Seq<NodeStore>, sid: u64, gid: u64)
    ensures
        placements(reports, sid, gid) == reports.filter(
            |r: NodeStore| r.store_id == sid,
        ).map_values(
            |r: NodeStore|
                r.groups@.filter(|g: NodeGroup| g.group_id == gid).map_values(
                    |g: NodeGroup| (g.replica_id, r.node_id@),
                ),
        ).flatten(),
    decreases reports.len(),
{
    reveal(Seq::filter);
    let p = |r: NodeStore| r.store_id == sid;
    let f = |r: NodeStore|
        r.groups@.filter(|g: NodeGroup| g.group_id == gid).map_values(
            |g: NodeGroup| (g.replica_id, r.node_id@),
        );
    let all = reports.filter(p).map_values(f);
    all.lemma_flatten_and_flatten_alt_are_equivalent();
    if reports.len() > 0 {
        let front = reports.drop_last();
        let before = front.filter(p).map_values(f);
        before.lemma_flatten_and_flatten_alt_are_equivalent();
        replicas_are_where_nodes_report_them(front, sid, gid);
        let last = reports.last();
        if p(last) {
            assert(all =~= before.push(f(last)));
            assert(all.drop_last() =~= before);
            lemma_placed_on(last.node_id@, last.groups@, gid);
            assert(placed_on(last.node_id@, last.groups@, gid) =~= f(last));
        }
    } else {
        assert(all.len() == 0);
    }
}

/// The last record of a node tells its health; without one it is unknown.
pub proof fn last_record_tells_the_health(records: Seq<NodeRecord>, node: Seq<char>)
    ensures
        (exists|i: int|
            0 <= i < records.len() && (#[trigger] records[i]).node_id@ == node && records[i].health
                == health_of(records, node) && forall|j: int|
                i < j < records.len() ==> (#[trigger] records[j]).node_id@ != node) || (
        health_of(records, node) == NodeHealth::Unknown && forall|i: int|
            0 <= i < records.len() ==> (#[trigger] records[i]).node_id@ != node),
    decreases records.len(),
{
    if records.len() > 0 {
        let front = records.drop_last();
        assert(records[records.len() - 1] == records.last());
        assert forall|i: int| 0 <= i < front.len() implies front[i] == #[trigger] records[i] by {}
        if records.last().node_id@ != node {
            last_record_tells_the_health(front, node);
            if exists|i: int|
                0 <= i < front.len() && (#[trigger] front[i]).node_id@ == node && front[i].health
                    == health_of(front, node) && forall|j: int|
                    i < j < front.len() ==> (#[trigger] front[j]).node_id@ != node {
                let i = choose|i: int|
                    0 <= i < front.len() && (#[trigger] front[i]).node_id@ == node
                        && front[i].health == health_of(front, node) && forall|j: int|
                        i < j < front.len() ==> (#[trigger] front[j]).node_id@ != node;
                assert(records[i].node_id@ == node);
                assert forall|j: int| i < j < records.len() implies (
                #[trigger] records[j]).node_id@ != node by {
                    if j < front.len() {
                        assert(front[j].node_id@ != node);
                    }
                }
            } else {
                assert forall|i: int| 0 <= i < front.len() implies (
                #[trigger] records[i]).node_id@ != node by {
                    assert(front[i].node_id@ != node);
                }
            }
        }
    }
}

/// A group has a leader to turn to exactly if a replica is named as the leader
/// or a replica is on a node that answers; the named one goes first.
pub proof fn leader_is_found_where_one_can_be(
    reports: Seq<NodeStore>,
    records: Seq<NodeRecord>,
    sid: u64,
    gid: u64,
    k: int,
)
    requires
        0 <= k < placements(reports, sid, gid).len(),
    ensures
        ({
            let all = placements(reports, sid, gid);
            let hint = first_hint(mentions(reports, sid), gid);
            &&& hint == Some(all[k].0) || is_up(records, all[k].1) ==> exists|i: int| #[trigger]
                leader_at(reports, records, sid, gid, i)
            &&& hint == Some(all[k].0) ==> forall|i: int| #[trigger]
                leader_at(reports, records, sid, gid, i) ==> all[i].0 == all[k].0
        }),
{
    let all = placements(reports, sid, gid);
    let hint = first_hint(mentions(reports, sid), gid);
    if names_one(all, hint) {
        let m = choose|m: int| 0 <= m < all.len() && hint == Some((#[trigger] all[m]).0);
        let p = |i: int| 0 <= i < all.len() && hint == Some(all[i].0);
        lemma_least(p, m);
        let i = choose|i: int| 0 <= i <= m && #[trigger] is_least(p, i);
        assert forall|j: int| 0 <= j < i implies hint != Some((#[trigger] all[j]).0) by {
            assert(!p(j));
        }
        assert(leader_at(reports, records, sid, gid, i));
    } else if is_up(records, all[k].1) {
        let p = |i: int| 0 <= i < all.len() && is_up(records, all[i].1);
        lemma_least(p, k);
        let i = choose|i: int| 0 <= i <= k && #[trigger] is_least(p, i);
        assert forall|j: int| 0 <= j < i implies !is_up(records, (#[trigger] all[j]).1) by {
            assert(!p(j));
        }
        assert(leader_at(reports, records, sid, gid, i));
    }
}

/// `i` is the least number from `0` on for which `p` holds.
spec fn is_least(p: spec_fn(int) -> bool, i: int) -> bool {
    p(i) && forall|j: int| 0 <= j < i ==> !#[trigger] p(j)
}

proof fn lemma_least(p: spec_fn(int) -> bool, n: int)
    requires
        0 <= n,
        p(n),
    ensures
        exists|i: int| 0 <= i <= n && #[trigger] is_least(p, i),
    decreases n,
{
    if exists|j: int| 0 <= j < n && #[trigger] p(j) {
        let j = choose|j: int| 0 <= j < n && #[trigger] p(j);
        lemma_least(p, j);
        let i = choose|i: int| 0 <= i <= j && #[trigger] is_least(p, i);
        assert(is_least(p, i));
    } else {
        assert(is_least(p, n));
    }
}

/// Where no replica is named as the leader, the one to turn to is the first whose
/// node answers.
pub proof fn first_answering_replica_is_turned_to(
    reports: Seq<NodeStore>,
    records: Seq<NodeRecord>,
    sid: u64,
    gid: u64,
    i: int,
    k: int,
)
    requires
        leader_at(reports, records, sid, gid, i),
        forall|j: int|
            0 <= j < placements(reports, sid, gid).len() ==> first_hint(
                mentions(reports, sid),
                gid,
            ) != Some((#[trigger] placements(reports, sid, gid)[j]).0),
        0 <= k < placements(reports, sid, gid).len(),
        health_of(records, placements(reports, sid, gid)[k].1) == NodeHealth::Up,
    ensures
        i <= k,
        health_of(records, placements(reports, sid, gid)[i].1) == NodeHealth::Up,
{
    let all = placements(reports, sid, gid);
    if k < i {
        assert(!is_up(records, all[k].1));
    }
}

} // verus!
