//! Adding a replica to a group and removing one.
//!
//! A new replica is created on its node, then every replica that can be reached
//! is told of it, and then it is told of all of them. Where telling fails, those
//! that were told forget it again and it is removed from its node.

use crate::cluster::info::RemoteReplicaInfo;
use crate::common::api::ApiError;
use crate::common::text::{concat2, concat3, dec, decimal};
use crate::console::config::{about, ConsoleConfig, ServerEntry};
use crate::console::mgmt::{
    call_views, group_unknown, no_such_group, no_such_replica, replica_unknown, AddReplicaBody,
    GroupView, ReplicaView,
};
use crate::console::plan::{
    call_at, call_to, endpoint_of, find_url, grpc_endpoint_for_node, look_up, make_call,
    make_call_at, mgmt_url_for_node, node_in, node_views, reply_views, url_of, Call, CallView,
    PlanNode, PlanNodeView, Request, RequestView, Step,
};
use crate::server::rebuild::{peers_view, PeerView};
use vstd::prelude::*;

verus! {

/// The highest id of a replica, `0` if there are none.
pub open spec fn highest_replica(replicas: Seq<ReplicaView>) -> u64
    decreases replicas.len(),
{
    if replicas.len() == 0 {
        0
    } else {
        let front = highest_replica(replicas.drop_last());
        if replicas.last().replica_id > front {
            replicas.last().replica_id
        } else {
            front
        }
    }
}

/// There is a replica with this id.
pub open spec fn has_replica(replicas: Seq<ReplicaView>, rid: u64) -> bool {
    exists|i: int| 0 <= i < replicas.len() && (#[trigger] replicas[i]).replica_id == rid
}

/// The first replica with this id is at `i`.
pub open spec fn replica_at(replicas: Seq<ReplicaView>, rid: u64, i: int) -> bool {
    &&& 0 <= i < replicas.len()
    &&& replicas[i].replica_id == rid
    &&& forall|k: int| 0 <= k < i ==> (#[trigger] replicas[k]).replica_id != rid
}

fn highest(replicas: &Vec<ReplicaView>) -> (m: u64)
    ensures
        m == highest_replica(replicas@),
{
    let mut m: u64 = 0;
    let mut i: usize = 0;
    proof {
        assert(replicas@.take(0) =~= Seq::empty());
    }
    while i < replicas.len()
        invariant
            i <= replicas.len(),
            m == highest_replica(replicas@.take(i as int)),
        decreases replicas.len() - i,
    {
        proof {
            assert(replicas@.take(i + 1).drop_last() =~= replicas@.take(i as int));
            assert(replicas@.take(i + 1).last() == replicas@[i as int]);
        }
        if replicas[i].replica_id > m {
            m = replicas[i].replica_id;
        }
        i = i + 1;
    }
    proof {
        assert(replicas@.take(i as int) =~= replicas@);
    }
    m
}

fn find_replica(replicas: &Vec<ReplicaView>, rid: u64) -> (r: Option<usize>)
    ensures
        match r {
            Some(i) => replica_at(replicas@, rid, i as int),
            None => !has_replica(replicas@, rid),
        },
{
    let mut i: usize = 0;
    while i < replicas.len()
        invariant
            i <= replicas.len(),
            forall|k: int| 0 <= k < i ==> (#[trigger] replicas@[k]).replica_id != rid,
        decreases replicas.len() - i,
    {
        if replicas[i].replica_id == rid {
            return Some(i);
        }
        i = i + 1;
    }
    None
}

/// The node of a replica of a group.
pub fn get_replica(view: Option<&GroupView>, sid: u64, gid: u64, rid: u64) -> (r: Result<
    ReplicaView,
    ApiError,
>)
    ensures
        match (r, view) {
            (Err(e), None) => e.says(404, group_unknown(gid, sid)),
            (Ok(_), None) => false,
            (Ok(x), Some(v)) => exists|i: int| #[trigger]
                replica_at(v.replicas@, rid, i) && x == v.replicas@[i],
            (Err(e), Some(v)) => !has_replica(v.replicas@, rid) && e.says(
                404,
                replica_unknown(rid, gid),
            ),
        },
{
    let v: &GroupView = match view {
        Some(v) => v,
        None => {
            return Err(no_such_group(gid, sid));
        },
    };
    match find_replica(&v.replicas, rid) {
        Some(i) => {
            proof {
                assert(replica_at(v.replicas@, rid, i as int));
            }
            Ok(ReplicaView { replica_id: rid, node_id: v.replicas[i].node_id.clone() })
        },
        None => Err(no_such_replica(rid, gid)),
    }
}

/// The id of a new replica: the one asked for, or one above all in use. It must
/// not be in use.
pub fn new_replica_id(view: Option<&GroupView>, sid: u64, gid: u64, body: &AddReplicaBody) -> (r:
    Result<u64, ApiError>)
    requires
        body.replica_id is None ==> (view matches Some(v) ==> highest_replica(v.replicas@)
            < u64::MAX),
    ensures
        match view {
            None => r matches Err(e) && e.says(404, group_unknown(gid, sid)),
            Some(v) => {
                let rid = match body.replica_id {
                    Some(id) => id,
                    None => (highest_replica(v.replicas@) + 1) as u64,
                };
                match r {
                    Ok(id) => id == rid && !has_replica(v.replicas@, rid),
                    Err(e) => has_replica(v.replicas@, rid) && e.says(
                        409,
                        "replica "@ + dec(rid as nat) + " already exists in group "@ + dec(
                            gid as nat,
                        ),
                    ),
                }
            },
        },
{
    let v: &GroupView = match view {
        Some(v) => v,
        None => {
            return Err(no_such_group(gid, sid));
        },
    };
    let rid: u64 = match body.replica_id {
        Some(id) => id,
        None => highest(&v.replicas) + 1,
    };
    match find_replica(&v.replicas, rid) {
        Some(i) => {
            proof {
                assert(v.replicas@[i as int].replica_id == rid);
            }
            let r: String = decimal(rid);
            let g: String = decimal(gid);
            let front: String = concat3("replica ", r.as_str(), " already exists in group ");
            Err(ApiError { status: 409, error: concat2(front.as_str(), g.as_str()) })
        },
        None => Ok(rid),
    }
}

/// The nodes of those replicas that have a server.
pub open spec fn reachable(servers: Seq<ServerEntry>, replicas: Seq<ReplicaView>) -> Seq<
    PlanNodeView,
>
    decreases replicas.len(),
{
    if replicas.len() == 0 {
        Seq::empty()
    } else {
        let front = reachable(servers, replicas.drop_last());
        let node = node_in(servers, replicas.last().node_id@);
        if node.url is Some {
            front.push(node)
        } else {
            front
        }
    }
}

/// Replicas as peers.
pub open spec fn as_peers(servers: Seq<ServerEntry>, replicas: Seq<ReplicaView>) -> Seq<PeerView> {
    replicas.map_values(|r: ReplicaView| (r.replica_id, endpoint_of(servers, r.node_id@)))
}

fn reachable_nodes(cfg: &ConsoleConfig, replicas: &Vec<ReplicaView>) -> (r: Vec<PlanNode>)
    ensures
        node_views(r@) == reachable(cfg.servers@, replicas@),
        r.len() <= replicas.len(),
        forall|i: int| 0 <= i < r.len() ==> (#[trigger] r@[i])@.url is Some,
{
    let mut r: Vec<PlanNode> = Vec::new();
    let mut i: usize = 0;
    proof {
        assert(replicas@.take(0) =~= Seq::empty());
        assert(node_views(r@) =~= Seq::empty());
    }
    while i < replicas.len()
        invariant
            i <= replicas.len(),
            r.len() <= i,
            node_views(r@) == reachable(cfg.servers@, replicas@.take(i as int)),
            forall|k: int| 0 <= k < r.len() ==> (#[trigger] r@[k])@.url is Some,
        decreases replicas.len() - i,
    {
        proof {
            assert(replicas@.take(i + 1).drop_last() =~= replicas@.take(i as int));
            assert(replicas@.take(i + 1).last() == replicas@[i as int]);
        }
        let node = look_up(cfg, replicas[i].node_id.as_str());
        if node.url.is_some() {
            let ghost before = r@;
            let ghost view = node@;
            r.push(node);
            proof {
                assert(node_views(r@) =~= node_views(before).push(view));
            }
        }
        i = i + 1;
    }
    proof {
        assert(replicas@.take(i as int) =~= replicas@);
    }
    r
}

fn replica_peers(cfg: &ConsoleConfig, replicas: &Vec<ReplicaView>) -> (r: Vec<RemoteReplicaInfo>)
    ensures
        peers_view(r@) == as_peers(cfg.servers@, replicas@),
{
    let mut r: Vec<RemoteReplicaInfo> = Vec::new();
    let mut i: usize = 0;
    while i < replicas.len()
        invariant
            i <= replicas.len(),
            r.len() == i,
            forall|k: int|
                0 <= k < i ==> (#[trigger] r@[k]).replica_id == replicas@[k].replica_id
                    && r@[k].endpoint@ == endpoint_of(cfg.servers@, replicas@[k].node_id@),
        decreases replicas.len() - i,
    {
        r.push(
            RemoteReplicaInfo {
                replica_id: replicas[i].replica_id,
                endpoint: grpc_endpoint_for_node(cfg, replicas[i].node_id.as_str()),
            },
        );
        i = i + 1;
    }
    proof {
        assert(peers_view(r@) =~= as_peers(cfg.servers@, replicas@));
    }
    r
}

/// How far adding a replica has come.
#[derive(Clone, Copy, Debug, PartialEq, Eq, Structural)]
pub enum ReplicaPhase {
    /// The replica is to be created on its node.
    Create,
    CreateFailed,
    /// This peer is to be told of the new replica; behind the last peer the new
    /// replica is to be told of all of them.
    Wire(usize),
    Complete,
    /// Telling failed here.
    Failed(usize),
}

/// The first error among the replies to `total` tellings, which begin behind
/// the first reply, from the telling `i` on.
pub open spec fn telling_error(
    replies: Seq<Option<Seq<char>>>,
    total: int,
    i: int,
) -> Option<usize>
    decreases total - i,
{
    if i >= total || i + 1 >= replies.len() || i < 0 {
        None
    } else if replies[i + 1] is Some {
        Some(i as usize)
    } else {
        telling_error(replies, total, i + 1)
    }
}

/// How far adding a replica has come, by the replies, where `total` tellings are
/// needed.
pub open spec fn replica_phase(replies: Seq<Option<Seq<char>>>, total: int) -> ReplicaPhase {
    if replies.len() == 0 {
        ReplicaPhase::Create
    } else if replies[0] is Some {
        ReplicaPhase::CreateFailed
    } else {
        match telling_error(replies, total, 0) {
            Some(j) => ReplicaPhase::Failed(j),
            None => if replies.len() - 1 < total {
                ReplicaPhase::Wire((replies.len() - 1) as usize)
            } else {
                ReplicaPhase::Complete
            },
        }
    }
}

fn phase_of(replies: &Vec<Option<String>>, total: usize) -> (p: ReplicaPhase)
    requires
        total < usize::MAX,
    ensures
        p == replica_phase(reply_views(replies@), total as int),
{
    let ghost views = reply_views(replies@);
    proof {
        assert(forall|k: int|
            0 <= k < replies.len() ==> (#[trigger] views[k] is Some) == (replies@[k] is Some));
    }
    if replies.len() == 0 {
        return ReplicaPhase::Create;
    }
    proof {
        assert(views[0] is Some == replies@[0] is Some);
    }
    if replies[0].is_some() {
        return ReplicaPhase::CreateFailed;
    }
    let mut i: usize = 0;
    while i < total && i + 1 < replies.len()
        invariant
            i <= total < usize::MAX,
            views == reply_views(replies@),
            replies.len() > 0,
            views[0] is None,
            i < replies.len(),
            telling_error(views, total as int, 0) == telling_error(views, total as int, i as int),
        decreases total - i,
    {
        proof {
            assert(views[i + 1] is Some == replies@[i + 1] is Some);
        }
        if replies[i + 1].is_some() {
            return ReplicaPhase::Failed(i);
        }
        i = i + 1;
    }
    if replies.len() - 1 < total {
        ReplicaPhase::Wire(replies.len() - 1)
    } else {
        ReplicaPhase::Complete
    }
}

/// What stays of a failed addition on its own node: the store that was created
/// for the replica, or else the group.
pub open spec fn target_removal(sid: u64, gid: u64, had_store: bool) -> RequestView {
    if had_store {
        RequestView::RemoveGroup { store_id: sid, group_id: gid }
    } else {
        RequestView::RemoveStore { store_id: sid }
    }
}

/// The creation of a replica on its node, with its store where that is not there
/// yet.
pub open spec fn target_creation(sid: u64, gid: u64, rid: u64, had_store: bool) -> RequestView {
    if had_store {
        RequestView::AddGroup { store_id: sid, group_id: gid, replica_id: rid }
    } else {
        RequestView::AddStore { store_id: sid, group_id: gid, replica_id: rid }
    }
}

/// The text of a failed step.
pub open spec fn failed_at(front: Seq<char>, node: Seq<char>, reply: Option<Seq<char>>) -> Seq<char> {
    front + node + ": "@ + match reply {
        Some(r) => r,
        None => Seq::empty(),
    }
}

/// The addition of a replica to a group.
#[derive(Debug)]
pub struct ReplicaPlan {
    pub store_id: u64,
    pub group_id: u64,
    pub replica_id: u64,
    /// The node of the new replica.
    pub target: PlanNode,
    /// The node hosted the store before.
    pub had_store: bool,
    /// The nodes of the replicas that can be told of the new one.
    pub peers: Vec<PlanNode>,
    /// All replicas that the group had.
    pub remotes: Vec<RemoteReplicaInfo>,
}

impl ReplicaPlan {
    /// Every node that the plan speaks to has a server, and there is nobody to
    /// tell in a group without replicas.
    pub open spec fn wf(&self) -> bool {
        &&& self.target@.url is Some
        &&& forall|i: int| 0 <= i < self.peers.len() ==> (#[trigger] self.peers@[i])@.url is Some
        &&& self.remotes.len() == 0 ==> self.peers.len() == 0
        &&& self.peers.len() < usize::MAX - 1
    }

    /// Number of tellings: the peers of the new replica, and then it of all
    /// replicas that the group had.
    pub open spec fn tellings(&self) -> int {
        if self.remotes.len() == 0 {
            0
        } else {
            self.peers.len() + 1
        }
    }

    /// The call that creates the replica.
    pub open spec fn creation(&self) -> CallView {
        call_at(
            self.target@,
            target_creation(self.store_id, self.group_id, self.replica_id, self.had_store),
        )
    }

    /// The telling `j`.
    pub open spec fn telling(&self, j: int) -> CallView {
        if j < self.peers.len() {
            call_at(
                self.peers@[j]@,
                RequestView::AddRemotes {
                    store_id: self.store_id,
                    group_id: self.group_id,
                    remotes: seq![(self.replica_id, self.target@.endpoint)],
                },
            )
        } else {
            call_at(
                self.target@,
                RequestView::AddRemotes {
                    store_id: self.store_id,
                    group_id: self.group_id,
                    remotes: peers_view(self.remotes@),
                },
            )
        }
    }

    /// The calls that undo the creation and the first `told` tellings: every peer
    /// that was told forgets the replica, and then its node removes what was
    /// created there.
    pub open spec fn undoing(&self, told: int) -> Seq<CallView> {
        Seq::new(
            (told + 1) as nat,
            |u: int|
                if u < told {
                    call_at(
                        self.peers@[u]@,
                        RequestView::RemoveRemote {
                            store_id: self.store_id,
                            group_id: self.group_id,
                            replica_id: self.replica_id,
                        },
                    )
                } else {
                    call_at(
                        self.target@,
                        target_removal(self.store_id, self.group_id, self.had_store),
                    )
                },
        )
    }
}

/// `step` is the next step of adding a replica, behind `replies`.
pub open spec fn addition_step(
    plan: ReplicaPlan,
    replies: Seq<Option<Seq<char>>>,
    step: Step,
) -> bool {
    match replica_phase(replies, plan.tellings()) {
        ReplicaPhase::Create => step matches Step::Call(c) && c@ == plan.creation(),
        ReplicaPhase::CreateFailed => step matches Step::Refused(e) && e.says(
            502,
            failed_at(
                if plan.had_store {
                    "create local group on node "@
                } else {
                    "create local store on node "@
                },
                plan.target@.node_id,
                replies[0],
            ),
        ),
        ReplicaPhase::Wire(j) => step matches Step::Call(c) && c@ == plan.telling(j as int),
        ReplicaPhase::Complete => step is Done,
        ReplicaPhase::Failed(j) => {
            let undone = replies.len() - (j + 2);
            if undone <= j {
                step matches Step::Call(c) && c@ == plan.undoing(j as int)[undone]
            } else {
                step matches Step::Refused(e) && e.says(
                    502,
                    if j < plan.peers.len() {
                        failed_at(
                            "wire new replica on peer "@,
                            plan.peers@[j as int]@.node_id,
                            replies[j + 1],
                        )
                    } else {
                        failed_at("wire existing peers on new replica"@, ""@, replies[j + 1])
                    },
                )
            }
        },
    }
}

fn refused_at(front: &str, node: &str, reply: &Option<String>) -> (e: ApiError)
    ensures
        e.says(
            502,
            failed_at(
                front@,
                node@,
                match *reply {
                    Some(r) => Some(r@),
                    None => None,
                },
            ),
        ),
{
    let head: String = concat3(front, node, ": ");
    match reply {
        Some(r) => ApiError { status: 502, error: concat2(head.as_str(), r.as_str()) },
        None => {
            proof {
                assert(head@ + Seq::<char>::empty() =~= head@);
            }
            ApiError { status: 502, error: head }
        },
    }
}

proof fn lemma_telling_error(replies: Seq<Option<Seq<char>>>, total: int, i: int)
    requires
        0 <= i <= total < usize::MAX,
    ensures
        match telling_error(replies, total, i) {
            Some(j) => {
                &&& i <= j < total
                &&& j + 1 < replies.len()
                &&& replies[j + 1] is Some
                &&& forall|k: int| i <= k < j ==> (#[trigger] replies[k + 1]) is None
            },
            None => forall|k: int|
                i <= k < total && k + 1 < replies.len() ==> (#[trigger] replies[k + 1]) is None,
        },
    decreases total - i,
{
    if i < total && i + 1 < replies.len() && replies[i + 1] is None {
        lemma_telling_error(replies, total, i + 1);
    }
}

/// Begin to add the replica `rid` on `target` to a group. `had_store` tells
/// whether its node hosts the store. The node must have a server.
pub fn plan_replica(
    cfg: &ConsoleConfig,
    view: &GroupView,
    sid: u64,
    gid: u64,
    rid: u64,
    target: &str,
    had_store: bool,
) -> (r: Result<ReplicaPlan, ApiError>)
    requires
        view.replicas.len() < usize::MAX - 1,
    ensures
        match r {
            Ok(plan) => {
                &&& plan.wf()
                &&& plan.store_id == sid
                &&& plan.group_id == gid
                &&& plan.replica_id == rid
                &&& plan.target@ == node_in(cfg.servers@, target@)
                &&& plan.had_store == had_store
                &&& node_views(plan.peers@) == reachable(cfg.servers@, view.replicas@)
                &&& peers_view(plan.remotes@) == as_peers(cfg.servers@, view.replicas@)
            },
            Err(e) => url_of(cfg.servers@, target@) is None && e.says(
                502,
                about("node "@, target@, " has no deployed server"@),
            ),
        },
{
    if let Err(e) = mgmt_url_for_node(cfg, target) {
        return Err(e);
    }
    let peers: Vec<PlanNode> = reachable_nodes(cfg, &view.replicas);
    let remotes: Vec<RemoteReplicaInfo> = replica_peers(cfg, &view.replicas);
    proof {
        assert(peers_view(remotes@).len() == view.replicas@.len());
    }
    Ok(
        ReplicaPlan {
            store_id: sid,
            group_id: gid,
            replica_id: rid,
            target: look_up(cfg, target),
            had_store,
            peers,
            remotes,
        },
    )
}

fn copy_peers(peers: &Vec<RemoteReplicaInfo>) -> (r: Vec<RemoteReplicaInfo>)
    ensures
        peers_view(r@) == peers_view(peers@),
{
    let mut r: Vec<RemoteReplicaInfo> = Vec::new();
    let mut i: usize = 0;
    while i < peers.len()
        invariant
            i <= peers.len(),
            r.len() == i,
            forall|k: int|
                0 <= k < i ==> (#[trigger] r@[k]).replica_id == peers@[k].replica_id
                    && r@[k].endpoint@ == peers@[k].endpoint@,
        decreases peers.len() - i,
    {
        r.push(
            RemoteReplicaInfo {
                replica_id: peers[i].replica_id,
                endpoint: peers[i].endpoint.clone(),
            },
        );
        i = i + 1;
    }
    proof {
        assert(peers_view(r@) =~= peers_view(peers@));
    }
    r
}

/// The next step of adding a replica.
pub fn next_replica_step(plan: &ReplicaPlan, replies: &Vec<Option<String>>) -> (step: Step)
    requires
        plan.wf(),
    ensures
        addition_step(*plan, reply_views(replies@), step),
{
    let (sid, gid, rid): (u64, u64, u64) = (plan.store_id, plan.group_id, plan.replica_id);
    let target = &plan.target;
    let peers = &plan.peers;
    let ghost views = reply_views(replies@);
    let total: usize = if plan.remotes.is_empty() {
        0
    } else {
        peers.len() + 1
    };
    proof {
        assert(forall|k: int|
            0 <= k < replies.len() ==> #[trigger] views[k] == match replies@[k] {
                Some(r) => Some(r@),
                None => None,
            });
        lemma_telling_error(views, total as int, 0);
    }
    match phase_of(replies, total) {
        ReplicaPhase::Create => Step::Call(
            make_call_at(
                target,
                if plan.had_store {
                    Request::AddGroup { store_id: sid, group_id: gid, replica_id: rid }
                } else {
                    Request::AddStore { store_id: sid, group_id: gid, replica_id: rid }
                },
            ),
        ),
        ReplicaPhase::CreateFailed => Step::Refused(
            refused_at(
                if plan.had_store {
                    "create local group on node "
                } else {
                    "create local store on node "
                },
                target.node_id.as_str(),
                &replies[0],
            ),
        ),
        ReplicaPhase::Wire(j) => if j < peers.len() {
            let mut remotes: Vec<RemoteReplicaInfo> = Vec::new();
            remotes.push(
                RemoteReplicaInfo { replica_id: rid, endpoint: target.endpoint.clone() },
            );
            proof {
                assert(peers_view(remotes@) =~= seq![(rid, target@.endpoint)]);
            }
            Step::Call(
                make_call_at(
                    &peers[j],
                    Request::AddRemotes { store_id: sid, group_id: gid, remotes },
                ),
            )
        } else {
            let remotes = copy_peers(&plan.remotes);
            Step::Call(
                make_call_at(
                    target,
                    Request::AddRemotes { store_id: sid, group_id: gid, remotes },
                ),
            )
        },
        ReplicaPhase::Complete => Step::Done,
        ReplicaPhase::Failed(j) => {
            let undone: usize = replies.len() - 2 - j;
            if undone < j {
                Step::Call(
                    make_call_at(
                        &peers[undone],
                        Request::RemoveRemote { store_id: sid, group_id: gid, replica_id: rid },
                    ),
                )
            } else if undone == j {
                Step::Call(
                    make_call_at(
                        target,
                        if plan.had_store {
                            Request::RemoveGroup { store_id: sid, group_id: gid }
                        } else {
                            Request::RemoveStore { store_id: sid }
                        },
                    ),
                )
            } else if j < peers.len() {
                Step::Refused(
                    refused_at(
                        "wire new replica on peer ",
                        peers[j].node_id.as_str(),
                        &replies[j + 1],
                    ),
                )
            } else {
                Step::Refused(
                    refused_at("wire existing peers on new replica", "", &replies[j + 1]),
                )
            }
        },
    }
}

/// The calls that remove a replica: every other replica that can be reached
/// forgets it, and then its node removes the group.
pub open spec fn forgetting(
    servers: Seq<ServerEntry>,
    replicas: Seq<ReplicaView>,
    request: RequestView,
    rid: u64,
) -> Seq<CallView>
    decreases replicas.len(),
{
    if replicas.len() == 0 {
        Seq::empty()
    } else {
        let front = forgetting(servers, replicas.drop_last(), request, rid);
        let last = replicas.last();
        if last.replica_id != rid && url_of(servers, last.node_id@) is Some {
            front.push(call_to(servers, last.node_id@, request))
        } else {
            front
        }
    }
}

/// The calls that remove a replica from its group.
pub fn remove_replica_calls(
    cfg: &ConsoleConfig,
    view: Option<&GroupView>,
    sid: u64,
    gid: u64,
    rid: u64,
) -> (r: Result<Vec<Call>, ApiError>)
    ensures
        match (r, view) {
            (Err(e), None) => e.says(404, group_unknown(gid, sid)),
            (Ok(_), None) => false,
            (Err(e), Some(v)) => !has_replica(v.replicas@, rid) && e.says(
                404,
                replica_unknown(rid, gid),
            ),
            (Ok(calls), Some(v)) => exists|i: int| #[trigger]
                replica_at(v.replicas@, rid, i) && ({
                    let node = v.replicas@[i].node_id@;
                    let told = forgetting(
                        cfg.servers@,
                        v.replicas@,
                        RequestView::RemoveRemote {
                            store_id: sid,
                            group_id: gid,
                            replica_id: rid,
                        },
                        rid,
                    );
                    call_views(calls@) == if url_of(cfg.servers@, node) is Some {
                        told.push(
                            call_to(
                                cfg.servers@,
                                node,
                                RequestView::RemoveGroup { store_id: sid, group_id: gid },
                            ),
                        )
                    } else {
                        told
                    }
                }),
        },
{
    let v: &GroupView = match view {
        Some(v) => v,
        None => {
            return Err(no_such_group(gid, sid));
        },
    };
    let at: usize = match find_replica(&v.replicas, rid) {
        Some(i) => i,
        None => {
            return Err(no_such_replica(rid, gid));
        },
    };
    let ghost request = RequestView::RemoveRemote { store_id: sid, group_id: gid, replica_id: rid };
    let ghost all = v.replicas@;
    let mut calls: Vec<Call> = Vec::new();
    let mut i: usize = 0;
    proof {
        assert(all.take(0) =~= Seq::empty());
        assert(call_views(calls@) =~= Seq::empty());
    }
    while i < v.replicas.len()
        invariant
            i <= v.replicas.len(),
            all == v.replicas@,
            request == (RequestView::RemoveRemote {
                store_id: sid,
                group_id: gid,
                replica_id: rid,
            }),
            call_views(calls@) == forgetting(cfg.servers@, all.take(i as int), request, rid),
        decreases v.replicas.len() - i,
    {
        proof {
            assert(all.take(i + 1).drop_last() =~= all.take(i as int));
            assert(all.take(i + 1).last() == all[i as int]);
        }
        if v.replicas[i].replica_id != rid && find_url(
            cfg,
            v.replicas[i].node_id.as_str(),
        ).is_some() {
            let ghost before = calls@;
            let c = make_call(
                cfg,
                v.replicas[i].node_id.as_str(),
                Request::RemoveRemote { store_id: sid, group_id: gid, replica_id: rid },
            );
            let ghost made = c@;
            calls.push(c);
            proof {
                assert(call_views(calls@) =~= call_views(before).push(made));
            }
        }
        i = i + 1;
    }
    proof {
        assert(all.take(i as int) =~= all);
        assert(replica_at(all, rid, at as int));
    }
    if find_url(cfg, v.replicas[at].node_id.as_str()).is_some() {
        let ghost before = calls@;
        let c = make_call(
            cfg,
            v.replicas[at].node_id.as_str(),
            Request::RemoveGroup { store_id: sid, group_id: gid },
        );
        let ghost made = c@;
        calls.push(c);
        proof {
            assert(call_views(calls@) =~= call_views(before).push(made));
        }
    }
    Ok(calls)
}

/// The calls that remove a group from the nodes of its replicas.
pub open spec fn group_removal(
    servers: Seq<ServerEntry>,
    replicas: Seq<ReplicaView>,
    request: RequestView,
) -> Seq<CallView>
    decreases replicas.len(),
{
    if replicas.len() == 0 {
        Seq::empty()
    } else {
        let front = group_removal(servers, replicas.drop_last(), request);
        if url_of(servers, replicas.last().node_id@) is Some {
            front.push(call_to(servers, replicas.last().node_id@, request))
        } else {
            front
        }
    }
}

/// The calls that remove a group from the nodes of its replicas.
pub fn remove_group_calls(cfg: &ConsoleConfig, view: Option<&GroupView>, sid: u64, gid: u64) -> (r:
    Result<Vec<Call>, ApiError>)
    ensures
        match (r, view) {
            (Err(e), None) => e.says(404, group_unknown(gid, sid)),
            (Ok(calls), Some(v)) => call_views(calls@) == group_removal(
                cfg.servers@,
                v.replicas@,
                RequestView::RemoveGroup { store_id: sid, group_id: gid },
            ),
            _ => false,
        },
{
    let v: &GroupView = match view {
        Some(v) => v,
        None => {
            return Err(no_such_group(gid, sid));
        },
    };
    let ghost request = RequestView::RemoveGroup { store_id: sid, group_id: gid };
    let ghost all = v.replicas@;
    let mut calls: Vec<Call> = Vec::new();
    let mut i: usize = 0;
    proof {
        assert(all.take(0) =~= Seq::empty());
        assert(call_views(calls@) =~= Seq::empty());
    }
    while i < v.replicas.len()
        invariant
            i <= v.replicas.len(),
            all == v.replicas@,
            request == (RequestView::RemoveGroup { store_id: sid, group_id: gid }),
            call_views(calls@) == group_removal(cfg.servers@, all.take(i as int), request),
        decreases v.replicas.len() - i,
    {
        proof {
            assert(all.take(i + 1).drop_last() =~= all.take(i as int));
            assert(all.take(i + 1).last() == all[i as int]);
        }
        if find_url(cfg, v.replicas[i].node_id.as_str()).is_some() {
            let ghost before = calls@;
            let c = make_call(
                cfg,
                v.replicas[i].node_id.as_str(),
                Request::RemoveGroup { store_id: sid, group_id: gid },
            );
            let ghost made = c@;
            calls.push(c);
            proof {
                assert(call_views(calls@) =~= call_views(before).push(made));
            }
        }
        i = i + 1;
    }
    proof {
        assert(all.take(i as int) =~= all);
    }
    Ok(calls)
}

// ── Laws of replicas ─────────────────────────────────────────────
/// An id that is given to a new replica is one above all in use, so it is not
/// in use.
pub proof fn next_replica_id_is_unused(replicas: Seq<ReplicaView>, i: int)
    requires
        0 <= i < replicas.len(),
    ensures
        replicas[i].replica_id < highest_replica(replicas) + 1,
    decreases replicas.len(),
{
    if i < replicas.len() - 1 {
        next_replica_id_is_unused(replicas.drop_last(), i);
    }
}

/// Where telling fails, the replica was created, and exactly the peers before
/// the failure were told of it: these are the ones that forget it again.
pub proof fn failed_addition_forgets_what_was_told(replies: Seq<Option<Seq<char>>>, total: int)
    requires
        0 <= total < usize::MAX,
    ensures
        replica_phase(replies, total) matches ReplicaPhase::Failed(j) ==> {
            &&& j < total
            &&& j + 1 < replies.len()
            &&& replies[0] is None
            &&& forall|k: int| 0 <= k < j ==> (#[trigger] replies[k + 1]) is None
            &&& replies[j + 1] is Some
        },
        replica_phase(replies, total) is Complete ==> {
            &&& replies.len() > total
            &&& replies[0] is None
            &&& forall|k: int| 0 <= k < total ==> (#[trigger] replies[k + 1]) is None
        },
{
    lemma_telling_error(replies, total, 0);
}

proof fn lemma_failure_stays(
    replies: Seq<Option<Seq<char>>>,
    total: int,
    i: int,
    reply: Option<Seq<char>>,
)
    requires
        0 <= i <= total,
        telling_error(replies, total, i) is Some,
    ensures
        telling_error(replies.push(reply), total, i) == telling_error(replies, total, i),
    decreases total - i,
{
    if i < total && i + 1 < replies.len() {
        assert(replies.push(reply)[i + 1] == replies[i + 1]);
        if replies[i + 1] is None {
            lemma_failure_stays(replies, total, i + 1, reply);
        }
    }
}

/// Where a telling fails, whoever was told of the replica forgets it, in the
/// order of telling, and then its node removes the store that was created for
/// it, or else the group; only behind all these calls is the addition refused,
/// and whatever they bring, it stays a failure.
pub proof fn failed_addition_is_undone(
    plan: ReplicaPlan,
    replies: Seq<Option<Seq<char>>>,
    step: Step,
    reply: Option<Seq<char>>,
)
    requires
        plan.wf(),
        addition_step(plan, replies, step),
        replica_phase(replies, plan.tellings()) is Failed,
    ensures
        replica_phase(replies, plan.tellings()) matches ReplicaPhase::Failed(j) && {
            let undone = replies.len() - (j + 2);
            let calls = plan.undoing(j as int);
            &&& j <= plan.peers.len()
            &&& undone >= 0
            &&& calls.len() == j + 1
            &&& calls.last() == call_at(
                plan.target@,
                target_removal(plan.store_id, plan.group_id, plan.had_store),
            )
            &&& forall|u: int|
                0 <= u < j ==> #[trigger] calls[u] == call_at(
                    plan.peers@[u]@,
                    RequestView::RemoveRemote {
                        store_id: plan.store_id,
                        group_id: plan.group_id,
                        replica_id: plan.replica_id,
                    },
                )
            &&& if undone < calls.len() {
                step matches Step::Call(c) && c@ == calls[undone]
            } else {
                step is Refused
            }
            &&& replica_phase(replies.push(reply), plan.tellings()) == ReplicaPhase::Failed(j)
        },
{
    let total = plan.tellings();
    failed_addition_forgets_what_was_told(replies, total);
    lemma_failure_stays(replies, total, 0, reply);
    assert(replies.push(reply)[0] == replies[0]);
}

/// A replica that is added is told of every replica that the group had, and
/// every reachable one of them is told of it: a peer that is reachable is among
/// those to tell.
pub proof fn every_reachable_peer_is_told(
    servers: Seq<ServerEntry>,
    existing: Seq<ReplicaView>,
    i: int,
)
    requires
        0 <= i < existing.len(),
    ensures
        as_peers(servers, existing)[i] == (
            existing[i].replica_id,
            endpoint_of(servers, existing[i].node_id@),
        ),
        url_of(servers, existing[i].node_id@) is Some ==> reachable(servers, existing).contains(
            node_in(servers, existing[i].node_id@),
        ),
    decreases existing.len(),
{
    let node = node_in(servers, existing[i].node_id@);
    if node.url is Some {
        let all = reachable(servers, existing);
        let front = reachable(servers, existing.drop_last());
        if i < existing.len() - 1 {
            every_reachable_peer_is_told(servers, existing.drop_last(), i);
            let k = front.index_of(node);
            assert(all[k] == front[k]);
        } else {
            assert(all[all.len() - 1] == node);
        }
    }
}

/// The nodes to tell of a replica are those of the other replicas that have a
/// server, in their order.
pub proof fn peers_with_a_server_are_told(servers: Seq<ServerEntry>, replicas: Seq<ReplicaView>)
    ensures
        reachable(servers, replicas) == replicas.filter(|r: ReplicaView| url_of(servers, r.node_id@) is Some).map_values(
            |r: ReplicaView| node_in(servers, r.node_id@),
        ),
    decreases replicas.len(),
{
    reveal(Seq::filter);
    if replicas.len() > 0 {
        peers_with_a_server_are_told(servers, replicas.drop_last());
    }
    assert(reachable(servers, replicas) =~= replicas.filter(|r: ReplicaView| url_of(servers, r.node_id@) is Some).map_values(
        |r: ReplicaView| node_in(servers, r.node_id@),
    ));
}

/// A group is removed from every node of its replicas that has a server, in
/// their order.
pub proof fn group_is_removed_from_its_nodes(servers: Seq<ServerEntry>, replicas: Seq<ReplicaView>, request: RequestView)
    ensures
        group_removal(servers, replicas, request) == replicas.filter(|r: ReplicaView| url_of(servers, r.node_id@) is Some).map_values(
            |r: ReplicaView| call_to(servers, r.node_id@, request),
        ),
    decreases replicas.len(),
{
    reveal(Seq::filter);
    if replicas.len() > 0 {
        group_is_removed_from_its_nodes(servers, replicas.drop_last(), request);
    }
    assert(group_removal(servers, replicas, request) =~= replicas.filter(|r: ReplicaView| url_of(servers, r.node_id@) is Some).map_values(
        |r: ReplicaView| call_to(servers, r.node_id@, request),
    ));
}

/// How far adding a replica has come is read off the replies: nothing was
/// answered yet, the creation failed, the peers are being told one by one, or
/// all of them were told.
pub proof fn addition_goes_on_while_nothing_fails(
    replies: Seq<Option<Seq<char>>>,
    total: int,
)
    requires
        0 <= total < usize::MAX,
    ensures
        replica_phase(replies, total) is Create <==> replies.len() == 0,
        replica_phase(replies, total) is CreateFailed <==> replies.len() > 0 && replies[0] is Some,
        replies.len() > 0 && (forall|k: int|
            0 <= k < replies.len() && k <= total ==> (#[trigger] replies[k]) is None) ==> {
            &&& replies.len() - 1 < total ==> replica_phase(replies, total) == ReplicaPhase::Wire(
                (replies.len() - 1) as usize,
            )
            &&& replies.len() - 1 >= total ==> replica_phase(replies, total) is Complete
        },
{
    lemma_telling_error(replies, total, 0);
}

/// The highest replica id is that of a replica, where there is one with an id
/// above `0`.
pub proof fn highest_replica_is_one(replicas: Seq<ReplicaView>)
    ensures
        highest_replica(replicas) == 0 || has_replica(replicas, highest_replica(replicas)),
    decreases replicas.len(),
{
    if replicas.len() > 0 {
        let front = replicas.drop_last();
        highest_replica_is_one(front);
        assert(replicas[replicas.len() - 1] == replicas.last());
        if highest_replica(replicas) == highest_replica(front) && highest_replica(front) != 0 {
            let i = choose|i: int|
                0 <= i < front.len() && (#[trigger] front[i]).replica_id == highest_replica(front);
            assert(replicas[i].replica_id == highest_replica(replicas));
        }
    }
}

/// A replica is forgotten by every other replica whose node has a server, in
/// their order.
pub proof fn removed_replica_is_forgotten_by_the_others(
    servers: Seq<ServerEntry>,
    replicas: Seq<ReplicaView>,
    request: RequestView,
    rid: u64,
)
    ensures
        forgetting(servers, replicas, request, rid) == replicas.filter(
            |r: ReplicaView| r.replica_id != rid && url_of(servers, r.node_id@) is Some,
        ).map_values(|r: ReplicaView| call_to(servers, r.node_id@, request)),
    decreases replicas.len(),
{
    reveal(Seq::filter);
    if replicas.len() > 0 {
        removed_replica_is_forgotten_by_the_others(servers, replicas.drop_last(), request, rid);
    }
    assert(forgetting(servers, replicas, request, rid) =~= replicas.filter(
        |r: ReplicaView| r.replica_id != rid && url_of(servers, r.node_id@) is Some,
    ).map_values(|r: ReplicaView| call_to(servers, r.node_id@, request)));
}

/// As long as nothing fails, adding a replica to a group with others creates it
/// on its node, then tells each reachable peer where the new replica is, then
/// tells the new replica of all replicas that the group had, and is done.
pub proof fn addition_takes_its_steps_in_order(
    plan: ReplicaPlan,
    replies: Seq<Option<Seq<char>>>,
    step: Step,
)
    requires
        plan.wf(),
        plan.remotes.len() > 0,
        forall|k: int| 0 <= k < replies.len() ==> (#[trigger] replies[k]) is None,
        addition_step(plan, replies, step),
    ensures
        ({
            let n = replies.len() as int;
            let peers = plan.peers.len() as int;
            &&& n == 0 ==> (step matches Step::Call(c) && c@.node_id == plan.target@.node_id
                && c@.request == target_creation(
                plan.store_id,
                plan.group_id,
                plan.replica_id,
                plan.had_store,
            ))
            &&& 1 <= n <= peers ==> (step matches Step::Call(c) && c@.node_id
                == plan.peers@[n - 1]@.node_id && c@.request == (RequestView::AddRemotes {
                store_id: plan.store_id,
                group_id: plan.group_id,
                remotes: seq![(plan.replica_id, plan.target@.endpoint)],
            }))
            &&& n == peers + 1 ==> (step matches Step::Call(c) && c@.node_id
                == plan.target@.node_id && c@.request == (RequestView::AddRemotes {
                store_id: plan.store_id,
                group_id: plan.group_id,
                remotes: peers_view(plan.remotes@),
            }))
            &&& n > peers + 1 ==> step is Done
        }),
{
    addition_goes_on_while_nothing_fails(replies, plan.tellings());
}

} // verus!
