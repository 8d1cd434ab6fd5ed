//! Stores, groups and replicas across nodes: what the reports of the nodes add
//! up to, and changes that involve several nodes.

use crate::cluster::info::RemoteReplicaInfo;
use crate::common::api::ApiError;
use crate::common::text::{concat2, concat3, dec, decimal, texts};
use crate::console::config::{ConsoleConfig, ServerEntry};
use crate::console::plan::{
    call_at, call_to, failure_follows_success_on_all_earlier_nodes, fan_error, fan_from, fan_out,
    fan_refusal, find_url, look_up_all, make_call, make_call_at, node_views, nodes_in, reply_views,
    url_of, urls_of, Call, CallView, FanPhase, PlanNode, PlanNodeView, Request, RequestView, Step,
};
use crate::server::rebuild::{peers_view, PeerView};
use vstd::prelude::*;

verus! {

/// A request for a store on several nodes.
#[derive(Debug)]
pub struct CreateStoreBody {
    pub store_id: u64,
    pub group_id: u64,
    pub replica_id: u64,
    /// The first node with a server, if there are none.
    pub nodes: Vec<String>,
}

/// A request for a group on several nodes.
#[derive(Debug)]
pub struct CreateGroupBody {
    pub group_id: u64,
    /// Id of the replica on the first node; those on the others follow it.
    pub replica_id: u64,
    pub nodes: Vec<String>,
}

/// A request for one more replica of a group.
#[derive(Debug)]
pub struct AddReplicaBody {
    pub node_id: String,
    /// The highest id in use plus one, if there is none.
    pub replica_id: Option<u64>,
}

/// A replica of a group with its node.
#[derive(Debug)]
pub struct ReplicaView {
    pub replica_id: u64,
    pub node_id: String,
}

/// A group across its nodes.
#[derive(Debug)]
pub struct GroupView {
    pub store_id: u64,
    pub group_id: u64,
    pub replicas: Vec<ReplicaView>,
}

/// Error of a request for a store that no node hosts.
pub open spec fn store_unknown(sid: u64) -> Seq<char> {
    "store "@ + dec(sid as nat) + " not found"@
}

/// Error of a request for a group that no node hosts.
pub open spec fn group_unknown(gid: u64, sid: u64) -> Seq<char> {
    "group "@ + dec(gid as nat) + " in store "@ + dec(sid as nat) + " not found"@
}

/// Error of a request for a replica that a group does not have.
pub open spec fn replica_unknown(rid: u64, gid: u64) -> Seq<char> {
    "replica "@ + dec(rid as nat) + " not found in group "@ + dec(gid as nat)
}

/// The error for a store that no node hosts.
pub fn no_such_store(sid: u64) -> (e: ApiError)
    ensures
        e.says(404, store_unknown(sid)),
{
    let s: String = decimal(sid);
    ApiError { status: 404, error: concat3("store ", s.as_str(), " not found") }
}

/// The error for a group that no node hosts.
pub fn no_such_group(gid: u64, sid: u64) -> (e: ApiError)
    ensures
        e.says(404, group_unknown(gid, sid)),
{
    let g: String = decimal(gid);
    let s: String = decimal(sid);
    let front: String = concat3("group ", g.as_str(), " in store ");
    ApiError { status: 404, error: concat3(front.as_str(), s.as_str(), " not found") }
}

/// The error for a replica that a group does not have.
pub fn no_such_replica(rid: u64, gid: u64) -> (e: ApiError)
    ensures
        e.says(404, replica_unknown(rid, gid)),
{
    let r: String = decimal(rid);
    let g: String = decimal(gid);
    let front: String = concat3("replica ", r.as_str(), " not found in group ");
    ApiError { status: 404, error: concat2(front.as_str(), g.as_str()) }
}

// ── Stores ───────────────────────────────────────────────────────
/// The first node with a server.
pub open spec fn first_host(servers: Seq<ServerEntry>) -> Option<String>
    decreases servers.len(),
{
    if servers.len() == 0 {
        None
    } else if servers[0].node_id is Some {
        servers[0].node_id
    } else {
        first_host(servers.drop_first())
    }
}

/// The nodes that a store is created on: those of the request, or the first one
/// with a server.
pub fn store_targets(cfg: &ConsoleConfig, nodes: &Vec<String>) -> (r: Result<Vec<String>, ApiError>)
    ensures
        if nodes.len() > 0 {
            r matches Ok(t) && t@ == nodes@
        } else {
            match (r, first_host(cfg.servers@)) {
                (Ok(t), Some(n)) => t@ == seq![n],
                (Err(e), None) => e.says(400, "no nodes with deployed servers"@),
                _ => false,
            }
        },
{
    if !nodes.is_empty() {
        return Ok(copy_nodes(nodes));
    }
    let ghost all = cfg.servers@;
    let mut i: usize = 0;
    proof {
        assert(all.skip(0) =~= all);
    }
    while i < cfg.servers.len()
        invariant
            i <= cfg.servers.len(),
            nodes.len() == 0,
            all == cfg.servers@,
            first_host(all) == first_host(all.skip(i as int)),
        decreases cfg.servers.len() - i,
    {
        proof {
            assert(all.skip(i as int)[0] == all[i as int]);
            assert(all.skip(i as int).drop_first() =~= all.skip(i + 1));
        }
        if let Some(n) = &cfg.servers[i].node_id {
            let mut t: Vec<String> = Vec::new();
            t.push(n.clone());
            proof {
                assert(t@ =~= seq![*n]);
            }
            return Ok(t);
        }
        i = i + 1;
    }
    Err(ApiError { status: 400, error: "no nodes with deployed servers".to_owned() })
}

fn copy_nodes(nodes: &Vec<String>) -> (r: Vec<String>)
    ensures
        r@ == nodes@,
{
    let mut r: Vec<String> = Vec::new();
    let mut i: usize = 0;
    while i < nodes.len()
        invariant
            i <= nodes.len(),
            r@ == nodes@.take(i as int),
        decreases nodes.len() - i,
    {
        r.push(nodes[i].clone());
        proof {
            assert(nodes@.take(i + 1) =~= nodes@.take(i as int).push(nodes@[i as int]));
        }
        i = i + 1;
    }
    proof {
        assert(nodes@.take(i as int) =~= nodes@);
    }
    r
}

/// The step of creating something on every node that the replies lead to: the
/// next creation, or the next undoing where a creation failed.
pub open spec fn creation_step(
    nodes: Seq<PlanNodeView>,
    replies: Seq<Option<Seq<char>>>,
    what: Seq<char>,
    create: spec_fn(int) -> RequestView,
    undo: RequestView,
    step: Step,
) -> bool {
    match fan_from(urls_of(nodes), replies, 0) {
        FanPhase::Doing(i) => step matches Step::Call(c) && c@ == call_at(
            nodes[i as int],
            create(i as int),
        ),
        FanPhase::Complete => true,
        FanPhase::Failed { at, calls } => if replies.len() - calls < at {
            step matches Step::Call(c) && c@ == call_at(nodes[replies.len() - calls], undo)
        } else {
            step matches Step::Refused(e) && fan_error(
                e,
                what,
                nodes[at as int],
                replies[at as int],
            )
        },
    }
}

/// The creation of a store on several nodes.
#[derive(Debug)]
pub struct StorePlan {
    pub store_id: u64,
    pub group_id: u64,
    pub replica_id: u64,
    pub nodes: Vec<PlanNode>,
}

/// Begin to create a store on `nodes`.
pub fn plan_store(cfg: &ConsoleConfig, body: &CreateStoreBody, nodes: &Vec<String>) -> (plan:
    StorePlan)
    ensures
        plan.store_id == body.store_id,
        plan.group_id == body.group_id,
        plan.replica_id == body.replica_id,
        node_views(plan.nodes@) == nodes_in(cfg.servers@, nodes@),
        plan.nodes.len() == nodes.len(),
{
    StorePlan {
        store_id: body.store_id,
        group_id: body.group_id,
        replica_id: body.replica_id,
        nodes: look_up_all(cfg, nodes),
    }
}

/// The next step of creating a store. Where one node fails, the store is removed
/// from those before it.
pub fn next_store_step(plan: &StorePlan, replies: &Vec<Option<String>>) -> (step: Step)
    requires
        plan.nodes.len() < usize::MAX,
    ensures
        creation_step(
            node_views(plan.nodes@),
            reply_views(replies@),
            "store create"@,
            |i: int|
                RequestView::AddStore {
                    store_id: plan.store_id,
                    group_id: plan.group_id,
                    replica_id: plan.replica_id,
                },
            RequestView::RemoveStore { store_id: plan.store_id },
            step,
        ),
        fan_from(urls_of(node_views(plan.nodes@)), reply_views(replies@), 0) is Complete
            ==> step is Done,
{
    let nodes = &plan.nodes;
    let ghost urls = urls_of(node_views(nodes@));
    let ghost views = reply_views(replies@);
    proof {
        failure_follows_success_on_all_earlier_nodes(urls, views);
        assert(forall|k: int| 0 <= k < nodes.len() ==> #[trigger] urls[k] == nodes@[k]@.url);
    }
    match fan_out(nodes, replies) {
        FanPhase::Doing(i) => Step::Call(
            make_call_at(
                &nodes[i],
                Request::AddStore {
                    store_id: plan.store_id,
                    group_id: plan.group_id,
                    replica_id: plan.replica_id,
                },
            ),
        ),
        FanPhase::Complete => Step::Done,
        FanPhase::Failed { at, calls } => {
            let undone: usize = replies.len() - calls;
            if undone < at {
                proof {
                    assert(urls[undone as int] is Some);
                }
                Step::Call(
                    make_call_at(&nodes[undone], Request::RemoveStore { store_id: plan.store_id }),
                )
            } else {
                proof {
                    assert(urls[at as int] == nodes@[at as int]@.url);
                }
                Step::Refused(fan_refusal("store create", nodes, at, replies))
            }
        },
    }
}

/// The calls that remove a store from its nodes, as far as they have servers.
pub open spec fn store_removal(
    servers: Seq<ServerEntry>,
    nodes: Seq<Seq<char>>,
    request: RequestView,
) -> Seq<CallView>
    decreases nodes.len(),
{
    if nodes.len() == 0 {
        Seq::empty()
    } else {
        let front = store_removal(servers, nodes.drop_last(), request);
        if url_of(servers, nodes.last()) is Some {
            front.push(call_to(servers, nodes.last(), request))
        } else {
            front
        }
    }
}

/// What calls say.
pub open spec fn call_views(calls: Seq<Call>) -> Seq<CallView> {
    calls.map_values(|c: Call| c@)
}

/// The calls that remove a store from its nodes.
pub fn remove_store_calls(cfg: &ConsoleConfig, sid: u64, nodes: &Vec<String>) -> (calls: Vec<Call>)
    ensures
        call_views(calls@) == store_removal(
            cfg.servers@,
            texts(nodes@),
            RequestView::RemoveStore { store_id: sid },
        ),
{
    let ghost request = RequestView::RemoveStore { store_id: sid };
    let ghost names = texts(nodes@);
    let mut calls: Vec<Call> = Vec::new();
    let mut i: usize = 0;
    proof {
        assert(names.take(0) =~= Seq::empty());
        assert(call_views(calls@) =~= Seq::empty());
    }
    while i < nodes.len()
        invariant
            i <= nodes.len(),
            names == texts(nodes@),
            request == (RequestView::RemoveStore { store_id: sid }),
            call_views(calls@) == store_removal(cfg.servers@, names.take(i as int), request),
        decreases nodes.len() - i,
    {
        proof {
            assert(names.take(i + 1).drop_last() =~= names.take(i as int));
            assert(names.take(i + 1).last() == nodes@[i as int]@);
        }
        if find_url(cfg, nodes[i].as_str()).is_some() {
            let ghost before = calls@;
            let c = make_call(cfg, nodes[i].as_str(), Request::RemoveStore { store_id: sid });
            let ghost made = c@;
            calls.push(c);
            proof {
                assert(call_views(calls@) =~= call_views(before).push(made));
            }
        }
        i = i + 1;
    }
    proof {
        assert(names.take(i as int) =~= names);
    }
    calls
}

// ── Groups ───────────────────────────────────────────────────────
/// The peers of the replica on the node `i` among the first `n` nodes: the
/// replica on every other one of them.
pub open spec fn peers_beside(nodes: Seq<PlanNodeView>, base: u64, i: int, n: int) -> Seq<PeerView>
    decreases n,
{
    if n <= 0 {
        Seq::empty()
    } else {
        let front = peers_beside(nodes, base, i, n - 1);
        if n - 1 == i {
            front
        } else {
            front.push(((base + n - 1) as u64, nodes[n - 1].endpoint))
        }
    }
}

/// The peers of the replica on the node `i`: the replica on every other node.
pub fn peers_for(nodes: &Vec<PlanNode>, base: u64, i: usize) -> (r: Vec<RemoteReplicaInfo>)
    requires
        base + nodes.len() <= u64::MAX,
    ensures
        peers_view(r@) == peers_beside(node_views(nodes@), base, i as int, nodes.len() as int),
{
    let ghost views = node_views(nodes@);
    let mut r: Vec<RemoteReplicaInfo> = Vec::new();
    let mut j: usize = 0;
    proof {
        assert(peers_view(r@) =~= Seq::empty());
    }
    while j < nodes.len()
        invariant
            j <= nodes.len(),
            base + nodes.len() <= u64::MAX,
            views == node_views(nodes@),
            peers_view(r@) == peers_beside(views, base, i as int, j as int),
        decreases nodes.len() - j,
    {
        if j != i {
            let ghost before = r@;
            let endpoint: String = nodes[j].endpoint.clone();
            let ghost at = endpoint@;
            r.push(RemoteReplicaInfo { replica_id: base + j as u64, endpoint });
            proof {
                assert(views[j as int].endpoint == at);
                assert(peers_view(r@) =~= peers_view(before).push(((base + j) as u64, at)));
            }
        }
        j = j + 1;
    }
    r
}

/// The creation of a group on several nodes.
#[derive(Debug)]
pub struct GroupPlan {
    pub store_id: u64,
    pub group_id: u64,
    /// Id of the replica on the first node; those on the others follow it.
    pub replica_id: u64,
    pub nodes: Vec<PlanNode>,
}

/// Begin to create a group on the nodes of a request.
pub fn plan_group(cfg: &ConsoleConfig, sid: u64, body: &CreateGroupBody) -> (r: Result<
    GroupPlan,
    ApiError,
>)
    ensures
        match r {
            Ok(plan) => {
                &&& body.nodes.len() > 0
                &&& plan.store_id == sid
                &&& plan.group_id == body.group_id
                &&& plan.replica_id == body.replica_id
                &&& node_views(plan.nodes@) == nodes_in(cfg.servers@, body.nodes@)
                &&& plan.nodes.len() == body.nodes.len()
            },
            Err(e) => body.nodes.len() == 0 && e.says(400, "nodes list must not be empty"@),
        },
{
    if body.nodes.is_empty() {
        return Err(ApiError { status: 400, error: "nodes list must not be empty".to_owned() });
    }
    Ok(
        GroupPlan {
            store_id: sid,
            group_id: body.group_id,
            replica_id: body.replica_id,
            nodes: look_up_all(cfg, &body.nodes),
        },
    )
}

/// The next step of creating a group. Where one node fails, the group is removed
/// from those before it. Behind the last creation every node is told of the
/// replicas on the others.
pub fn next_group_step(plan: &GroupPlan, replies: &Vec<Option<String>>) -> (step: Step)
    requires
        plan.nodes.len() < usize::MAX,
        plan.replica_id + plan.nodes.len() <= u64::MAX,
    ensures
        creation_step(
            node_views(plan.nodes@),
            reply_views(replies@),
            "group create"@,
            |i: int|
                RequestView::AddGroup {
                    store_id: plan.store_id,
                    group_id: plan.group_id,
                    replica_id: (plan.replica_id + i) as u64,
                },
            RequestView::RemoveGroup { store_id: plan.store_id, group_id: plan.group_id },
            step,
        ),
        fan_from(urls_of(node_views(plan.nodes@)), reply_views(replies@), 0) is Complete ==> ({
            let n = plan.nodes.len() as int;
            let wired = replies.len() - n;
            if n > 1 && wired < n {
                step matches Step::Call(c) && c@ == call_at(
                    plan.nodes@[wired]@,
                    RequestView::AddRemotes {
                        store_id: plan.store_id,
                        group_id: plan.group_id,
                        remotes: peers_beside(
                            node_views(plan.nodes@),
                            plan.replica_id,
                            wired,
                            n,
                        ),
                    },
                )
            } else {
                step is Done
            }
        }),
{
    let nodes = &plan.nodes;
    let ghost urls = urls_of(node_views(nodes@));
    let ghost views = reply_views(replies@);
    proof {
        failure_follows_success_on_all_earlier_nodes(urls, views);
        assert(forall|k: int| 0 <= k < nodes.len() ==> #[trigger] urls[k] == nodes@[k]@.url);
    }
    match fan_out(nodes, replies) {
        FanPhase::Doing(i) => Step::Call(
            make_call_at(
                &nodes[i],
                Request::AddGroup {
                    store_id: plan.store_id,
                    group_id: plan.group_id,
                    replica_id: plan.replica_id + i as u64,
                },
            ),
        ),
        FanPhase::Complete => {
            let n: usize = nodes.len();
            proof {
                if n > 0 {
                    assert(urls[n - 1] is Some && n - 1 < views.len());
                }
            }
            let wired: usize = replies.len() - n;
            if n > 1 && wired < n {
                let remotes = peers_for(nodes, plan.replica_id, wired);
                proof {
                    assert(urls[wired as int] is Some);
                }
                Step::Call(
                    make_call_at(
                        &nodes[wired],
                        Request::AddRemotes {
                            store_id: plan.store_id,
                            group_id: plan.group_id,
                            remotes,
                        },
                    ),
                )
            } else {
                Step::Done
            }
        },
        FanPhase::Failed { at, calls } => {
            let undone: usize = replies.len() - calls;
            if undone < at {
                proof {
                    assert(urls[undone as int] is Some);
                }
                Step::Call(
                    make_call_at(
                        &nodes[undone],
                        Request::RemoveGroup { store_id: plan.store_id, group_id: plan.group_id },
                    ),
                )
            } else {
                proof {
                    assert(urls[at as int] == nodes@[at as int]@.url);
                }
                Step::Refused(fan_refusal("group create", nodes, at, replies))
            }
        },
    }
}

/// Every replica of a new group is told of every other one, at the endpoint of
/// its node, and of none with its own id.
pub proof fn new_replicas_learn_of_each_other(
    nodes: Seq<PlanNodeView>,
    base: u64,
    i: int,
    n: int,
    j: int,
)
    requires
        0 <= i < nodes.len(),
        0 <= j < n <= nodes.len(),
        base + nodes.len() <= u64::MAX,
        j != i,
    ensures
        peers_beside(nodes, base, i, n).contains(((base + j) as u64, nodes[j].endpoint)),
        forall|k: int|
            0 <= k < peers_beside(nodes, base, i, n).len() ==> (#[trigger] peers_beside(
                nodes,
                base,
                i,
                n,
            )[k]).0 != base + i,
    decreases n,
{
    let all = peers_beside(nodes, base, i, n);
    let front = peers_beside(nodes, base, i, n - 1);
    lemma_own_id_is_left_out(nodes, base, i, n);
    if j < n - 1 {
        new_replicas_learn_of_each_other(nodes, base, i, n - 1, j);
        let k = front.index_of(((base + j) as u64, nodes[j].endpoint));
        assert(all[k] == front[k]);
    } else {
        assert(all[all.len() - 1] == ((base + j) as u64, nodes[j].endpoint));
    }
}

proof fn lemma_own_id_is_left_out(nodes: Seq<PlanNodeView>, base: u64, i: int, n: int)
    requires
        0 <= i < nodes.len(),
        0 <= n <= nodes.len(),
        base + nodes.len() <= u64::MAX,
    ensures
        forall|k: int|
            0 <= k < peers_beside(nodes, base, i, n).len() ==> (#[trigger] peers_beside(
                nodes,
                base,
                i,
                n,
            )[k]).0 != base + i,
    decreases n,
{
    if n > 0 {
        lemma_own_id_is_left_out(nodes, base, i, n - 1);
        let all = peers_beside(nodes, base, i, n);
        let front = peers_beside(nodes, base, i, n - 1);
        assert forall|k: int| 0 <= k < all.len() implies (#[trigger] all[k]).0 != base + i by {
            if k < front.len() {
                assert(all[k] == front[k]);
            }
        }
    }
}

/// A store is removed from every one of its nodes that has a server, in their
/// order.
pub proof fn store_is_removed_from_its_nodes(servers: Seq<ServerEntry>, nodes: Seq<Seq<char>>, request: RequestView)
    ensures
        store_removal(servers, nodes, request) == nodes.filter(|n: Seq<char>| url_of(servers, n) is Some).map_values(
            |n: Seq<char>| call_to(servers, n, request),
        ),
    decreases nodes.len(),
{
    reveal(Seq::filter);
    if nodes.len() > 0 {
        store_is_removed_from_its_nodes(servers, nodes.drop_last(), request);
    }
    assert(store_removal(servers, nodes, request) =~= nodes.filter(|n: Seq<char>| url_of(servers, n) is Some).map_values(
        |n: Seq<char>| call_to(servers, n, request),
    ));
}

/// The first server that is on a node tells the node, and there is none exactly
/// if no server is on a node.
pub proof fn first_server_on_a_node_hosts(servers: Seq<ServerEntry>)
    ensures
        match first_host(servers) {
            Some(n) => exists|i: int|
                0 <= i < servers.len() && (#[trigger] servers[i]).node_id == Some(n) && forall|
                    j: int,
                |
                    0 <= j < i ==> (#[trigger] servers[j]).node_id is None,
            None => forall|i: int|
                0 <= i < servers.len() ==> (#[trigger] servers[i]).node_id is None,
        },
    decreases servers.len(),
{
    if servers.len() > 0 && servers[0].node_id is None {
        let rest = servers.drop_first();
        first_server_on_a_node_hosts(rest);
        assert forall|j: int| 0 < j < servers.len() implies rest[j - 1] == #[trigger] servers[j] by {}
        if let Some(n) = first_host(rest) {
            let i = choose|i: int|
                0 <= i < rest.len() && (#[trigger] rest[i]).node_id == Some(n) && forall|j: int|
                    0 <= j < i ==> (#[trigger] rest[j]).node_id is None;
            assert(servers[i + 1].node_id == Some(n));
            assert forall|j: int| 0 <= j < i + 1 implies (
            #[trigger] servers[j]).node_id is None by {
                if j > 0 {
                    assert(rest[j - 1].node_id is None);
                }
            }
        } else {
            assert forall|j: int| 0 <= j < servers.len() implies (
            #[trigger] servers[j]).node_id is None by {
                if j > 0 {
                    assert(rest[j - 1].node_id is None);
                }
            }
        }
    }
}

/// As long as nothing failed, the next thing is created on the next node.
pub proof fn creation_goes_on_node_by_node(
    nodes: Seq<PlanNodeView>,
    replies: Seq<Option<Seq<char>>>,
    what: Seq<char>,
    create: spec_fn(int) -> RequestView,
    undo: RequestView,
    step: Step,
)
    requires
        creation_step(nodes, replies, what, create, undo, step),
        nodes.len() < usize::MAX,
        replies.len() < nodes.len(),
        forall|k: int| 0 <= k <= replies.len() ==> (#[trigger] nodes[k]).url is Some,
        forall|k: int| 0 <= k < replies.len() ==> (#[trigger] replies[k]) is None,
    ensures
        step matches Step::Call(c) && c@.node_id == nodes[replies.len() as int].node_id
            && nodes[replies.len() as int].url == Some(c@.url) && c@.request == create(
            replies.len() as int,
        ),
{
    let urls = urls_of(nodes);
    failure_follows_success_on_all_earlier_nodes(urls, replies);
    assert(urls.len() == nodes.len());
    match fan_from(urls, replies, 0) {
        FanPhase::Doing(_) => {},
        FanPhase::Complete => {
            assert(urls[replies.len() as int] == nodes[replies.len() as int].url);
        },
        FanPhase::Failed { at, calls } => {
            assert(urls[at as int] == nodes[at as int].url);
            assert(at <= replies.len());
        },
    }
}

/// Where a creation failed, it is undone on the nodes before that one, in their
/// order, and then the request fails.
pub proof fn failed_creation_is_undone_node_by_node(
    nodes: Seq<PlanNodeView>,
    replies: Seq<Option<Seq<char>>>,
    what: Seq<char>,
    create: spec_fn(int) -> RequestView,
    undo: RequestView,
    step: Step,
    at: int,
    undone: int,
)
    requires
        creation_step(nodes, replies, what, create, undo, step),
        nodes.len() < usize::MAX,
        0 <= at < nodes.len(),
        forall|k: int| 0 <= k <= at ==> (#[trigger] nodes[k]).url is Some,
        0 <= undone <= at,
        replies.len() == at + 1 + undone,
        forall|k: int| 0 <= k < at ==> (#[trigger] replies[k]) is None,
        replies[at] is Some,
    ensures
        undone < at ==> (step matches Step::Call(c) && c@.node_id == nodes[undone].node_id
            && nodes[undone].url == Some(c@.url) && c@.request == undo),
        undone == at ==> (step matches Step::Refused(e) && e.status == 502),
{
    let urls = urls_of(nodes);
    failure_follows_success_on_all_earlier_nodes(urls, replies);
    assert(urls.len() == nodes.len());
    assert(urls[at] == nodes[at].url);
    match fan_from(urls, replies, 0) {
        FanPhase::Doing(i) => {
            assert(at < i);
            assert(urls[at] is Some && replies[at] is None);
        },
        FanPhase::Complete => {
            assert(urls[at] is Some && replies[at] is None);
        },
        FanPhase::Failed { at: i, calls } => {
            assert(urls[i as int] == nodes[i as int].url);
            if i > at {
                assert(urls[at] is Some && replies[at] is None);
            }
            assert(i == at);
        },
    }
}

} // verus!
