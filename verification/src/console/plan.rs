//! Requests that the console makes of servers, and changes that take several of
//! them.
//!
//! A change is a conversation: the program makes the request that it is told,
//! notes the reply, and asks again with all replies so far. The nodes are looked
//! up once, at the start. Where a change fails halfway, what was done before is
//! undone, in the order in which it was done.

use crate::cluster::info::RemoteReplicaInfo;
use crate::common::api::ApiError;
use crate::common::text::{concat2, concat3};
use crate::console::config::{
    about, hosts_server, refuse, server_at, ConsoleConfig, ServerEntry,
};
use crate::server::rebuild::{peers_view, PeerView};
use vstd::prelude::*;

verus! {

/// A request to a server.
#[derive(Debug)]
pub enum Request {
    AddStore { store_id: u64, group_id: u64, replica_id: u64 },
    RemoveStore { store_id: u64 },
    AddGroup { store_id: u64, group_id: u64, replica_id: u64 },
    RemoveGroup { store_id: u64, group_id: u64 },
    AddRemotes { store_id: u64, group_id: u64, remotes: Vec<RemoteReplicaInfo> },
    RemoveRemote { store_id: u64, group_id: u64, replica_id: u64 },
}

/// What a request says.
pub enum RequestView {
    AddStore { store_id: u64, group_id: u64, replica_id: u64 },
    RemoveStore { store_id: u64 },
    AddGroup { store_id: u64, group_id: u64, replica_id: u64 },
    RemoveGroup { store_id: u64, group_id: u64 },
    AddRemotes { store_id: u64, group_id: u64, remotes: Seq<PeerView> },
    RemoveRemote { store_id: u64, group_id: u64, replica_id: u64 },
}

impl View for Request {
    type V = RequestView;

    open spec fn view(&self) -> RequestView {
        match self {
            Request::AddStore { store_id, group_id, replica_id } => RequestView::AddStore {
                store_id: *store_id,
                group_id: *group_id,
                replica_id: *replica_id,
            },
            Request::RemoveStore { store_id } => RequestView::RemoveStore { store_id: *store_id },
            Request::AddGroup { store_id, group_id, replica_id } => RequestView::AddGroup {
                store_id: *store_id,
                group_id: *group_id,
                replica_id: *replica_id,
            },
            Request::RemoveGroup { store_id, group_id } => RequestView::RemoveGroup {
                store_id: *store_id,
                group_id: *group_id,
            },
            Request::AddRemotes { store_id, group_id, remotes } => RequestView::AddRemotes {
                store_id: *store_id,
                group_id: *group_id,
                remotes: peers_view(remotes@),
            },
            Request::RemoveRemote { store_id, group_id, replica_id } => RequestView::RemoveRemote {
                store_id: *store_id,
                group_id: *group_id,
                replica_id: *replica_id,
            },
        }
    }
}

/// A request with the node that it goes to.
#[derive(Debug)]
pub struct Call {
    pub node_id: String,
    pub url: String,
    pub request: Request,
}

/// What a call says.
pub struct CallView {
    pub node_id: Seq<char>,
    pub url: Seq<char>,
    pub request: RequestView,
}

impl View for Call {
    type V = CallView;

    open spec fn view(&self) -> CallView {
        CallView { node_id: self.node_id@, url: self.url@, request: self.request@ }
    }
}

/// What to do next.
#[derive(Debug)]
pub enum Step {
    /// Make this call and note its reply.
    Call(Call),
    /// The change is done.
    Done,
    /// The change failed, and what it had done is undone.
    Refused(ApiError),
}

/// Replies so far: nothing for success, else the error.
pub open spec fn reply_views(replies: Seq<Option<String>>) -> Seq<Option<Seq<char>>> {
    replies.map_values(
        |r: Option<String>|
            match r {
                Some(e) => Some(e@),
                None => None,
            },
    )
}

/// Where the management API of a node's server listens.
pub open spec fn url_of(servers: Seq<ServerEntry>, node_id: Seq<char>) -> Option<Seq<char>> {
    if hosts_server(servers, node_id) {
        let i = choose|i: int| server_at(servers, node_id, i);
        Some(servers[i].url@)
    } else {
        None
    }
}

/// Where peers reach a node's server; a made-up endpoint where that is not
/// known.
pub open spec fn endpoint_of(servers: Seq<ServerEntry>, node_id: Seq<char>) -> Seq<char> {
    let unknown = "unknown:"@ + node_id;
    if hosts_server(servers, node_id) {
        let i = choose|i: int| server_at(servers, node_id, i);
        match servers[i].grpc_url {
            Some(url) => url@,
            None => unknown,
        }
    } else {
        unknown
    }
}

proof fn lemma_server_at_unique(servers: Seq<ServerEntry>, node_id: Seq<char>, i: int)
    requires
        server_at(servers, node_id, i),
    ensures
        hosts_server(servers, node_id),
        (choose|k: int| server_at(servers, node_id, k)) == i,
{
    let k = choose|k: int| server_at(servers, node_id, k);
    assert(server_at(servers, node_id, k));
    assert(servers[i].is_on(node_id));
    if k < i {
        assert(!servers[k].is_on(node_id));
    } else if i < k {
        assert(!servers[i].is_on(node_id));
    }
}

/// Where the management API of a node's server listens, if it has one.
pub fn find_url(cfg: &ConsoleConfig, node_id: &str) -> (r: Option<String>)
    ensures
        match (r, url_of(cfg.servers@, node_id@)) {
            (Some(a), Some(b)) => a@ == b,
            (None, None) => true,
            _ => false,
        },
{
    match cfg.server_for_node(node_id) {
        Some(s) => {
            proof {
                let i = choose|i: int| #[trigger]
                    server_at(cfg.servers@, node_id@, i) && *s == cfg.servers@[i];
                lemma_server_at_unique(cfg.servers@, node_id@, i);
            }
            Some(s.url.clone())
        },
        None => None,
    }
}

/// Where the management API of a node's server listens.
pub fn mgmt_url_for_node(cfg: &ConsoleConfig, node_id: &str) -> (r: Result<String, ApiError>)
    ensures
        match (r, url_of(cfg.servers@, node_id@)) {
            (Ok(a), Some(b)) => a@ == b,
            (Err(e), None) => e.says(502, about("node "@, node_id@, " has no deployed server"@)),
            _ => false,
        },
{
    match find_url(cfg, node_id) {
        Some(u) => Ok(u),
        None => Err(refuse(502, "node ", node_id, " has no deployed server")),
    }
}

/// Where peers reach a node's server.
pub fn grpc_endpoint_for_node(cfg: &ConsoleConfig, node_id: &str) -> (r: String)
    ensures
        r@ == endpoint_of(cfg.servers@, node_id@),
{
    if let Some(s) = cfg.server_for_node(node_id) {
        proof {
            let i = choose|i: int| #[trigger]
                server_at(cfg.servers@, node_id@, i) && *s == cfg.servers@[i];
            lemma_server_at_unique(cfg.servers@, node_id@, i);
        }
        if let Some(url) = &s.grpc_url {
            return url.clone();
        }
    }
    concat2("unknown:", node_id)
}

// ── The nodes of a change ────────────────────────────────────────
/// A node as the registry had it when a change began. The change speaks to it
/// there, whatever becomes of the registry meanwhile.
#[derive(Debug)]
pub struct PlanNode {
    pub node_id: String,
    /// Where its server's management API listens, if it has a server.
    pub url: Option<String>,
    /// Where peers reach its server.
    pub endpoint: String,
}

/// What is known of a node.
pub struct PlanNodeView {
    pub node_id: Seq<char>,
    pub url: Option<Seq<char>>,
    pub endpoint: Seq<char>,
}

impl View for PlanNode {
    type V = PlanNodeView;

    open spec fn view(&self) -> PlanNodeView {
        PlanNodeView {
            node_id: self.node_id@,
            url: match self.url {
                Some(u) => Some(u@),
                None => None,
            },
            endpoint: self.endpoint@,
        }
    }
}

/// What is known of nodes.
pub open spec fn node_views(nodes: Seq<PlanNode>) -> Seq<PlanNodeView> {
    nodes.map_values(|n: PlanNode| n@)
}

/// A node as the registry has it.
pub open spec fn node_in(servers: Seq<ServerEntry>, node_id: Seq<char>) -> PlanNodeView {
    PlanNodeView {
        node_id,
        url: url_of(servers, node_id),
        endpoint: endpoint_of(servers, node_id),
    }
}

/// Nodes as the registry has them.
pub open spec fn nodes_in(servers: Seq<ServerEntry>, nodes: Seq<String>) -> Seq<PlanNodeView> {
    nodes.map_values(|n: String| node_in(servers, n@))
}

/// A node as the registry has it.
pub fn look_up(cfg: &ConsoleConfig, node_id: &str) -> (n: PlanNode)
    ensures
        n@ == node_in(cfg.servers@, node_id@),
{
    PlanNode {
        node_id: node_id.to_owned(),
        url: find_url(cfg, node_id),
        endpoint: grpc_endpoint_for_node(cfg, node_id),
    }
}

/// Nodes as the registry has them.
pub fn look_up_all(cfg: &ConsoleConfig, nodes: &Vec<String>) -> (r: Vec<PlanNode>)
    ensures
        node_views(r@) == nodes_in(cfg.servers@, nodes@),
        r.len() == nodes.len(),
{
    let mut r: Vec<PlanNode> = Vec::new();
    let mut i: usize = 0;
    while i < nodes.len()
        invariant
            i <= nodes.len(),
            r.len() == i,
            forall|k: int| 0 <= k < i ==> (#[trigger] r@[k])@ == node_in(cfg.servers@, nodes@[k]@),
        decreases nodes.len() - i,
    {
        r.push(look_up(cfg, nodes[i].as_str()));
        i = i + 1;
    }
    proof {
        assert(node_views(r@) =~= nodes_in(cfg.servers@, nodes@));
    }
    r
}

/// A call to a node that has a server.
pub open spec fn call_at(node: PlanNodeView, request: RequestView) -> CallView {
    CallView { node_id: node.node_id, url: node.url->0, request }
}

pub(crate) fn make_call_at(node: &PlanNode, request: Request) -> (c: Call)
    requires
        node@.url is Some,
    ensures
        c@ == call_at(node@, request@),
{
    let url: String = match &node.url {
        Some(u) => u.clone(),
        None => String::new(),
    };
    Call { node_id: node.node_id.clone(), url, request }
}

// ── Doing one thing on every node ────────────────────────────────
/// How far doing one thing on every node of a list has come.
#[derive(Clone, Copy, Debug, PartialEq, Eq, Structural)]
pub enum FanPhase {
    /// It is to be done on this node.
    Doing(usize),
    /// It was done on all nodes.
    Complete,
    /// It failed on this node, behind this number of calls: the node has no
    /// server, or its server refused.
    Failed { at: usize, calls: usize },
}

/// How far doing one thing on every node has come, from the node `i` on, by the
/// replies. Nodes without a server cannot be asked.
pub open spec fn fan_from(
    urls: Seq<Option<Seq<char>>>,
    replies: Seq<Option<Seq<char>>>,
    i: int,
) -> FanPhase
    decreases urls.len() - i,
{
    if i >= urls.len() || i < 0 {
        FanPhase::Complete
    } else if urls[i] is None {
        FanPhase::Failed { at: i as usize, calls: i as usize }
    } else if i >= replies.len() {
        FanPhase::Doing(i as usize)
    } else if replies[i] is Some {
        FanPhase::Failed { at: i as usize, calls: (i + 1) as usize }
    } else {
        fan_from(urls, replies, i + 1)
    }
}

/// The URLs of nodes.
pub open spec fn urls_of(nodes: Seq<PlanNodeView>) -> Seq<Option<Seq<char>>> {
    nodes.map_values(|n: PlanNodeView| n.url)
}

/// How far doing one thing on every node has come.
pub fn fan_out(nodes: &Vec<PlanNode>, replies: &Vec<Option<String>>) -> (phase: FanPhase)
    requires
        nodes.len() < usize::MAX,
    ensures
        phase == fan_from(urls_of(node_views(nodes@)), reply_views(replies@), 0),
{
    let ghost urls = urls_of(node_views(nodes@));
    let ghost views = reply_views(replies@);
    let mut i: usize = 0;
    while i < nodes.len()
        invariant
            i <= nodes.len() < usize::MAX,
            urls == urls_of(node_views(nodes@)),
            views == reply_views(replies@),
            fan_from(urls, views, 0) == fan_from(urls, views, i as int),
        decreases nodes.len() - i,
    {
        proof {
            assert(urls[i as int] == nodes@[i as int]@.url);
        }
        if nodes[i].url.is_none() {
            return FanPhase::Failed { at: i, calls: i };
        }
        if i >= replies.len() {
            return FanPhase::Doing(i);
        }
        proof {
            assert(views[i as int] is Some == replies@[i as int] is Some);
        }
        if replies[i].is_some() {
            return FanPhase::Failed { at: i, calls: i + 1 };
        }
        i = i + 1;
    }
    FanPhase::Complete
}

/// What fails when a thing cannot be done on the node at `at`: the node has no
/// server, or its server refused.
pub open spec fn fan_error(
    e: ApiError,
    what: Seq<char>,
    node: PlanNodeView,
    reply: Option<Seq<char>>,
) -> bool {
    if node.url is None {
        e.says(502, about("node "@, node.node_id, " has no deployed server"@))
    } else {
        e.says(
            502,
            what + " failed on node "@ + node.node_id + ": "@ + match reply {
                Some(r) => r,
                None => Seq::empty(),
            },
        )
    }
}

pub(crate) fn fan_refusal(
    what: &str,
    nodes: &Vec<PlanNode>,
    at: usize,
    replies: &Vec<Option<String>>,
) -> (e: ApiError)
    requires
        at < nodes.len(),
        nodes@[at as int]@.url is Some ==> at < replies.len(),
    ensures
        fan_error(e, what@, nodes@[at as int]@, reply_views(replies@)[at as int]),
{
    match nodes[at].url {
        None => refuse(502, "node ", nodes[at].node_id.as_str(), " has no deployed server"),
        Some(_) => {
            let front: String = concat3(what, " failed on node ", nodes[at].node_id.as_str());
            let middle: String = concat2(front.as_str(), ": ");
            let text: String = match &replies[at] {
                Some(r) => concat2(middle.as_str(), r.as_str()),
                None => concat2(middle.as_str(), ""),
            };
            proof {
                reveal_strlit("");
                assert(""@ =~= Seq::empty());
                assert(reply_views(replies@)[at as int] == match replies@[at as int] {
                    Some(r) => Some(r@),
                    None => None,
                });
            }
            ApiError { status: 502, error: text }
        },
    }
}

/// A call to a node, which has a server in the registry.
pub open spec fn call_to(
    servers: Seq<ServerEntry>,
    node: Seq<char>,
    request: RequestView,
) -> CallView {
    CallView { node_id: node, url: url_of(servers, node)->0, request }
}

pub(crate) fn make_call(cfg: &ConsoleConfig, node: &str, request: Request) -> (c: Call)
    requires
        url_of(cfg.servers@, node@) is Some,
    ensures
        c@ == call_to(cfg.servers@, node@, request@),
{
    let url: String = match find_url(cfg, node) {
        Some(u) => u,
        None => String::new(),
    };
    Call { node_id: node.to_owned(), url, request }
}

// ── Laws of doing one thing on every node ────────────────────────
proof fn lemma_fan_from(urls: Seq<Option<Seq<char>>>, replies: Seq<Option<Seq<char>>>, i: int)
    requires
        0 <= i <= urls.len() < usize::MAX,
    ensures
        match fan_from(urls, replies, i) {
            FanPhase::Doing(at) => {
                &&& i <= at < urls.len()
                &&& i <= replies.len() ==> at == replies.len()
                &&& forall|k: int| i <= k <= at ==> (#[trigger] urls[k]) is Some
                &&& forall|k: int| i <= k < at ==> k < replies.len() && (#[trigger] replies[k]) is None
            },
            FanPhase::Complete => {
                &&& forall|k: int| i <= k < urls.len() ==> (#[trigger] urls[k]) is Some
                &&& forall|k: int|
                    i <= k < urls.len() ==> k < replies.len() && (#[trigger] replies[k]) is None
            },
            FanPhase::Failed { at, calls } => {
                &&& i <= at < urls.len()
                &&& forall|k: int| i <= k < at ==> (#[trigger] urls[k]) is Some
                &&& forall|k: int| i <= k < at ==> k < replies.len() && (#[trigger] replies[k]) is None
                &&& if urls[at as int] is None {
                    calls == at
                } else {
                    calls == at + 1 && at < replies.len() && replies[at as int] is Some
                }
                &&& i <= replies.len() ==> calls <= replies.len()
            },
        },
    decreases urls.len() - i,
{
    if i < urls.len() && urls[i] is Some && i < replies.len() && replies[i] is None {
        lemma_fan_from(urls, replies, i + 1);
    }
}

/// When a thing fails on one node, it was done on exactly the nodes before
/// that one. These are the nodes on which it is undone.
pub proof fn failure_follows_success_on_all_earlier_nodes(
    urls: Seq<Option<Seq<char>>>,
    replies: Seq<Option<Seq<char>>>,
)
    requires
        urls.len() < usize::MAX,
    ensures
        fan_from(urls, replies, 0) matches FanPhase::Failed { at, calls } ==> {
            &&& at < urls.len()
            &&& calls <= replies.len()
            &&& at <= calls
            &&& forall|k: int|
                0 <= k < at ==> (#[trigger] urls[k]) is Some && k < replies.len()
                    && replies[k] is None
            &&& urls[at as int] is None || (at < replies.len() && replies[at as int] is Some)
            &&& calls == if urls[at as int] is None {
                at as int
            } else {
                at + 1
            }
        },
        fan_from(urls, replies, 0) matches FanPhase::Doing(at) ==> at < urls.len() && at
            == replies.len() && urls[at as int] is Some,
        fan_from(urls, replies, 0) matches FanPhase::Doing(at) ==> forall|k: int|
            0 <= k < at ==> (#[trigger] urls[k]) is Some && replies[k] is None,
        fan_from(urls, replies, 0) is Complete ==> forall|k: int|
            0 <= k < urls.len() ==> (#[trigger] urls[k]) is Some && k < replies.len()
                && replies[k] is None,
{
    lemma_fan_from(urls, replies, 0);
}

/// A node is reached at the first server that is on it: its management API at
/// that server's URL, and its peers' traffic at the endpoint that the server
/// has, where it has one. A node without a server has no URL.
pub proof fn first_server_of_a_node_counts(
    servers: Seq<ServerEntry>,
    node_id: Seq<char>,
    i: int,
)
    requires
        0 <= i < servers.len(),
        servers[i].is_on(node_id),
        forall|k: int| 0 <= k < i ==> !(#[trigger] servers[k]).is_on(node_id),
    ensures
        url_of(servers, node_id) == Some(servers[i].url@),
        servers[i].grpc_url matches Some(url) ==> endpoint_of(servers, node_id) == url@,
{
    lemma_server_at_unique(servers, node_id, i);
}

/// A node on which no server is has no URL.
pub proof fn node_without_a_server_is_not_called(servers: Seq<ServerEntry>, node_id: Seq<char>)
    requires
        forall|k: int| 0 <= k < servers.len() ==> !(#[trigger] servers[k]).is_on(node_id),
    ensures
        url_of(servers, node_id) is None,
        endpoint_of(servers, node_id) == "unknown:"@ + node_id,
{
}

} // verus!
