//! The registry of racks, nodes and deployed servers.

use crate::common::api::ApiError;
use crate::common::text::{concat3, same_text};
use vstd::prelude::*;

verus! {

#[derive(Debug)]
pub struct RackEntry {
    pub id: String,
    pub name: String,
}

#[derive(Debug)]
pub struct NodeEntry {
    pub id: String,
    pub rack_id: String,
    pub host: String,
    pub ssh_port: u16,
    /// User for remote access; the node is this machine if it is empty.
    pub ssh_user: String,
}

/// A deployed server.
#[derive(Debug)]
pub struct ServerEntry {
    pub id: String,
    /// Where its management API listens.
    pub url: String,
    pub node_id: Option<String>,
    pub grpc_url: Option<String>,
    pub mgmt_port: Option<u16>,
    pub grpc_port: Option<u16>,
    pub auto_start: bool,
    pub binary: Option<String>,
    pub election_profile: Option<String>,
    pub pid: Option<u32>,
}

/// Racks, nodes and servers.
#[derive(Debug)]
pub struct ConsoleConfig {
    pub racks: Vec<RackEntry>,
    pub nodes: Vec<NodeEntry>,
    pub servers: Vec<ServerEntry>,
}

impl Clone for RackEntry {
    fn clone(&self) -> (r: Self)
        ensures
            r == *self,
    {
        RackEntry { id: self.id.clone(), name: self.name.clone() }
    }
}

impl Clone for NodeEntry {
    fn clone(&self) -> (r: Self)
        ensures
            r == *self,
    {
        NodeEntry {
            id: self.id.clone(),
            rack_id: self.rack_id.clone(),
            host: self.host.clone(),
            ssh_port: self.ssh_port,
            ssh_user: self.ssh_user.clone(),
        }
    }
}

pub(crate) fn copy_text(t: &Option<String>) -> (r: Option<String>)
    ensures
        r == *t,
{
    match t {
        Some(s) => Some(s.clone()),
        None => None,
    }
}

impl Clone for ServerEntry {
    fn clone(&self) -> (r: Self)
        ensures
            r == *self,
    {
        ServerEntry {
            id: self.id.clone(),
            url: self.url.clone(),
            node_id: copy_text(&self.node_id),
            grpc_url: copy_text(&self.grpc_url),
            mgmt_port: self.mgmt_port,
            grpc_port: self.grpc_port,
            auto_start: self.auto_start,
            binary: copy_text(&self.binary),
            election_profile: copy_text(&self.election_profile),
            pid: self.pid,
        }
    }
}

impl NodeEntry {
    /// The node is reached over the network.
    pub open spec fn is_remote(&self) -> bool {
        self.ssh_user@.len() > 0
    }

    /// Whether the node is reached over the network.
    pub fn ssh_enabled(&self) -> (r: bool)
        ensures
            r == self.is_remote(),
    {
        !self.ssh_user.as_str().is_empty()
    }
}

impl ServerEntry {
    /// A server that is known by its URL alone.
    pub fn new(id: String, url: String) -> (s: Self)
        ensures
            s == (ServerEntry {
                id,
                url,
                node_id: None,
                grpc_url: None,
                mgmt_port: None,
                grpc_port: None,
                auto_start: false,
                binary: None,
                election_profile: None,
                pid: None,
            }),
    {
        ServerEntry {
            id,
            url,
            node_id: None,
            grpc_url: None,
            mgmt_port: None,
            grpc_port: None,
            auto_start: false,
            binary: None,
            election_profile: None,
            pid: None,
        }
    }

    /// The server is deployed on this node.
    pub open spec fn is_on(&self, node_id: Seq<char>) -> bool {
        self.node_id matches Some(n) && n@ == node_id
    }
}

fn on_node(s: &ServerEntry, node_id: &str) -> (r: bool)
    ensures
        r == s.is_on(node_id@),
{
    match &s.node_id {
        Some(n) => same_text(n.as_str(), node_id),
        None => false,
    }
}

/// There is a rack with this id.
pub open spec fn has_rack(racks: Seq<RackEntry>, id: Seq<char>) -> bool {
    exists|i: int| 0 <= i < racks.len() && (#[trigger] racks[i]).id@ == id
}

/// There is a node with this id.
pub open spec fn has_node(nodes: Seq<NodeEntry>, id: Seq<char>) -> bool {
    exists|i: int| 0 <= i < nodes.len() && (#[trigger] nodes[i]).id@ == id
}

/// There is a node in this rack.
pub open spec fn rack_in_use(nodes: Seq<NodeEntry>, rack_id: Seq<char>) -> bool {
    exists|i: int| 0 <= i < nodes.len() && (#[trigger] nodes[i]).rack_id@ == rack_id
}

/// There is a server with this id.
pub open spec fn has_server(servers: Seq<ServerEntry>, id: Seq<char>) -> bool {
    exists|i: int| 0 <= i < servers.len() && (#[trigger] servers[i]).id@ == id
}

/// There is a server on this node.
pub open spec fn hosts_server(servers: Seq<ServerEntry>, node_id: Seq<char>) -> bool {
    exists|i: int| 0 <= i < servers.len() && (#[trigger] servers[i]).is_on(node_id)
}

/// The first server on this node is at `i`.
pub open spec fn server_at(servers: Seq<ServerEntry>, node_id: Seq<char>, i: int) -> bool {
    &&& 0 <= i < servers.len()
    &&& servers[i].is_on(node_id)
    &&& forall|k: int| 0 <= k < i ==> !(#[trigger] servers[k]).is_on(node_id)
}

/// The racks but those with this id.
pub open spec fn racks_without(racks: Seq<RackEntry>, id: Seq<char>) -> Seq<RackEntry>
    decreases racks.len(),
{
    if racks.len() == 0 {
        Seq::empty()
    } else if racks.last().id@ == id {
        racks_without(racks.drop_last(), id)
    } else {
        racks_without(racks.drop_last(), id).push(racks.last())
    }
}

/// The nodes but those with this id.
pub open spec fn nodes_without(nodes: Seq<NodeEntry>, id: Seq<char>) -> Seq<NodeEntry>
    decreases nodes.len(),
{
    if nodes.len() == 0 {
        Seq::empty()
    } else if nodes.last().id@ == id {
        nodes_without(nodes.drop_last(), id)
    } else {
        nodes_without(nodes.drop_last(), id).push(nodes.last())
    }
}

/// The servers but those on this node.
pub open spec fn servers_without(servers: Seq<ServerEntry>, node_id: Seq<char>) -> Seq<ServerEntry>
    decreases servers.len(),
{
    if servers.len() == 0 {
        Seq::empty()
    } else if servers.last().is_on(node_id) {
        servers_without(servers.drop_last(), node_id)
    } else {
        servers_without(servers.drop_last(), node_id).push(servers.last())
    }
}

/// The nodes in this rack.
pub open spec fn nodes_in(nodes: Seq<NodeEntry>, rack_id: Seq<char>) -> Seq<NodeEntry>
    decreases nodes.len(),
{
    if nodes.len() == 0 {
        Seq::empty()
    } else if nodes.last().rack_id@ == rack_id {
        nodes_in(nodes.drop_last(), rack_id).push(nodes.last())
    } else {
        nodes_in(nodes.drop_last(), rack_id)
    }
}

/// A text with an id in the middle.
pub open spec fn about(front: Seq<char>, id: Seq<char>, back: Seq<char>) -> Seq<char> {
    front + id + back
}

pub(crate) fn refuse(status: u16, front: &str, id: &str, back: &str) -> (e: ApiError)
    ensures
        e.says(status, about(front@, id@, back@)),
{
    ApiError { status, error: concat3(front, id, back) }
}

impl ConsoleConfig {
    /// No two racks, nodes or servers have one id; every node is in a rack; no
    /// two servers are on one node.
    pub open spec fn wf(&self) -> bool {
        &&& forall|i: int, j: int|
            0 <= i < j < self.racks.len() ==> (#[trigger] self.racks[i]).id@ != (
            #[trigger] self.racks[j]).id@
        &&& forall|i: int, j: int|
            0 <= i < j < self.nodes.len() ==> (#[trigger] self.nodes[i]).id@ != (
            #[trigger] self.nodes[j]).id@
        &&& forall|i: int|
            0 <= i < self.nodes.len() ==> has_rack(
                self.racks@,
                (#[trigger] self.nodes[i]).rack_id@,
            )
        &&& forall|i: int, j: int|
            0 <= i < j < self.servers.len() ==> (#[trigger] self.servers[i]).id@ != (
            #[trigger] self.servers[j]).id@
        &&& forall|i: int, j: int|
            #![trigger self.servers[i], self.servers[j]]
            0 <= i < j < self.servers.len() ==> (self.servers[i].node_id matches Some(n)
                ==> !self.servers[j].is_on(n@))
    }

    /// A registry of nothing.
    pub fn new() -> (c: Self)
        ensures
            c.wf(),
            c.racks.len() == 0,
            c.nodes.len() == 0,
            c.servers.len() == 0,
    {
        ConsoleConfig { racks: Vec::new(), nodes: Vec::new(), servers: Vec::new() }
    }

    /// The rack with this id.
    pub fn rack(&self, id: &str) -> (r: Option<&RackEntry>)
        ensures
            match r {
                Some(k) => k.id@ == id@ && self.racks@.contains(*k),
                None => !has_rack(self.racks@, id@),
            },
    {
        let mut i: usize = 0;
        while i < self.racks.len()
            invariant
                i <= self.racks.len(),
                forall|k: int| 0 <= k < i ==> (#[trigger] self.racks@[k]).id@ != id@,
            decreases self.racks.len() - i,
        {
            if same_text(self.racks[i].id.as_str(), id) {
                proof {
                    assert(self.racks@[i as int] == self.racks[i as int]);
                }
                return Some(&self.racks[i]);
            }
            i = i + 1;
        }
        None
    }

    /// The node with this id.
    pub fn node(&self, id: &str) -> (r: Option<&NodeEntry>)
        ensures
            match r {
                Some(n) => n.id@ == id@ && self.nodes@.contains(*n),
                None => !has_node(self.nodes@, id@),
            },
    {
        let mut i: usize = 0;
        while i < self.nodes.len()
            invariant
                i <= self.nodes.len(),
                forall|k: int| 0 <= k < i ==> (#[trigger] self.nodes@[k]).id@ != id@,
            decreases self.nodes.len() - i,
        {
            if same_text(self.nodes[i].id.as_str(), id) {
                proof {
                    assert(self.nodes@[i as int] == self.nodes[i as int]);
                }
                return Some(&self.nodes[i]);
            }
            i = i + 1;
        }
        None
    }

    /// The first server on this node.
    pub fn server_for_node(&self, node_id: &str) -> (r: Option<&ServerEntry>)
        ensures
            match r {
                Some(s) => exists|i: int| #[trigger]
                    server_at(self.servers@, node_id@, i) && *s == self.servers@[i],
                None => !hosts_server(self.servers@, node_id@),
            },
    {
        let mut i: usize = 0;
        while i < self.servers.len()
            invariant
                i <= self.servers.len(),
                forall|k: int| 0 <= k < i ==> !(#[trigger] self.servers@[k]).is_on(node_id@),
            decreases self.servers.len() - i,
        {
            if on_node(&self.servers[i], node_id) {
                proof {
                    assert(server_at(self.servers@, node_id@, i as int));
                }
                return Some(&self.servers[i]);
            }
            i = i + 1;
        }
        None
    }

    /// Add a rack. A second one with its id is refused.
    pub fn add_rack(&mut self, entry: RackEntry) -> (r: Result<(), ApiError>)
        requires
            old(self).wf(),
        ensures
            final(self).wf(),
            match r {
                Ok(_) => {
                    &&& !has_rack(old(self).racks@, entry.id@)
                    &&& final(self).racks@ == old(self).racks@.push(entry)
                    &&& *final(self) == (ConsoleConfig { racks: final(self).racks, ..*old(self) })
                },
                Err(e) => {
                    &&& has_rack(old(self).racks@, entry.id@)
                    &&& e.says(409, about("rack "@, entry.id@, " already exists"@))
                    &&& *final(self) == *old(self)
                },
            },
    {
        if self.rack(entry.id.as_str()).is_some() {
            return Err(refuse(409, "rack ", entry.id.as_str(), " already exists"));
        }
        self.racks.push(entry);
        proof {
            assert forall|i: int| 0 <= i < self.nodes.len() implies has_rack(
                self.racks@,
                (#[trigger] self.nodes[i]).rack_id@,
            ) by {
                let id = self.nodes[i].rack_id@;
                assert(has_rack(old(self).racks@, id));
                let k = choose|k: int|
                    0 <= k < old(self).racks.len() && (#[trigger] old(self).racks@[k]).id@ == id;
                assert(self.racks@[k].id@ == id);
            }
        }
        Ok(())
    }

    /// Remove a rack, which no node may be in.
    pub fn remove_rack(&mut self, id: &str) -> (r: Result<(), ApiError>)
        requires
            old(self).wf(),
        ensures
            final(self).wf(),
            match r {
                Ok(_) => {
                    &&& has_rack(old(self).racks@, id@)
                    &&& !rack_in_use(old(self).nodes@, id@)
                    &&& final(self).racks@ == racks_without(old(self).racks@, id@)
                    &&& *final(self) == (ConsoleConfig { racks: final(self).racks, ..*old(self) })
                },
                Err(e) => {
                    &&& *final(self) == *old(self)
                    &&& if !has_rack(old(self).racks@, id@) {
                        e.says(404, about("rack "@, id@, " not found"@))
                    } else {
                        rack_in_use(old(self).nodes@, id@) && e.says(
                            409,
                            about("rack "@, id@, " still has nodes"@),
                        )
                    }
                },
            },
    {
        if self.rack(id).is_none() {
            return Err(refuse(404, "rack ", id, " not found"));
        }
        proof {
            let k = choose|k: int| 0 <= k < self.racks@.len() && (#[trigger] self.racks@[k]).id@ == id@;
            assert(has_rack(self.racks@, id@));
        }
        let mut i: usize = 0;
        while i < self.nodes.len()
            invariant
                i <= self.nodes.len(),
                *self == *old(self),
                self.wf(),
                has_rack(old(self).racks@, id@),
                forall|k: int| 0 <= k < i ==> (#[trigger] self.nodes@[k]).rack_id@ != id@,
            decreases self.nodes.len() - i,
        {
            if same_text(self.nodes[i].rack_id.as_str(), id) {
                proof {
                    assert(self.nodes@[i as int].rack_id@ == id@);
                }
                return Err(refuse(409, "rack ", id, " still has nodes"));
            }
            i = i + 1;
        }
        let mut kept: Vec<RackEntry> = Vec::new();
        let ghost all = self.racks@;
        let mut j: usize = 0;
        proof {
            assert(all.take(0) =~= Seq::empty());
        }
        while j < self.racks.len()
            invariant
                j <= self.racks.len(),
                *self == *old(self),
                all == self.racks@,
                kept@ == racks_without(all.take(j as int), id@),
            decreases self.racks.len() - j,
        {
            proof {
                assert(all.take(j + 1).drop_last() =~= all.take(j as int));
                assert(all.take(j + 1).last() == all[j as int]);
            }
            if !same_text(self.racks[j].id.as_str(), id) {
                kept.push(self.racks[j].clone());
            }
            j = j + 1;
        }
        proof {
            assert(all.take(j as int) =~= all);
            lemma_racks_without(all, id@);
        }
        self.racks = kept;
        proof {
            assert forall|i: int| 0 <= i < self.nodes.len() implies has_rack(
                self.racks@,
                (#[trigger] self.nodes[i]).rack_id@,
            ) by {
                assert(self.nodes@[i].rack_id@ != id@);
                assert(old(self).nodes[i] == self.nodes[i]);
                assert(has_rack(all, self.nodes[i].rack_id@));
            }
        }
        Ok(())
    }

    /// Add a node, whose rack must be there. A second one with its id is
    /// refused.
    pub fn add_node(&mut self, entry: NodeEntry) -> (r: Result<(), ApiError>)
        requires
            old(self).wf(),
        ensures
            final(self).wf(),
            match r {
                Ok(_) => {
                    &&& !has_node(old(self).nodes@, entry.id@)
                    &&& has_rack(old(self).racks@, entry.rack_id@)
                    &&& final(self).nodes@ == old(self).nodes@.push(entry)
                    &&& *final(self) == (ConsoleConfig { nodes: final(self).nodes, ..*old(self) })
                },
                Err(e) => {
                    &&& *final(self) == *old(self)
                    &&& if has_node(old(self).nodes@, entry.id@) {
                        e.says(409, about("node "@, entry.id@, " already exists"@))
                    } else {
                        !has_rack(old(self).racks@, entry.rack_id@) && e.says(
                            400,
                            about("rack "@, entry.rack_id@, " does not exist"@),
                        )
                    }
                },
            },
    {
        let known = self.node(entry.id.as_str()).is_some();
        if known {
            proof {
                assert(has_node(self.nodes@, entry.id@));
            }
            return Err(refuse(409, "node ", entry.id.as_str(), " already exists"));
        }
        let placed = self.rack(entry.rack_id.as_str()).is_some();
        if !placed {
            return Err(refuse(400, "rack ", entry.rack_id.as_str(), " does not exist"));
        }
        proof {
            assert(has_rack(self.racks@, entry.rack_id@));
        }
        self.nodes.push(entry);
        proof {
            assert forall|i: int| 0 <= i < self.nodes.len() implies has_rack(
                self.racks@,
                (#[trigger] self.nodes[i]).rack_id@,
            ) by {
                if i < old(self).nodes.len() {
                    assert(old(self).nodes[i] == self.nodes[i]);
                }
            }
        }
        Ok(())
    }

    /// Remove a node.
    pub fn remove_node(&mut self, id: &str) -> (r: Result<(), ApiError>)
        requires
            old(self).wf(),
        ensures
            final(self).wf(),
            match r {
                Ok(_) => {
                    &&& has_node(old(self).nodes@, id@)
                    &&& final(self).nodes@ == nodes_without(old(self).nodes@, id@)
                    &&& *final(self) == (ConsoleConfig { nodes: final(self).nodes, ..*old(self) })
                },
                Err(e) => {
                    &&& !has_node(old(self).nodes@, id@)
                    &&& e.says(404, about("node "@, id@, " not found"@))
                    &&& *final(self) == *old(self)
                },
            },
    {
        let known = self.node(id).is_some();
        if !known {
            return Err(refuse(404, "node ", id, " not found"));
        }
        proof {
            assert(has_node(self.nodes@, id@));
        }
        let mut kept: Vec<NodeEntry> = Vec::new();
        let ghost all = self.nodes@;
        let mut j: usize = 0;
        proof {
            assert(all.take(0) =~= Seq::empty());
        }
        while j < self.nodes.len()
            invariant
                j <= self.nodes.len(),
                *self == *old(self),
                all == self.nodes@,
                kept@ == nodes_without(all.take(j as int), id@),
            decreases self.nodes.len() - j,
        {
            proof {
                assert(all.take(j + 1).drop_last() =~= all.take(j as int));
                assert(all.take(j + 1).last() == all[j as int]);
            }
            if !same_text(self.nodes[j].id.as_str(), id) {
                kept.push(self.nodes[j].clone());
            }
            j = j + 1;
        }
        proof {
            assert(all.take(j as int) =~= all);
            lemma_nodes_without(all, id@);
        }
        self.nodes = kept;
        proof {
            assert forall|i: int| 0 <= i < self.nodes.len() implies has_rack(
                self.racks@,
                (#[trigger] self.nodes[i]).rack_id@,
            ) by {
                let k = choose|k: int| 0 <= k < all.len() && all[k] == nodes_without(all, id@)[i];
                assert(old(self).nodes[k] == self.nodes[i]);
            }
        }
        Ok(())
    }

    /// Add a server. A second one with its id, or on its node, is refused.
    pub fn add_server(&mut self, entry: ServerEntry) -> (r: Result<(), ApiError>)
        requires
            old(self).wf(),
        ensures
            final(self).wf(),
            match r {
                Ok(_) => {
                    &&& !has_server(old(self).servers@, entry.id@)
                    &&& entry.node_id matches Some(n) ==> !hosts_server(old(self).servers@, n@)
                    &&& final(self).servers@ == old(self).servers@.push(entry)
                    &&& *final(self) == (ConsoleConfig {
                        servers: final(self).servers,
                        ..*old(self)
                    })
                },
                Err(e) => {
                    &&& *final(self) == *old(self)
                    &&& if has_server(old(self).servers@, entry.id@) {
                        e.says(409, about("server "@, entry.id@, " already exists"@))
                    } else {
                        entry.node_id matches Some(n) && hosts_server(old(self).servers@, n@)
                            && e.says(
                            409,
                            about("node "@, n@, " already hosts a deployed server"@),
                        )
                    }
                },
            },
    {
        let mut i: usize = 0;
        while i < self.servers.len()
            invariant
                i <= self.servers.len(),
                *self == *old(self),
                self.wf(),
                forall|k: int| 0 <= k < i ==> (#[trigger] self.servers@[k]).id@ != entry.id@,
            decreases self.servers.len() - i,
        {
            if same_text(self.servers[i].id.as_str(), entry.id.as_str()) {
                proof {
                    assert(self.servers@[i as int].id@ == entry.id@);
                }
                return Err(refuse(409, "server ", entry.id.as_str(), " already exists"));
            }
            i = i + 1;
        }
        if let Some(n) = &entry.node_id {
            let taken = self.server_for_node(n.as_str()).is_some();
            if taken {
                proof {
                    let k = choose|k: int| #[trigger] server_at(self.servers@, n@, k);
                    assert(self.servers@[k].is_on(n@));
                }
                return Err(refuse(409, "node ", n.as_str(), " already hosts a deployed server"));
            }
        }
        proof {
            assert forall|i: int, j: int|
                #![trigger old(self).servers@.push(entry)[i], old(self).servers@.push(entry)[j]]
                0 <= i < j < old(self).servers@.push(entry).len() implies (
            old(self).servers@.push(entry)[i].node_id matches Some(n) ==> !old(
                self,
            ).servers@.push(entry)[j].is_on(n@)) by {
                if j == old(self).servers.len() {
                    assert(old(self).servers@.push(entry)[j] == entry);
                    if let Some(n) = entry.node_id {
                        assert(!old(self).servers@[i].is_on(n@));
                    }
                } else {
                    assert(old(self).servers[i] == old(self).servers@.push(entry)[i]);
                    assert(old(self).servers[j] == old(self).servers@.push(entry)[j]);
                }
            }
        }
        self.servers.push(entry);
        Ok(())
    }

    /// Remove the server on a node. Returns whether there was one.
    pub fn remove_server_for_node(&mut self, node_id: &str) -> (removed: bool)
        requires
            old(self).wf(),
        ensures
            final(self).wf(),
            removed == hosts_server(old(self).servers@, node_id@),
            final(self).servers@ == servers_without(old(self).servers@, node_id@),
            *final(self) == (ConsoleConfig { servers: final(self).servers, ..*old(self) }),
    {
        let mut kept: Vec<ServerEntry> = Vec::new();
        let ghost all = self.servers@;
        let mut removed = false;
        let mut j: usize = 0;
        proof {
            assert(all.take(0) =~= Seq::empty());
        }
        while j < self.servers.len()
            invariant
                j <= self.servers.len(),
                *self == *old(self),
                all == self.servers@,
                removed == (exists|k: int| 0 <= k < j && (#[trigger] all[k]).is_on(node_id@)),
                kept@ == servers_without(all.take(j as int), node_id@),
            decreases self.servers.len() - j,
        {
            proof {
                assert(all.take(j + 1).drop_last() =~= all.take(j as int));
                assert(all.take(j + 1).last() == all[j as int]);
            }
            if on_node(&self.servers[j], node_id) {
                proof {
                    assert(all[j as int].is_on(node_id@));
                }
                removed = true;
            } else {
                kept.push(self.servers[j].clone());
            }
            j = j + 1;
        }
        proof {
            assert(all.take(j as int) =~= all);
            lemma_servers_without(all, node_id@);
        }
        self.servers = kept;
        removed
    }

    /// All nodes, or those in one rack.
    pub fn list_nodes(&self, rack_id: Option<&str>) -> (r: Vec<NodeEntry>)
        ensures
            r@ == match rack_id {
                Some(id) => nodes_in(self.nodes@, id@),
                None => self.nodes@,
            },
    {
        let mut r: Vec<NodeEntry> = Vec::new();
        let ghost all = self.nodes@;
        let mut i: usize = 0;
        proof {
            assert(all.take(0) =~= Seq::empty());
        }
        while i < self.nodes.len()
            invariant
                i <= self.nodes.len(),
                all == self.nodes@,
                r@ == match rack_id {
                    Some(id) => nodes_in(all.take(i as int), id@),
                    None => all.take(i as int),
                },
            decreases self.nodes.len() - i,
        {
            proof {
                assert(all.take(i + 1).drop_last() =~= all.take(i as int));
                assert(all.take(i + 1).last() == all[i as int]);
                assert(all.take(i + 1) =~= all.take(i as int).push(all[i as int]));
            }
            let wanted = match rack_id {
                Some(id) => same_text(self.nodes[i].rack_id.as_str(), id),
                None => true,
            };
            if wanted {
                r.push(self.nodes[i].clone());
            }
            i = i + 1;
        }
        proof {
            assert(all.take(i as int) =~= all);
        }
        r
    }
}

proof fn lemma_racks_without(racks: Seq<RackEntry>, id: Seq<char>)
    ensures
        forall|i: int|
            0 <= i < racks_without(racks, id).len() ==> exists|k: int|
                0 <= k < racks.len() && racks[k] == #[trigger] racks_without(racks, id)[i],
        forall|k: int|
            0 <= k < racks.len() && (#[trigger] racks[k]).id@ != id ==> has_rack(
                racks_without(racks, id),
                racks[k].id@,
            ),
        !has_rack(racks_without(racks, id), id),
        (forall|i: int, j: int|
            0 <= i < j < racks.len() ==> (#[trigger] racks[i]).id@ != (#[trigger] racks[j]).id@)
            ==> (forall|i: int, j: int|
            0 <= i < j < racks_without(racks, id).len() ==> (#[trigger] racks_without(
                racks,
                id,
            )[i]).id@ != (#[trigger] racks_without(racks, id)[j]).id@),
    decreases racks.len(),
{
    if racks.len() > 0 {
        let front = racks.drop_last();
        lemma_racks_without(front, id);
        let kept = racks_without(front, id);
        let all = racks_without(racks, id);
        assert forall|i: int| 0 <= i < all.len() implies exists|k: int|
            0 <= k < racks.len() && racks[k] == #[trigger] all[i] by {
            if i < kept.len() {
                assert(all[i] == kept[i]);
                let k = choose|k: int| 0 <= k < front.len() && front[k] == kept[i];
                assert(racks[k] == all[i]);
            } else {
                assert(racks[racks.len() - 1] == all[i]);
            }
        }
        assert forall|k: int| 0 <= k < racks.len() && (#[trigger] racks[k]).id@
            != id implies has_rack(all, racks[k].id@) by {
            if k < racks.len() - 1 {
                assert(front[k] == racks[k]);
                let m = choose|m: int|
                    0 <= m < kept.len() && (#[trigger] kept[m]).id@ == racks[k].id@;
                assert(all[m].id@ == racks[k].id@);
            } else {
                assert(all[all.len() - 1].id@ == racks[k].id@);
            }
        }
        if forall|i: int, j: int|
            0 <= i < j < racks.len() ==> (#[trigger] racks[i]).id@ != (#[trigger] racks[j]).id@ {
            assert forall|i: int, j: int| 0 <= i < j < front.len() implies (
            #[trigger] front[i]).id@ != (#[trigger] front[j]).id@ by {
                assert(racks[i].id@ != racks[j].id@);
            }
            assert forall|i: int, j: int| 0 <= i < j < all.len() implies (#[trigger] all[i]).id@
                != (#[trigger] all[j]).id@ by {
                assert(all[i] == kept[i]);
                if j < kept.len() {
                    assert(all[j] == kept[j]);
                } else {
                    let k = choose|k: int| 0 <= k < front.len() && front[k] == kept[i];
                    assert(racks[k].id@ != racks[racks.len() - 1].id@);
                }
            }
        }
    }
}

proof fn lemma_nodes_without(nodes: Seq<NodeEntry>, id: Seq<char>)
    ensures
        forall|i: int|
            0 <= i < nodes_without(nodes, id).len() ==> exists|k: int|
                0 <= k < nodes.len() && nodes[k] == #[trigger] nodes_without(nodes, id)[i],
        !has_node(nodes_without(nodes, id), id),
        (forall|i: int, j: int|
            0 <= i < j < nodes.len() ==> (#[trigger] nodes[i]).id@ != (#[trigger] nodes[j]).id@)
            ==> (forall|i: int, j: int|
            0 <= i < j < nodes_without(nodes, id).len() ==> (#[trigger] nodes_without(
                nodes,
                id,
            )[i]).id@ != (#[trigger] nodes_without(nodes, id)[j]).id@),
    decreases nodes.len(),
{
    if nodes.len() > 0 {
        let front = nodes.drop_last();
        lemma_nodes_without(front, id);
        let kept = nodes_without(front, id);
        let all = nodes_without(nodes, id);
        assert forall|i: int| 0 <= i < all.len() implies exists|k: int|
            0 <= k < nodes.len() && nodes[k] == #[trigger] all[i] by {
            if i < kept.len() {
                assert(all[i] == kept[i]);
                let k = choose|k: int| 0 <= k < front.len() && front[k] == kept[i];
                assert(nodes[k] == all[i]);
            } else {
                assert(nodes[nodes.len() - 1] == all[i]);
            }
        }
        if forall|i: int, j: int|
            0 <= i < j < nodes.len() ==> (#[trigger] nodes[i]).id@ != (#[trigger] nodes[j]).id@ {
            assert forall|i: int, j: int| 0 <= i < j < front.len() implies (
            #[trigger] front[i]).id@ != (#[trigger] front[j]).id@ by {
                assert(nodes[i].id@ != nodes[j].id@);
            }
            assert forall|i: int, j: int| 0 <= i < j < all.len() implies (#[trigger] all[i]).id@
                != (#[trigger] all[j]).id@ by {
                assert(all[i] == kept[i]);
                if j < kept.len() {
                    assert(all[j] == kept[j]);
                } else {
                    let k = choose|k: int| 0 <= k < front.len() && front[k] == kept[i];
                    assert(nodes[k].id@ != nodes[nodes.len() - 1].id@);
                }
            }
        }
    }
}

/// Two servers do not clash: neither their ids nor their nodes are the same.
spec fn distinct_servers(a: ServerEntry, b: ServerEntry) -> bool {
    a.id@ != b.id@ && (a.node_id matches Some(n) ==> !b.is_on(n@))
}

proof fn lemma_servers_without(servers: Seq<ServerEntry>, node_id: Seq<char>)
    ensures
        forall|i: int|
            0 <= i < servers_without(servers, node_id).len() ==> exists|k: int|
                0 <= k < servers.len() && servers[k] == #[trigger] servers_without(
                    servers,
                    node_id,
                )[i],
        !hosts_server(servers_without(servers, node_id), node_id),
        (forall|i: int, j: int|
            #![trigger servers[i], servers[j]]
            0 <= i < j < servers.len() ==> distinct_servers(servers[i], servers[j])) ==> (forall|
            i: int,
            j: int,
        |
            #![trigger servers_without(servers, node_id)[i], servers_without(servers, node_id)[j]]
            0 <= i < j < servers_without(servers, node_id).len() ==> distinct_servers(
                servers_without(servers, node_id)[i],
                servers_without(servers, node_id)[j],
            )),
    decreases servers.len(),
{
    if servers.len() > 0 {
        let front = servers.drop_last();
        lemma_servers_without(front, node_id);
        let kept = servers_without(front, node_id);
        let all = servers_without(servers, node_id);
        assert forall|i: int| 0 <= i < all.len() implies exists|k: int|
            0 <= k < servers.len() && servers[k] == #[trigger] all[i] by {
            if i < kept.len() {
                assert(all[i] == kept[i]);
                let k = choose|k: int| 0 <= k < front.len() && front[k] == kept[i];
                assert(servers[k] == all[i]);
            } else {
                assert(servers[servers.len() - 1] == all[i]);
            }
        }
        if forall|i: int, j: int|
            #![trigger servers[i], servers[j]]
            0 <= i < j < servers.len() ==> distinct_servers(servers[i], servers[j]) {
            assert forall|i: int, j: int|
                #![trigger front[i], front[j]]
                0 <= i < j < front.len() implies distinct_servers(front[i], front[j]) by {
                assert(distinct_servers(servers[i], servers[j]));
            }
            assert forall|i: int, j: int|
                #![trigger all[i], all[j]]
                0 <= i < j < all.len() implies distinct_servers(all[i], all[j]) by {
                assert(all[i] == kept[i]);
                if j < kept.len() {
                    assert(all[j] == kept[j]);
                } else {
                    let k = choose|k: int| 0 <= k < front.len() && front[k] == kept[i];
                    assert(distinct_servers(servers[k], servers[servers.len() - 1]));
                }
            }
        }
    }
}

// ── Laws of the registry ─────────────────────────────────────────
/// What is removed is not there afterwards.
pub proof fn removed_entries_are_gone(c: ConsoleConfig, id: Seq<char>)
    ensures
        !has_rack(racks_without(c.racks@, id), id),
        !has_node(nodes_without(c.nodes@, id), id),
        !hosts_server(servers_without(c.servers@, id), id),
{
    lemma_racks_without(c.racks@, id);
    lemma_nodes_without(c.nodes@, id);
    lemma_servers_without(c.servers@, id);
}

/// The nodes of a rack are exactly those that name it, in order.
pub proof fn rack_lists_its_nodes(nodes: Seq<NodeEntry>, rack_id: Seq<char>, n: NodeEntry)
    ensures
        nodes_in(nodes, rack_id).contains(n) <==> nodes.contains(n) && n.rack_id@ == rack_id,
    decreases nodes.len(),
{
    if nodes.len() > 0 {
        let front = nodes.drop_last();
        rack_lists_its_nodes(front, rack_id, n);
        let inner = nodes_in(front, rack_id);
        let all = nodes_in(nodes, rack_id);
        if nodes.contains(n) {
            let k = nodes.index_of(n);
            if k < front.len() {
                assert(front[k] == n);
            }
        }
        if front.contains(n) {
            let k = front.index_of(n);
            assert(nodes[k] == n);
        }
        assert(nodes[nodes.len() - 1] == nodes.last());
        if inner.contains(n) {
            let k = inner.index_of(n);
            assert(all[k] == n);
        }
        if all.contains(n) {
            let k = all.index_of(n);
            if k < inner.len() {
                assert(inner[k] == n);
            }
        }
        if nodes.last().rack_id@ == rack_id {
            assert(all[all.len() - 1] == nodes.last());
        }
    }
}

/// Removing a rack leaves the other racks, in their order.
pub proof fn removal_keeps_the_other_racks(racks: Seq<RackEntry>, id: Seq<char>)
    ensures
        racks_without(racks, id) == racks.filter(|r: RackEntry| r.id@ != id),
    decreases racks.len(),
{
    reveal(Seq::filter);
    if racks.len() > 0 {
        removal_keeps_the_other_racks(racks.drop_last(), id);
    }
}

/// Removing a node leaves the other nodes, in their order.
pub proof fn removal_keeps_the_other_nodes(nodes: Seq<NodeEntry>, id: Seq<char>)
    ensures
        nodes_without(nodes, id) == nodes.filter(|n: NodeEntry| n.id@ != id),
    decreases nodes.len(),
{
    reveal(Seq::filter);
    if nodes.len() > 0 {
        removal_keeps_the_other_nodes(nodes.drop_last(), id);
    }
}

/// Removing the servers of a node leaves those that are not on it, in their order.
pub proof fn removal_keeps_servers_elsewhere(servers: Seq<ServerEntry>, node_id: Seq<char>)
    ensures
        servers_without(servers, node_id) == servers.filter(|s: ServerEntry| !s.is_on(node_id)),
    decreases servers.len(),
{
    reveal(Seq::filter);
    if servers.len() > 0 {
        removal_keeps_servers_elsewhere(servers.drop_last(), node_id);
    }
}

/// The nodes of a rack are those that name it, in their order.
pub proof fn rack_lists_its_nodes_in_order(nodes: Seq<NodeEntry>, rack_id: Seq<char>)
    ensures
        nodes_in(nodes, rack_id) == nodes.filter(|n: NodeEntry| n.rack_id@ == rack_id),
    decreases nodes.len(),
{
    reveal(Seq::filter);
    if nodes.len() > 0 {
        rack_lists_its_nodes_in_order(nodes.drop_last(), rack_id);
    }
}

} // verus!
