//! A group with its leader and a cache of endpoints.

use crate::group::types::{PxGroupConfig, PxGroupMember};
use crate::paxos::PxNodeId;
use std::collections::HashMap;
use vstd::prelude::*;

verus! {

broadcast use vstd::std_specs::hash::group_hash_axioms;

/// A group as a client knows it.
#[derive(Debug)]
pub struct PxGroup {
    pub group_config: PxGroupConfig,
    pub leader_id: PxNodeId,
    pub my_id: PxNodeId,
    pub leader_endpoint_cache: Option<String>,
    pub member_endpoint_cache: HashMap<PxNodeId, String>,
}

/// Endpoints by id; of two members with one id the later counts.
pub open spec fn endpoints_of(members: Seq<PxGroupMember>) -> Map<u64, String>
    decreases members.len(),
{
    if members.len() == 0 {
        Map::empty()
    } else {
        endpoints_of(members.drop_last()).insert(members.last().node_id, members.last().endpoint)
    }
}

/// The first member with this id is at `i`.
pub open spec fn first_at(members: Seq<PxGroupMember>, node_id: u64, i: int) -> bool {
    &&& 0 <= i < members.len()
    &&& members[i].node_id == node_id
    &&& forall|k: int| 0 <= k < i ==> (#[trigger] members[k]).node_id != node_id
}

/// Whether a member has this id.
pub open spec fn is_member(members: Seq<PxGroupMember>, node_id: u64) -> bool {
    exists|i: int| 0 <= i < members.len() && (#[trigger] members[i]).node_id == node_id
}

/// What a map has under `key`, if anything.
pub open spec fn entry(m: Map<u64, String>, key: u64) -> Option<String> {
    if m.contains_key(key) {
        Some(m[key])
    } else {
        None
    }
}

fn find_member(members: &Vec<PxGroupMember>, node_id: PxNodeId) -> (r: Option<usize>)
    ensures
        match r {
            Some(i) => first_at(members@, node_id, i as int),
            None => !is_member(members@, node_id),
        },
{
    let mut i: usize = 0;
    while i < members.len()
        invariant
            i <= members.len(),
            forall|k: int| 0 <= k < i ==> (#[trigger] members@[k]).node_id != node_id,
        decreases members.len() - i,
    {
        if members[i].node_id == node_id {
            return Some(i);
        }
        i = i + 1;
    }
    None
}

impl PxGroup {
    /// Endpoints that were learned, by id.
    pub open spec fn known(&self) -> Map<u64, String> {
        self.member_endpoint_cache@
    }

    /// Endpoint that was learned for the leader.
    pub open spec fn known_leader(&self) -> Option<String> {
        self.leader_endpoint_cache
    }

    /// The endpoint learned for the leader is the one learned for its id, and
    /// an endpoint is known for every member.
    pub open spec fn wf(&self) -> bool {
        &&& self.known_leader() == entry(self.known(), self.leader_id)
        &&& forall|id: u64| #[trigger]
            is_member(self.group_config.members@, id) ==> self.known().contains_key(id)
    }

    /// A group whose endpoints are those of its members.
    pub fn new(group_config: PxGroupConfig, leader_id: PxNodeId, my_id: PxNodeId) -> (g: Self)
        ensures
            g.wf(),
            g.group_config == group_config,
            g.leader_id == leader_id,
            g.my_id == my_id,
            g.known() == endpoints_of(group_config.members@),
    {
        let mut g = PxGroup {
            group_config,
            leader_id,
            my_id,
            leader_endpoint_cache: None,
            member_endpoint_cache: HashMap::new(),
        };
        g.refresh_endpoint_cache();
        g
    }

    /// Endpoint of the leader, if known: what was learned for it, else what the
    /// membership says.
    pub fn leader_endpoint(&self) -> (r: Option<String>)
        requires
            self.wf(),
        ensures
            match (r, entry(self.known(), self.leader_id)) {
                (Some(a), Some(b)) => a@ == b@,
                (None, None) => true,
                _ => false,
            },
    {
        match &self.leader_endpoint_cache {
            Some(e) => Some(e.clone()),
            None => {
                let found = find_member(&self.group_config.members, self.leader_id);
                match found {
                    Some(i) => {
                        proof {
                            assert(is_member(self.group_config.members@, self.leader_id));
                        }
                        Some(self.group_config.members[i].endpoint.clone())
                    },
                    None => None,
                }
            },
        }
    }

    /// Forget what was learned and take the endpoints of the members.
    pub fn refresh_endpoint_cache(&mut self)
        ensures
            final(self).wf(),
            final(self).known() == endpoints_of(old(self).group_config.members@),
            final(self).group_config == old(self).group_config,
            final(self).leader_id == old(self).leader_id,
            final(self).my_id == old(self).my_id,
    {
        let mut cache: HashMap<PxNodeId, String> = HashMap::new();
        let ghost members = self.group_config.members@;
        let mut i: usize = 0;
        proof {
            assert(members.take(0) =~= Seq::empty());
            assert(cache@ =~= endpoints_of(members.take(0)));
        }
        while i < self.group_config.members.len()
            invariant
                i <= members.len(),
                members == self.group_config.members@,
                cache@ == endpoints_of(members.take(i as int)),
                forall|k: int|
                    0 <= k < i ==> cache@.contains_key((#[trigger] members[k]).node_id),
            decreases members.len() - i,
        {
            let m = &self.group_config.members[i];
            proof {
                assert(members.take(i + 1).drop_last() =~= members.take(i as int));
            }
            cache.insert(m.node_id, m.endpoint.clone());
            i = i + 1;
        }
        proof {
            assert(members.take(i as int) =~= members);
        }
        self.leader_endpoint_cache = match cache.get(&self.leader_id) {
            Some(e) => Some(e.clone()),
            None => None,
        };
        self.member_endpoint_cache = cache;
    }

    /// Learn the endpoint of a node. The first member with its id takes it too.
    /// Returns the endpoint that was known before.
    pub fn update_member_endpoint(&mut self, node_id: PxNodeId, endpoint: String) -> (previous:
        Option<String>)
        requires
            old(self).wf(),
        ensures
            final(self).wf(),
            previous == entry(old(self).known(), node_id),
            final(self).known() == old(self).known().insert(node_id, endpoint),
            final(self).leader_id == old(self).leader_id,
            final(self).my_id == old(self).my_id,
            final(self).group_config.members@ == if is_member(
                old(self).group_config.members@,
                node_id,
            ) {
                let i = choose|i: int| first_at(old(self).group_config.members@, node_id, i);
                let m = old(self).group_config.members@[i];
                old(self).group_config.members@.update(i, PxGroupMember { endpoint, ..m })
            } else {
                old(self).group_config.members@
            },
            final(self).group_config == (PxGroupConfig {
                members: final(self).group_config.members,
                ..old(self).group_config
            }),
    {
        let previous = self.member_endpoint_cache.insert(node_id, endpoint.clone());
        let ghost members = self.group_config.members@;
        let found = find_member(&self.group_config.members, node_id);
        if let Some(i) = found {
            proof {
                assert(members[i as int].node_id == node_id);
                let c = choose|c: int| first_at(members, node_id, c);
                assert(first_at(members, node_id, i as int));
                if c < i {
                    assert(members[c].node_id != node_id);
                } else if i < c {
                    assert(members[i as int].node_id != node_id);
                }
            }
            let m = PxGroupMember {
                node_id: self.group_config.members[i].node_id,
                endpoint: endpoint.clone(),
                voting: self.group_config.members[i].voting,
            };
            self.group_config.members.set(i, m);
            proof {
                let after = self.group_config.members@;
                assert forall|id: u64| #[trigger] is_member(after, id) implies is_member(
                    members,
                    id,
                ) by {
                    let k = choose|k: int|
                        0 <= k < after.len() && (#[trigger] after[k]).node_id == id;
                    assert(members[k].node_id == id);
                }
            }
        }
        if node_id == self.leader_id {
            self.leader_endpoint_cache = Some(endpoint);
        }
        previous
    }

    /// Take note of another leader.
    pub fn update_leader_id(&mut self, leader_id: PxNodeId)
        requires
            old(self).wf(),
        ensures
            final(self).wf(),
            final(self).leader_id == leader_id,
            final(self).known() == old(self).known(),
            final(self).group_config == old(self).group_config,
            final(self).my_id == old(self).my_id,
    {
        self.leader_id = leader_id;
        self.leader_endpoint_cache = match self.member_endpoint_cache.get(&leader_id) {
            Some(e) => Some(e.clone()),
            None => None,
        };
    }

    /// Endpoint of a node, if known: what was learned for it, else what the
    /// membership says.
    pub fn member_endpoint(&self, node_id: PxNodeId) -> (r: Option<&str>)
        requires
            self.wf(),
        ensures
            match (r, entry(self.known(), node_id)) {
                (Some(a), Some(b)) => a@ == b@,
                (None, None) => true,
                _ => false,
            },
    {
        match self.member_endpoint_cache.get(&node_id) {
            Some(e) => Some(e.as_str()),
            None => {
                let found = find_member(&self.group_config.members, node_id);
                match found {
                    Some(i) => {
                        proof {
                            assert(is_member(self.group_config.members@, node_id));
                        }
                        Some(self.group_config.members[i].endpoint.as_str())
                    },
                    None => None,
                }
            },
        }
    }
}

/// Of a new group with distinct ids, the endpoint of every member is known, and
/// it is the one in the membership.
pub proof fn members_are_reached_where_the_membership_says(members: Seq<PxGroupMember>, i: int)
    requires
        0 <= i < members.len(),
        forall|a: int, b: int|
            0 <= a < b < members.len() ==> (#[trigger] members[a]).node_id != (
            #[trigger] members[b]).node_id,
    ensures
        entry(endpoints_of(members), members[i].node_id) == Some(members[i].endpoint),
    decreases members.len(),
{
    let front = members.drop_last();
    if i < members.len() - 1 {
        assert(members[i].node_id != members[members.len() - 1].node_id);
        assert forall|a: int, b: int| 0 <= a < b < front.len() implies (
        #[trigger] front[a]).node_id != (#[trigger] front[b]).node_id by {
            assert(members[a].node_id != members[b].node_id);
        }
        members_are_reached_where_the_membership_says(front, i);
        assert(front[i] == members[i]);
    }
}

/// An endpoint is known at first for exactly the members of the membership; of
/// two members with one id the later counts.
pub proof fn endpoints_follow_the_membership(members: Seq<PxGroupMember>, node_id: u64)
    ensures
        endpoints_of(members).contains_key(node_id) <==> is_member(members, node_id),
        forall|i: int|
            0 <= i < members.len() && (#[trigger] members[i]).node_id == node_id && (forall|j: int|
                i < j < members.len() ==> (#[trigger] members[j]).node_id != node_id)
                ==> endpoints_of(members)[node_id] == members[i].endpoint,
    decreases members.len(),
{
    if members.len() > 0 {
        let front = members.drop_last();
        endpoints_follow_the_membership(front, node_id);
        assert(members[members.len() - 1] == members.last());
        assert forall|i: int| 0 <= i < front.len() implies front[i] == #[trigger] members[i] by {}
        if is_member(front, node_id) {
            let i = choose|i: int| 0 <= i < front.len() && (#[trigger] front[i]).node_id == node_id;
            assert(members[i].node_id == node_id);
        }
        if is_member(members, node_id) && members.last().node_id != node_id {
            let i = choose|i: int|
                0 <= i < members.len() && (#[trigger] members[i]).node_id == node_id;
            assert(front[i].node_id == node_id);
        }
        assert forall|i: int|
            0 <= i < members.len() && (#[trigger] members[i]).node_id == node_id && (forall|j: int|
                i < j < members.len() ==> (#[trigger] members[j]).node_id != node_id)
        implies endpoints_of(members)[node_id] == members[i].endpoint by {
            if i < front.len() {
                assert(members[members.len() - 1].node_id != node_id);
                assert(front[i].node_id == node_id);
                assert forall|j: int| i < j < front.len() implies (
                #[trigger] front[j]).node_id != node_id by {
                    assert(members[j].node_id != node_id);
                }
            }
        }
    }
}

} // verus!
