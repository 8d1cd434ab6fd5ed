//! Status, health and shutdown of a store.

use crate::cluster::group::PxGroup;
use crate::cluster::health::{HealthReport, HealthStatus};
use crate::cluster::px_kv_store::PxKvStore;
use crate::cluster::shutdown::ShutdownReport;
use crate::cluster::status::{GroupStatus, StatusLevel, StoreStatus};
use crate::common::text::{concat3, dec, decimal, extend_prefixed, prefixed, texts};
use vstd::prelude::*;

verus! {

/// What a listing of groups says of each of them.
#[derive(Clone, Copy, Debug, PartialEq, Eq, Structural)]
pub struct GroupSummary {
    pub group_id: u64,
    pub local_replica_id: u64,
    pub leader_id: u64,
    pub remote_count: usize,
}

/// The summary of a group.
pub open spec fn summary_of(g: PxGroup) -> GroupSummary {
    GroupSummary {
        group_id: g.group_id,
        local_replica_id: g.local_replica.id,
        leader_id: g.spec_leader_id(),
        remote_count: crate::cluster::group::real_remotes(g.remote_replicas@).len() as usize,
    }
}

/// `ids` lists the groups, each once.
pub open spec fn lists_groups(ids: Seq<u64>, groups: Map<u64, PxGroup>) -> bool {
    &&& ids.no_duplicates()
    &&& forall|id: u64| #[trigger] ids.contains(id) == groups.contains_key(id)
}

/// The worst of `start` and the levels of groups.
pub open spec fn worst_group_level(start: StatusLevel, s: Seq<GroupStatus>) -> StatusLevel
    decreases s.len(),
{
    if s.len() == 0 {
        start
    } else {
        StatusLevel::worst_of(worst_group_level(start, s.drop_last()), s.last().status)
    }
}

/// The messages of groups, each behind the group that it is about.
pub open spec fn all_group_messages(s: Seq<GroupStatus>) -> Seq<Seq<char>>
    decreases s.len(),
{
    if s.len() == 0 {
        Seq::empty()
    } else {
        all_group_messages(s.drop_last()) + prefixed(
            "group#"@ + dec(s.last().group_id as nat) + ": "@,
            texts(s.last().messages@),
        )
    }
}

/// Every group can be counted with its members.
pub open spec fn countable(groups: Map<u64, PxGroup>) -> bool {
    forall|id: u64| #[trigger]
        groups.contains_key(id) ==> groups[id].valid_replica_count < usize::MAX
}

/// Health that goes with a level of the status.
pub open spec fn level_health(level: StatusLevel) -> HealthStatus {
    match level {
        StatusLevel::Healthy => HealthStatus::Healthy,
        StatusLevel::Degraded => HealthStatus::Degraded,
        StatusLevel::Unhealthy => HealthStatus::Unhealthy,
    }
}

impl PxKvStore {
    /// Level of the store itself: it serves nothing before its start and after
    /// its shutdown.
    pub open spec fn own_level(&self) -> StatusLevel {
        if self.shutdown_started || !self.server_running {
            StatusLevel::Unhealthy
        } else {
            StatusLevel::Healthy
        }
    }

    /// Messages of the store itself.
    pub open spec fn own_messages(&self) -> Seq<Seq<char>> {
        if self.shutdown_started {
            seq!["kv store "@ + dec(self.store_id as nat) + " has been shut down"@]
        } else if !self.server_running {
            seq!["kv server is not running"@]
        } else {
            Seq::empty()
        }
    }

    /// `s` is the status of this store and all its groups, which are listed in
    /// any order.
    pub open spec fn reported_by(&self, s: StoreStatus) -> bool {
        &&& s.store_id == self.store_id
        &&& match (s.listen_addr, self.bound_addr) {
            (Some(a), Some(b)) => a@ == b@,
            (None, None) => true,
            _ => false,
        }
        &&& lists_groups(s.groups@.map_values(|g: GroupStatus| g.group_id), self.view_groups())
        &&& forall|i: int|
            0 <= i < s.groups.len() ==> self.view_groups()[s.groups[i].group_id].reported_by(
                #[trigger] s.groups[i],
            )
        &&& s.status == worst_group_level(self.own_level(), s.groups@)
        &&& texts(s.messages@) == self.own_messages() + all_group_messages(s.groups@)
    }

    fn own_state(&self) -> (r: HealthReport)
        ensures
            r.status == level_health(self.own_level()),
            texts(r.messages@) == self.own_messages(),
    {
        let r = if self.shutdown_started {
            let id: String = decimal(self.store_id);
            HealthReport::unhealthy(concat3("kv store ", id.as_str(), " has been shut down"))
        } else if !self.server_running {
            HealthReport::unhealthy("kv server is not running".to_owned())
        } else {
            HealthReport::ok()
        };
        proof {
            assert(texts(r.messages@) =~= self.own_messages());
        }
        r
    }

    /// Status of the store and all its groups.
    pub fn status(&mut self) -> (s: StoreStatus)
        requires
            old(self).wf(),
            countable(old(self).view_groups()),
        ensures
            final(self).wf(),
            *final(self) == (PxKvStore { groups: final(self).groups, ..*old(self) }),
            final(self).view_groups() == old(self).view_groups(),
            old(self).reported_by(s),
    {
        let own = self.own_state();
        let mut level = match own.status {
            HealthStatus::Healthy => StatusLevel::Healthy,
            HealthStatus::Degraded => StatusLevel::Degraded,
            HealthStatus::Unhealthy => StatusLevel::Unhealthy,
        };
        let mut messages = own.messages;
        let ids = self.group_ids();
        let mut groups: Vec<GroupStatus> = Vec::new();
        let ghost start = self.view_groups();
        let mut i: usize = 0;
        proof {
            assert(all_group_messages(groups@) =~= Seq::<Seq<char>>::empty());
            assert(texts(messages@) =~= old(self).own_messages() + all_group_messages(groups@));
        }
        while i < ids.len()
            invariant
                i <= ids.len(),
                groups.len() == i,
                start == old(self).view_groups(),
                countable(start),
                lists_groups(ids@, start),
                old(self).wf(),
                self.wf(),
                *self == (PxKvStore { groups: self.groups, ..*old(self) }),
                self.view_groups() == start,
                forall|k: int|
                    0 <= k < i ==> (#[trigger] groups[k]).group_id == ids[k]
                        && start[ids[k]].reported_by(groups[k]),
                level == worst_group_level(old(self).own_level(), groups@),
                texts(messages@) == old(self).own_messages() + all_group_messages(groups@),
            decreases ids.len() - i,
        {
            let id: u64 = ids[i];
            proof {
                assert(ids@.contains(id));
                assert(start.contains_key(id));
            }
            if let Some(group) = self.get_group(id) {
                let s = group.status();
                let ghost before = groups@;
                let ghost said = texts(messages@);
                self.put_group(group);
                proof {
                    assert(self.view_groups() =~= start);
                }
                level = StatusLevel::worst(level, s.status);
                let gid: String = decimal(s.group_id);
                let label: String = concat3("group#", gid.as_str(), ": ");
                extend_prefixed(&mut messages, label.as_str(), &s.messages);
                groups.push(s);
                proof {
                    assert(groups@.drop_last() =~= before);
                    assert(texts(messages@) =~= old(self).own_messages() + all_group_messages(
                        groups@,
                    ));
                }
            }
            i = i + 1;
        }
        proof {
            assert(groups@.map_values(|g: GroupStatus| g.group_id) =~= ids@);
        }
        StoreStatus {
            store_id: self.store_id,
            listen_addr: match &self.bound_addr {
                Some(a) => Some(a.clone()),
                None => None,
            },
            status: level,
            messages,
            groups,
        }
    }

    /// Health of the store: its status without the details.
    pub fn health(&mut self) -> (r: HealthReport)
        requires
            old(self).wf(),
            countable(old(self).view_groups()),
        ensures
            final(self).wf(),
            *final(self) == (PxKvStore { groups: final(self).groups, ..*old(self) }),
            final(self).view_groups() == old(self).view_groups(),
            exists|s: StoreStatus| #[trigger]
                old(self).reported_by(s) && r.status == level_health(s.status) && texts(r.messages@)
                    == texts(s.messages@),
    {
        let s = self.status();
        let ghost whole = s;
        let status = match s.status {
            StatusLevel::Healthy => HealthStatus::Healthy,
            StatusLevel::Degraded => HealthStatus::Degraded,
            StatusLevel::Unhealthy => HealthStatus::Unhealthy,
        };
        proof {
            assert(old(self).reported_by(whole));
        }
        HealthReport { status, messages: s.messages }
    }

    /// Number of groups.
    pub fn group_count(&self) -> (n: usize)
        ensures
            n == self.view_groups().dom().len(),
    {
        let ids = self.group_ids();
        proof {
            ids@.unique_seq_to_set();
            assert(ids@.to_set() =~= self.view_groups().dom()) by {
                assert forall|id: u64|
                    ids@.to_set().contains(id) == self.view_groups().dom().contains(id) by {
                    assert(ids@.contains(id) == self.view_groups().contains_key(id));
                }
            }
        }
        ids.len()
    }

    /// Summaries of all groups, in no particular order.
    pub fn group_summaries(&mut self) -> (r: Vec<GroupSummary>)
        requires
            old(self).wf(),
        ensures
            final(self).wf(),
            *final(self) == (PxKvStore { groups: final(self).groups, ..*old(self) }),
            final(self).view_groups() == old(self).view_groups(),
            lists_groups(
                r@.map_values(|s: GroupSummary| s.group_id),
                old(self).view_groups(),
            ),
            forall|i: int|
                0 <= i < r.len() ==> #[trigger] r[i] == summary_of(
                    old(self).view_groups()[r[i].group_id],
                ),
    {
        let ids = self.group_ids();
        let mut r: Vec<GroupSummary> = Vec::new();
        let ghost start = self.view_groups();
        let mut i: usize = 0;
        while i < ids.len()
            invariant
                i <= ids.len(),
                r.len() == i,
                start == old(self).view_groups(),
                lists_groups(ids@, start),
                self.wf(),
                *self == (PxKvStore { groups: self.groups, ..*old(self) }),
                self.view_groups() == start,
                forall|k: int|
                    0 <= k < i ==> #[trigger] r[k] == summary_of(start[ids[k]]) && r[k].group_id
                        == ids[k],
            decreases ids.len() - i,
        {
            let id: u64 = ids[i];
            proof {
                assert(ids@.contains(id));
                assert(start.contains_key(id));
            }
            if let Some(group) = self.get_group(id) {
                let remotes = group.remote_replica_info();
                r.push(
                    GroupSummary {
                        group_id: group.group_id,
                        local_replica_id: group.local_replica.id,
                        leader_id: group.leader_id(),
                        remote_count: remotes.len(),
                    },
                );
                self.put_group(group);
                proof {
                    assert(self.view_groups() =~= start);
                }
            }
            i = i + 1;
        }
        proof {
            assert(r@.map_values(|s: GroupSummary| s.group_id) =~= ids@);
        }
        r
    }

    /// Shut all groups down, behind the server, whose shutdown came to
    /// `server`. A second shutdown does nothing and reports nothing.
    pub fn shutdown(&mut self, server: Result<(), String>) -> (report: ShutdownReport)
        requires
            old(self).wf(),
        ensures
            final(self).wf(),
            if old(self).shutdown_started {
                &&& *final(self) == *old(self)
                &&& report.errors@ == Seq::<String>::empty()
            } else {
                &&& *final(self) == (PxKvStore {
                    groups: final(self).groups,
                    shutdown_started: true,
                    ..*old(self)
                })
                &&& final(self).view_groups().dom() == old(self).view_groups().dom()
                &&& forall|id: u64| #[trigger]
                    final(self).view_groups().contains_key(id) ==> old(
                        self,
                    ).view_groups()[id].shut_down_as(final(self).view_groups()[id])
                &&& report.errors@ == match server {
                    Ok(_) => Seq::<String>::empty(),
                    Err(e) => seq![e],
                }
            },
    {
        let mut report = ShutdownReport::new();
        if self.shutdown_started {
            return report;
        }
        self.shutdown_started = true;
        if let Err(e) = server {
            report.push_error(e);
        }
        let ghost errors = report.errors@;
        let ids = self.group_ids();
        let ghost start = self.view_groups();
        let mut i: usize = 0;
        while i < ids.len()
            invariant
                i <= ids.len(),
                start == old(self).view_groups(),
                lists_groups(ids@, start),
                self.wf(),
                *self == (PxKvStore { groups: self.groups, shutdown_started: true, ..*old(self) }),
                self.view_groups().dom() == start.dom(),
                report.errors@ == errors,
                forall|k: int|
                    0 <= k < i ==> start[#[trigger] ids[k]].shut_down_as(
                        self.view_groups()[ids[k]],
                    ),
                forall|k: int|
                    i <= k < ids.len() ==> start[#[trigger] ids[k]] == self.view_groups()[ids[k]],
            decreases ids.len() - i,
        {
            let id: u64 = ids[i];
            let ghost before = self.view_groups();
            proof {
                assert(ids@.contains(id));
                assert(start.contains_key(id));
                assert(before.dom().contains(id));
            }
            if let Some(mut group) = self.get_group(id) {
                let sub = group.shutdown();
                let ghost after = group;
                report.merge(sub);
                self.put_group(group);
                proof {
                    assert(self.view_groups() =~= before.insert(id, after));
                    assert(report.errors@ =~= errors);
                    assert(self.view_groups().dom() =~= start.dom());
                }
            }
            i = i + 1;
        }
        proof {
            assert forall|id: u64| #[trigger]
                self.view_groups().contains_key(id) implies start[id].shut_down_as(
                self.view_groups()[id],
            ) by {
                assert(start.contains_key(id));
                assert(ids@.contains(id));
                let k = ids@.index_of(id);
                assert(ids[k] == id);
            }
            assert(report.errors@ =~= match server {
                Ok(_) => Seq::<String>::empty(),
                Err(e) => seq![e],
            });
        }
        report
    }
}

proof fn lemma_worst_group_level(start: StatusLevel, s: Seq<GroupStatus>)
    ensures
        worst_group_level(start, s).rank() >= start.rank(),
        forall|i: int|
            0 <= i < s.len() ==> worst_group_level(start, s).rank() >= (
            #[trigger] s[i]).status.rank(),
        start is Healthy && (forall|i: int|
            0 <= i < s.len() ==> (#[trigger] s[i]).status is Healthy) ==> worst_group_level(
            start,
            s,
        ) is Healthy,
    decreases s.len(),
{
    if s.len() > 0 {
        lemma_worst_group_level(start, s.drop_last());
        assert forall|i: int| 0 <= i < s.len() implies worst_group_level(start, s).rank() >= (
        #[trigger] s[i]).status.rank() by {
            if i < s.len() - 1 {
                assert(s.drop_last()[i] == s[i]);
            }
        }
        if forall|i: int| 0 <= i < s.len() ==> (#[trigger] s[i]).status is Healthy {
            assert forall|i: int| 0 <= i < s.drop_last().len() implies (
            #[trigger] s.drop_last()[i]).status is Healthy by {
                assert(s[i].status is Healthy);
            }
            assert(s[s.len() - 1].status is Healthy);
        }
    }
}

/// A store that has not started, or was shut down, reports itself unhealthy,
/// whatever its groups report, and says so in its first message. A store is
/// never reported better than one of its groups. One that serves is reported
/// healthy if all its groups are.
pub proof fn store_is_as_healthy_as_its_worst_part(store: PxKvStore, s: StoreStatus, id: u64)
    requires
        store.reported_by(s),
        store.view_groups().contains_key(id),
    ensures
        store.shutdown_started || !store.server_running ==> s.status is Unhealthy
            && texts(s.messages@)[0] == store.own_messages()[0],
        s.status.rank() >= store.view_groups()[id].level().rank(),
        !store.shutdown_started && store.server_running && (forall|g: u64| #[trigger]
            store.view_groups().contains_key(g) ==> store.view_groups()[g].level() is Healthy)
            ==> s.status is Healthy,
{
    lemma_worst_group_level(store.own_level(), s.groups@);
    let ids = s.groups@.map_values(|g: GroupStatus| g.group_id);
    assert(ids.contains(id));
    let k = ids.index_of(id);
    assert(s.groups[k].group_id == id);
    assert(store.view_groups()[s.groups[k].group_id].reported_by(s.groups[k]));
    if forall|g: u64| #[trigger]
        store.view_groups().contains_key(g) ==> store.view_groups()[g].level() is Healthy {
        assert forall|i: int| 0 <= i < s.groups@.len() implies (
        #[trigger] s.groups@[i]).status is Healthy by {
            assert(ids[i] == s.groups[i].group_id);
            assert(ids.contains(ids[i]));
            assert(store.view_groups().contains_key(s.groups[i].group_id));
            assert(store.view_groups()[s.groups[i].group_id].reported_by(s.groups[i]));
        }
    }
}

/// Health and status agree: each level has a state of its own name, and a level
/// that is not better has a state that is not better.
pub proof fn health_follows_the_level(a: StatusLevel, b: StatusLevel)
    ensures
        level_health(a) is Healthy <==> a is Healthy,
        level_health(a) is Unhealthy <==> a is Unhealthy,
        a.rank() <= b.rank() ==> level_health(a).rank() <= level_health(b).rank(),
{
}

} // verus!
