//! A store: the groups that one node serves under one address.

use crate::cluster::coalescer::slot_left;
use crate::cluster::group::PxGroup;
use crate::cluster::group_table::{
    table_contains, table_groups, table_ids, table_insert, table_new, table_remove,
};
use crate::cluster::kv_store::{
    item_ops, missing_group, plain_response, starts_as, write_response, write_started, KvBatchItem,
    KvResponse, KvScanItem, KvScanResponse, KvStore, WriteStart,
};
use crate::cluster::local_replica::PxLocalReplica;
use crate::cluster::proposal::{ProposeResult, ProposeStart};
use crate::common::config::optional_u64;
use crate::common::wire::copy_bytes;
use crate::engine::op::{op_bytes, ops_bytes, ops_bytes_concatenate, payload_bytes, put_op, OpView};
use crate::engine::store_engine::{items_view, live_matches, Engine};
use dashmap::DashMap;
use vstd::prelude::*;

verus! {

/// A store and its groups.
pub struct PxKvStore {
    pub store_id: u64,
    pub groups: DashMap<u64, PxGroup>,
    /// Address that the store is to listen on.
    pub listen_addr: String,
    /// Address that the store listens on, once its server runs.
    pub bound_addr: Option<String>,
    /// The server's task runs.
    pub server_running: bool,
    /// The server's task can still be told to stop.
    pub stop_pending: bool,
    pub shutdown_started: bool,
}

/// `g` with the address that its store is bound to.
pub open spec fn at_endpoint(g: PxGroup, addr: String) -> PxGroup {
    PxGroup {
        local_replica: PxLocalReplica { own_endpoint: Some(addr), ..g.local_replica },
        ..g
    }
}

/// An operation to encode: the value to put, or none to delete.
pub open spec fn kv_op(op: (Vec<u8>, Option<Vec<u8>>)) -> OpView {
    (
        op.0@,
        match op.1 {
            Some(v) => Some(v@),
            None => None,
        },
    )
}

/// Operations to encode.
pub open spec fn kv_ops(ops: Seq<(Vec<u8>, Option<Vec<u8>>)>) -> Seq<OpView> {
    ops.map_values(|o: (Vec<u8>, Option<Vec<u8>>)| kv_op(o))
}

/// The payload of operations.
pub fn encode_kv_payload(ops: &Vec<(Vec<u8>, Option<Vec<u8>>)>) -> (buf: Vec<u8>)
    ensures
        buf@ == payload_bytes(kv_ops(ops@)),
{
    let ghost views = kv_ops(ops@);
    let mut buf: Vec<u8> = Vec::new();
    let count: u8 = (ops.len() % 256) as u8;
    buf.push(count);
    let mut i: usize = 0;
    proof {
        assert(views.take(0) =~= Seq::empty());
        assert(buf@ =~= seq![count] + ops_bytes(views.take(0)));
    }
    while i < ops.len()
        invariant
            i <= ops.len(),
            views == kv_ops(ops@),
            buf@ == seq![count] + ops_bytes(views.take(i as int)),
        decreases ops.len() - i,
    {
        let ghost before = buf@;
        put_op(&mut buf, &ops[i].0, ops[i].1.as_ref());
        proof {
            lemma_append_op(views, i as int);
            assert(buf@ =~= before + op_bytes(views[i as int]));
            assert(buf@ =~= seq![count] + ops_bytes(views.take(i + 1)));
        }
        i = i + 1;
    }
    proof {
        assert(views.take(i as int) =~= views);
    }
    buf
}

proof fn lemma_append_op(views: Seq<OpView>, i: int)
    requires
        0 <= i < views.len(),
    ensures
        ops_bytes(views.take(i + 1)) == ops_bytes(views.take(i)) + op_bytes(views[i]),
{
    let one = seq![views[i]];
    assert(views.take(i + 1) =~= views.take(i) + one);
    ops_bytes_concatenate(views.take(i), one);
    assert(one.drop_first() =~= Seq::<OpView>::empty());
    assert(ops_bytes(one) =~= op_bytes(views[i])) by {
        reveal_with_fuel(ops_bytes, 2);
    }
}

/// The payload of a batch write.
pub fn encode_kv_batch_items(items: &Vec<KvBatchItem>) -> (buf: Vec<u8>)
    ensures
        buf@ == payload_bytes(item_ops(items@)),
{
    let ghost views = item_ops(items@);
    let mut buf: Vec<u8> = Vec::new();
    let count: u8 = (items.len() % 256) as u8;
    buf.push(count);
    let mut i: usize = 0;
    proof {
        assert(views.take(0) =~= Seq::empty());
        assert(buf@ =~= seq![count] + ops_bytes(views.take(0)));
    }
    while i < items.len()
        invariant
            i <= items.len(),
            views == item_ops(items@),
            buf@ == seq![count] + ops_bytes(views.take(i as int)),
        decreases items.len() - i,
    {
        let ghost before = buf@;
        let item = &items[i];
        if item.is_delete {
            put_op(&mut buf, &item.key, None);
        } else {
            put_op(&mut buf, &item.key, Some(&item.value));
        }
        proof {
            lemma_append_op(views, i as int);
            assert(buf@ =~= before + op_bytes(views[i as int]));
            assert(buf@ =~= seq![count] + ops_bytes(views.take(i + 1)));
        }
        i = i + 1;
    }
    proof {
        assert(views.take(i as int) =~= views);
    }
    buf
}

/// The answer to a request for a group that the store does not have.
pub fn missing_group_response(request_id: u64, request_create_ms: u64) -> (r: KvResponse)
    ensures
        r@ == plain_response(
            false,
            0,
            missing_group(),
            Seq::empty(),
            request_id,
            request_create_ms,
        ),
{
    let r = KvResponse {
        version: 1,
        ok: false,
        revision: 0,
        error: "no kv group configured for request group_id".to_owned(),
        not_found: false,
        not_leader_hint: String::new(),
        request_id,
        request_create_ms,
        value: Vec::new(),
    };
    proof {
        assert(r.not_leader_hint@ =~= Seq::empty());
        assert(r.value@ =~= Seq::empty());
    }
    r
}

/// The answer to a write whose proposal came to `result`.
pub fn respond(result: ProposeResult, request_id: u64, request_create_ms: u64) -> (r: KvResponse)
    ensures
        r@ == write_response(result@, request_id, request_create_ms),
{
    let ghost view = result@;
    let (ok, revision, error, not_leader_hint): (bool, u64, String, String) = match result {
        ProposeResult::Chosen { slot } => (true, slot, String::new(), String::new()),
        ProposeResult::NotLeader { leader_hint } => (
            false,
            0,
            "not leader".to_owned(),
            leader_hint,
        ),
        ProposeResult::Busy => (false, 0, "busy".to_owned(), String::new()),
        ProposeResult::Failed(msg) => (false, 0, msg, String::new()),
    };
    let r = KvResponse {
        version: 1,
        ok,
        revision,
        error,
        not_found: false,
        not_leader_hint,
        request_id,
        request_create_ms,
        value: Vec::new(),
    };
    proof {
        assert(r.value@ =~= Seq::empty());
        assert(r@.error =~= write_response(view, request_id, request_create_ms).error);
        assert(r@.not_leader_hint =~= write_response(
            view,
            request_id,
            request_create_ms,
        ).not_leader_hint);
    }
    r
}

impl PxKvStore {
    /// The groups of this store, by id.
    pub open spec fn view_groups(&self) -> Map<u64, PxGroup> {
        table_groups(self.groups)
    }

    /// Every group is well-formed and stands under its own id.
    pub open spec fn wf(&self) -> bool {
        forall|id: u64| #[trigger]
            self.view_groups().contains_key(id) ==> self.view_groups()[id].wf()
                && self.view_groups()[id].group_id == id
    }

    /// A store without groups whose server does not run.
    pub fn new(store_id: u64, listen_addr: String) -> (s: Self)
        ensures
            s.wf(),
            s.store_id == store_id,
            s.listen_addr == listen_addr,
            s.view_groups() == Map::<u64, PxGroup>::empty(),
            s.bound_addr is None,
            !s.server_running,
            !s.stop_pending,
            !s.shutdown_started,
    {
        let groups = table_new();
        proof {
            assert(table_groups(groups) =~= Map::<u64, PxGroup>::empty());
        }
        PxKvStore {
            store_id,
            groups,
            listen_addr,
            bound_addr: None,
            server_running: false,
            stop_pending: false,
            shutdown_started: false,
        }
    }

    /// Add a group, in place of one with the same id. If the server runs, the
    /// group's local replica learns the address.
    pub fn add_group(&mut self, group: PxGroup)
        requires
            old(self).wf(),
            group.wf(),
        ensures
            final(self).wf(),
            final(self).view_groups() == old(self).view_groups().insert(
                group.group_id,
                match old(self).bound_addr {
                    Some(a) => at_endpoint(group, a),
                    None => group,
                },
            ),
            *final(self) == (PxKvStore { groups: final(self).groups, ..*old(self) }),
    {
        let mut group = group;
        if let Some(addr) = &self.bound_addr {
            group.local_replica.set_endpoint(addr.clone());
        }
        let id: u64 = group.group_id;
        table_insert(&mut self.groups, id, group);
    }

    /// Whether the store has the group.
    pub fn has_group(&self, group_id: u64) -> (r: bool)
        ensures
            r == self.view_groups().contains_key(group_id),
    {
        table_contains(&self.groups, group_id)
    }

    /// Ids of all groups, each once, in no particular order.
    pub fn group_ids(&self) -> (ids: Vec<u64>)
        ensures
            ids@.no_duplicates(),
            forall|id: u64| #[trigger] ids@.contains(id) == self.view_groups().contains_key(id),
    {
        table_ids(&self.groups)
    }

    /// Check a group out of the store. `put_group` puts it back.
    pub fn get_group(&mut self, group_id: u64) -> (r: Option<PxGroup>)
        requires
            old(self).wf(),
        ensures
            final(self).wf(),
            final(self).view_groups() == old(self).view_groups().remove(group_id),
            r == if old(self).view_groups().contains_key(group_id) {
                Some(old(self).view_groups()[group_id])
            } else {
                None::<PxGroup>
            },
            r matches Some(g) ==> g.wf() && g.group_id == group_id,
            *final(self) == (PxKvStore { groups: final(self).groups, ..*old(self) }),
    {
        table_remove(&mut self.groups, group_id)
    }

    /// Put a group back that was checked out.
    pub fn put_group(&mut self, group: PxGroup)
        requires
            old(self).wf(),
            group.wf(),
        ensures
            final(self).wf(),
            final(self).view_groups() == old(self).view_groups().insert(group.group_id, group),
            *final(self) == (PxKvStore { groups: final(self).groups, ..*old(self) }),
    {
        let id: u64 = group.group_id;
        table_insert(&mut self.groups, id, group);
    }

    /// Remove a group. Returns whether there was one.
    pub fn remove_group(&mut self, group_id: u64) -> (removed: bool)
        requires
            old(self).wf(),
        ensures
            final(self).wf(),
            removed == old(self).view_groups().contains_key(group_id),
            final(self).view_groups() == old(self).view_groups().remove(group_id),
            *final(self) == (PxKvStore { groups: final(self).groups, ..*old(self) }),
    {
        self.get_group(group_id).is_some()
    }

    /// Propose a write to its group. Without the group it is answered at once;
    /// a proposal that is over at once is answered with its result.
    pub fn propose_and_respond(
        &mut self,
        group_id: u64,
        payload: Vec<u8>,
        client_id: Option<u64>,
        seq: Option<u64>,
        request_id: u64,
        request_create_ms: u64,
    ) -> (r: WriteStart)
        requires
            old(self).wf(),
            old(self).view_groups().contains_key(group_id) ==> slot_left(
                old(self).view_groups()[group_id],
                client_id,
                seq,
            ),
        ensures
            final(self).wf(),
            *final(self) == (PxKvStore { groups: final(self).groups, ..*old(self) }),
            write_started(
                old(self).view_groups(),
                final(self).view_groups(),
                group_id,
                payload@,
                client_id,
                seq,
                request_id,
                request_create_ms,
                r,
            ),
    {
        let mut group = match self.get_group(group_id) {
            Some(g) => g,
            None => {
                proof {
                    assert(self.view_groups() =~= old(self).view_groups());
                }
                return WriteStart::Answered(missing_group_response(request_id, request_create_ms));
            },
        };
        let start = group.propose(payload, client_id, seq);
        let ghost after = group;
        let ghost begun = start;
        self.put_group(group);
        proof {
            assert(self.view_groups() =~= old(self).view_groups().insert(group_id, after));
        }
        let r = match start {
            ProposeStart::Finished(result) => WriteStart::Answered(
                respond(result, request_id, request_create_ms),
            ),
            other => WriteStart::Proposed(other),
        };
        proof {
            assert(starts_as(begun, r, request_id, request_create_ms));
        }
        r
    }
}

impl KvStore for PxKvStore {
    open spec fn served_groups(&self) -> Map<u64, PxGroup> {
        self.view_groups()
    }

    open spec fn serves(&self) -> bool {
        self.wf()
    }

    fn kv_get(
        &mut self,
        group_id: u64,
        key: &Vec<u8>,
        request_id: u64,
        request_create_ms: u64,
    ) -> (r: KvResponse)
        ensures
            *final(self) == (PxKvStore { groups: final(self).groups, ..*old(self) }),
    {
        let group = match self.get_group(group_id) {
            Some(g) => g,
            None => {
                proof {
                    assert(self.view_groups() =~= old(self).view_groups());
                }
                return missing_group_response(request_id, request_create_ms);
            },
        };
        let found = group.local_replica.learner.get(key.as_slice());
        self.put_group(group);
        proof {
            assert(self.view_groups() =~= old(self).view_groups());
        }
        let (ok, not_found, value): (bool, bool, Vec<u8>) = match found {
            Some((_slot, v)) => (true, false, v),
            None => (false, true, Vec::new()),
        };
        let r = KvResponse {
            version: 1,
            ok,
            revision: 0,
            error: String::new(),
            not_found,
            not_leader_hint: String::new(),
            request_id,
            request_create_ms,
            value,
        };
        proof {
            assert(r.error@ =~= Seq::empty());
            assert(r.not_leader_hint@ =~= Seq::empty());
            if not_found {
                assert(r.value@ =~= Seq::empty());
            }
        }
        r
    }

    fn kv_put(
        &mut self,
        group_id: u64,
        key: Vec<u8>,
        value: Vec<u8>,
        client_id: u64,
        seq: u64,
        request_id: u64,
        request_create_ms: u64,
    ) -> (r: WriteStart)
        ensures
            *final(self) == (PxKvStore { groups: final(self).groups, ..*old(self) }),
    {
        let ghost op: OpView = (key@, Some(value@));
        let ops: Vec<(Vec<u8>, Option<Vec<u8>>)> = vec![(key, Some(value))];
        let payload: Vec<u8> = encode_kv_payload(&ops);
        proof {
            assert(kv_ops(ops@) =~= seq![op]);
        }
        self.propose_and_respond(
            group_id,
            payload,
            optional_u64(client_id),
            Some(seq),
            request_id,
            request_create_ms,
        )
    }

    fn kv_delete(
        &mut self,
        group_id: u64,
        key: Vec<u8>,
        client_id: u64,
        seq: u64,
        request_id: u64,
        request_create_ms: u64,
    ) -> (r: WriteStart)
        ensures
            *final(self) == (PxKvStore { groups: final(self).groups, ..*old(self) }),
    {
        let ghost op: OpView = (key@, None);
        let ops: Vec<(Vec<u8>, Option<Vec<u8>>)> = vec![(key, None)];
        let payload: Vec<u8> = encode_kv_payload(&ops);
        proof {
            assert(kv_ops(ops@) =~= seq![op]);
        }
        self.propose_and_respond(
            group_id,
            payload,
            optional_u64(client_id),
            Some(seq),
            request_id,
            request_create_ms,
        )
    }

    fn kv_batch_write(
        &mut self,
        group_id: u64,
        items: &Vec<KvBatchItem>,
        client_id: u64,
        seq: u64,
        request_id: u64,
        request_create_ms: u64,
    ) -> (r: WriteStart)
        ensures
            *final(self) == (PxKvStore { groups: final(self).groups, ..*old(self) }),
    {
        let payload: Vec<u8> = encode_kv_batch_items(items);
        self.propose_and_respond(
            group_id,
            payload,
            optional_u64(client_id),
            Some(seq),
            request_id,
            request_create_ms,
        )
    }

    fn kv_scan(
        &mut self,
        group_id: u64,
        prefix: &Vec<u8>,
        limit: u32,
        request_id: u64,
        request_create_ms: u64,
    ) -> (r: KvScanResponse)
        ensures
            *final(self) == (PxKvStore { groups: final(self).groups, ..*old(self) }),
    {
        let group = match self.get_group(group_id) {
            Some(g) => g,
            None => {
                proof {
                    assert(self.view_groups() =~= old(self).view_groups());
                }
                return KvScanResponse {
                    version: 1,
                    ok: false,
                    error: "no kv group configured for request group_id".to_owned(),
                    items: Vec::new(),
                    truncated: false,
                    request_id,
                    request_create_ms,
                };
            },
        };
        proof {
            group.local_replica.learner.lemma_frontier();
        }
        let (found, truncated) = group.local_replica.learner.engine().scan(
            prefix.as_slice(),
            limit as usize,
        );
        let ghost all = live_matches(group.local_replica.learner.entries(), prefix@);
        let ghost view = items_view(found@);
        self.put_group(group);
        proof {
            assert(self.view_groups() =~= old(self).view_groups());
        }
        let mut items: Vec<KvScanItem> = Vec::new();
        let mut i: usize = 0;
        while i < found.len()
            invariant
                i <= found.len(),
                items.len() == i,
                view == items_view(found@),
                forall|k: int|
                    0 <= k < i ==> (#[trigger] items[k]).key@ == view[k].0 && items[k].value@
                        == view[k].2,
            decreases found.len() - i,
        {
            items.push(
                KvScanItem { key: copy_bytes(&found[i].0), value: copy_bytes(&found[i].2) },
            );
            i = i + 1;
        }
        let error: String = String::new();
        proof {
            assert(error@ =~= Seq::empty());
            assert(view.len() == found.len());
            assert(forall|k: int| 0 <= k < view.len() ==> #[trigger] view[k] == all[k]);
        }
        KvScanResponse {
            version: 1,
            ok: true,
            error,
            items,
            truncated,
            request_id,
            request_create_ms,
        }
    }
}

} // verus!
