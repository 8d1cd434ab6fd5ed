//! Key-value requests and responses, and the surface that serves them.

use crate::cluster::coalescer::{proposed, slot_left};
use crate::cluster::group::PxGroup;
use crate::cluster::proposal::{ProposeResultView, ProposeStart};
use crate::common::config::spec_optional_u64;
use crate::engine::key_order::key_before;
use crate::engine::op::{op_fits, payload_bytes, payload_reads_back, CellView, OpView};
use crate::engine::store_engine::{
    apply_is_read_back, keys_sorted, last_op, last_operation_on_a_key_counts, live_matches, lookup,
    scan_finds_the_live_keys_with_the_prefix, scan_is_in_key_order,
};
use crate::paxos::learner::learned;
use crate::paxos::roles::{DedupTag, PxLogEntry};
use vstd::prelude::*;

verus! {

/// One operation of a batch write.
#[derive(Debug)]
pub struct KvBatchItem {
    pub key: Vec<u8>,
    pub value: Vec<u8>,
    pub is_delete: bool,
}

/// An item of a batch write as an operation.
pub open spec fn item_op(item: KvBatchItem) -> OpView {
    (
        item.key@,
        if item.is_delete {
            None
        } else {
            Some(item.value@)
        },
    )
}

/// The items of a batch write as operations.
pub open spec fn item_ops(items: Seq<KvBatchItem>) -> Seq<OpView> {
    items.map_values(|i: KvBatchItem| item_op(i))
}

/// The answer to a read or a write.
#[derive(Debug)]
pub struct KvResponse {
    pub version: u32,
    pub ok: bool,
    pub revision: u64,
    pub error: String,
    pub not_found: bool,
    pub not_leader_hint: String,
    pub request_id: u64,
    pub request_create_ms: u64,
    pub value: Vec<u8>,
}

/// What an answer says.
pub struct KvResponseView {
    pub version: u32,
    pub ok: bool,
    pub revision: u64,
    pub error: Seq<char>,
    pub not_found: bool,
    pub not_leader_hint: Seq<char>,
    pub request_id: u64,
    pub request_create_ms: u64,
    pub value: Seq<u8>,
}

impl View for KvResponse {
    type V = KvResponseView;

    open spec fn view(&self) -> KvResponseView {
        KvResponseView {
            version: self.version,
            ok: self.ok,
            revision: self.revision,
            error: self.error@,
            not_found: self.not_found,
            not_leader_hint: self.not_leader_hint@,
            request_id: self.request_id,
            request_create_ms: self.request_create_ms,
            value: self.value@,
        }
    }
}

/// A key with its value.
#[derive(Debug)]
pub struct KvScanItem {
    pub key: Vec<u8>,
    pub value: Vec<u8>,
}

/// The answer to a scan.
#[derive(Debug)]
pub struct KvScanResponse {
    pub version: u32,
    pub ok: bool,
    pub error: String,
    pub items: Vec<KvScanItem>,
    /// More keys match than were returned.
    pub truncated: bool,
    pub request_id: u64,
    pub request_create_ms: u64,
}

/// How a write starts: on its way to a slot, or answered already.
#[derive(Debug)]
pub enum WriteStart {
    Proposed(ProposeStart),
    Answered(KvResponse),
}

/// An answer that says no more than its status.
pub open spec fn plain_response(
    ok: bool,
    revision: u64,
    error: Seq<char>,
    not_leader_hint: Seq<char>,
    request_id: u64,
    request_create_ms: u64,
) -> KvResponseView {
    KvResponseView {
        version: 1,
        ok,
        revision,
        error,
        not_found: false,
        not_leader_hint,
        request_id,
        request_create_ms,
        value: Seq::empty(),
    }
}

/// Error of a request for a group that the store does not have.
pub open spec fn missing_group() -> Seq<char> {
    "no kv group configured for request group_id"@
}

/// The answer to a read of `key`: the value that the local replica of the
/// group holds, or that there is none.
pub open spec fn get_response(
    groups: Map<u64, PxGroup>,
    group_id: u64,
    key: Seq<u8>,
    request_id: u64,
    request_create_ms: u64,
) -> KvResponseView {
    if !groups.contains_key(group_id) {
        plain_response(
            false,
            0,
            missing_group(),
            Seq::empty(),
            request_id,
            request_create_ms,
        )
    } else {
        let plain = plain_response(
            false,
            0,
            Seq::empty(),
            Seq::empty(),
            request_id,
            request_create_ms,
        );
        match lookup(groups[group_id].local_replica.learner.entries(), key) {
            Some((_, Some(v))) => KvResponseView { ok: true, value: v, ..plain },
            _ => KvResponseView { not_found: true, ..plain },
        }
    }
}

/// The answer to a write whose proposal came to `result`.
pub open spec fn write_response(
    result: ProposeResultView,
    request_id: u64,
    request_create_ms: u64,
) -> KvResponseView {
    match result {
        ProposeResultView::Chosen { slot } => plain_response(
            true,
            slot,
            Seq::empty(),
            Seq::empty(),
            request_id,
            request_create_ms,
        ),
        ProposeResultView::NotLeader { leader_hint } => plain_response(
            false,
            0,
            "not leader"@,
            leader_hint,
            request_id,
            request_create_ms,
        ),
        ProposeResultView::Busy => plain_response(
            false,
            0,
            "busy"@,
            Seq::empty(),
            request_id,
            request_create_ms,
        ),
        ProposeResultView::Failed(msg) => plain_response(
            false,
            0,
            msg,
            Seq::empty(),
            request_id,
            request_create_ms,
        ),
    }
}

/// A write whose proposal starts with `start` starts with `r`: a proposal that
/// is over is answered with its result.
pub open spec fn starts_as(
    start: ProposeStart,
    r: WriteStart,
    request_id: u64,
    request_create_ms: u64,
) -> bool {
    match (start, r) {
        (ProposeStart::Finished(result), WriteStart::Answered(a)) => a@ == write_response(
            result@,
            request_id,
            request_create_ms,
        ),
        (ProposeStart::Finished(_), WriteStart::Proposed(_)) => false,
        (_, WriteStart::Answered(_)) => false,
        (start, WriteStart::Proposed(s)) => s == start,
    }
}

/// What a write of `payload` does to the groups of a store and how it starts.
/// Only the group of the request changes, in the way that a proposal changes
/// it.
pub open spec fn write_started(
    before: Map<u64, PxGroup>,
    after: Map<u64, PxGroup>,
    group_id: u64,
    payload: Seq<u8>,
    client_id: Option<u64>,
    seq: Option<u64>,
    request_id: u64,
    request_create_ms: u64,
    r: WriteStart,
) -> bool {
    if !before.contains_key(group_id) {
        &&& after == before
        &&& r matches WriteStart::Answered(a) && a@ == plain_response(
            false,
            0,
            missing_group(),
            Seq::empty(),
            request_id,
            request_create_ms,
        )
    } else {
        &&& after.contains_key(group_id)
        &&& after == before.insert(group_id, after[group_id])
        &&& exists|start: ProposeStart| #[trigger]
            starts_as(start, r, request_id, request_create_ms) && proposed(
                before[group_id],
                after[group_id],
                payload,
                client_id,
                seq,
                start,
            )
    }
}

/// The answer to a scan: the live keys that start with `prefix`, in key order,
/// at most `limit` of them unless `limit` is `0`.
pub open spec fn scanned(
    groups: Map<u64, PxGroup>,
    group_id: u64,
    prefix: Seq<u8>,
    limit: u32,
    request_id: u64,
    request_create_ms: u64,
    r: KvScanResponse,
) -> bool {
    &&& r.version == 1
    &&& r.request_id == request_id
    &&& r.request_create_ms == request_create_ms
    &&& r.ok == groups.contains_key(group_id)
    &&& if r.ok {
        let all = live_matches(groups[group_id].local_replica.learner.entries(), prefix);
        &&& r.error@ == Seq::<char>::empty()
        &&& r.truncated == (limit != 0 && all.len() > limit)
        &&& r.items.len() == if r.truncated {
            limit as nat
        } else {
            all.len()
        }
        &&& forall|i: int|
            0 <= i < r.items.len() ==> (#[trigger] r.items[i]).key@ == all[i].0
                && r.items[i].value@ == all[i].2
    } else {
        &&& r.error@ == missing_group()
        &&& !r.truncated
        &&& r.items.len() == 0
    }
}

/// Key-value surface of a store.
///
/// Reads are answered by the local replica of the group and may be behind what
/// the group has chosen. Writes go through a proposal.
pub trait KvStore: Sized {
    /// The groups of the store, by id.
    spec fn served_groups(&self) -> Map<u64, PxGroup>;

    /// The store is well-formed.
    spec fn serves(&self) -> bool;

    /// Read a key.
    fn kv_get(
        &mut self,
        group_id: u64,
        key: &Vec<u8>,
        request_id: u64,
        request_create_ms: u64,
    ) -> (r: KvResponse)
        requires
            old(self).serves(),
        ensures
            final(self).serves(),
            final(self).served_groups() == old(self).served_groups(),
            r@ == get_response(
                old(self).served_groups(),
                group_id,
                key@,
                request_id,
                request_create_ms,
            ),
    ;

    /// Write a value.
    fn kv_put(
        &mut self,
        group_id: u64,
        key: Vec<u8>,
        value: Vec<u8>,
        client_id: u64,
        seq: u64,
        request_id: u64,
        request_create_ms: u64,
    ) -> (r: WriteStart)
        requires
            old(self).serves(),
            old(self).served_groups().contains_key(group_id) ==> slot_left(
                old(self).served_groups()[group_id],
                spec_optional_u64(client_id),
                Some(seq),
            ),
        ensures
            final(self).serves(),
            write_started(
                old(self).served_groups(),
                final(self).served_groups(),
                group_id,
                payload_bytes(seq![(key@, Some(value@))]),
                spec_optional_u64(client_id),
                Some(seq),
                request_id,
                request_create_ms,
                r,
            ),
    ;

    /// Delete a key.
    fn kv_delete(
        &mut self,
        group_id: u64,
        key: Vec<u8>,
        client_id: u64,
        seq: u64,
        request_id: u64,
        request_create_ms: u64,
    ) -> (r: WriteStart)
        requires
            old(self).serves(),
            old(self).served_groups().contains_key(group_id) ==> slot_left(
                old(self).served_groups()[group_id],
                spec_optional_u64(client_id),
                Some(seq),
            ),
        ensures
            final(self).serves(),
            write_started(
                old(self).served_groups(),
                final(self).served_groups(),
                group_id,
                payload_bytes(seq![(key@, None)]),
                spec_optional_u64(client_id),
                Some(seq),
                request_id,
                request_create_ms,
                r,
            ),
    ;

    /// Write a batch.
    fn kv_batch_write(
        &mut self,
        group_id: u64,
        items: &Vec<KvBatchItem>,
        client_id: u64,
        seq: u64,
        request_id: u64,
        request_create_ms: u64,
    ) -> (r: WriteStart)
        requires
            old(self).serves(),
            old(self).served_groups().contains_key(group_id) ==> slot_left(
                old(self).served_groups()[group_id],
                spec_optional_u64(client_id),
                Some(seq),
            ),
        ensures
            final(self).serves(),
            write_started(
                old(self).served_groups(),
                final(self).served_groups(),
                group_id,
                payload_bytes(item_ops(items@)),
                spec_optional_u64(client_id),
                Some(seq),
                request_id,
                request_create_ms,
                r,
            ),
    ;

    /// Read the keys that start with `prefix`, at most `limit` of them (`0`
    /// for all).
    fn kv_scan(
        &mut self,
        group_id: u64,
        prefix: &Vec<u8>,
        limit: u32,
        request_id: u64,
        request_create_ms: u64,
    ) -> (r: KvScanResponse)
        requires
            old(self).serves(),
        ensures
            final(self).serves(),
            final(self).served_groups() == old(self).served_groups(),
            scanned(
                old(self).served_groups(),
                group_id,
                prefix@,
                limit,
                request_id,
                request_create_ms,
                r,
            ),
    ;
}

// ── Laws of reads and writes ─────────────────────────────────────
/// The answer to a read that finds `cell`.
pub open spec fn answer_of(cell: CellView, request_id: u64, request_create_ms: u64) -> KvResponseView {
    let plain = plain_response(
        false,
        0,
        Seq::empty(),
        Seq::empty(),
        request_id,
        request_create_ms,
    );
    match cell {
        Some(v) => KvResponseView { ok: true, value: v, ..plain },
        None => KvResponseView { not_found: true, ..plain },
    }
}

/// A batch that is chosen is what reads give back: once a replica has learned
/// it, a read of a key gives what the last operation of the batch on that key
/// wrote, or that it is gone if that operation deleted it, unless the key was
/// written at that slot or a later one before. Keys that the batch does not
/// mention read as before.
pub proof fn chosen_batch_is_read_back(
    before: Map<u64, PxGroup>,
    after: Map<u64, PxGroup>,
    group_id: u64,
    ops: Seq<OpView>,
    entry: PxLogEntry,
    tags: Seq<DedupTag>,
    key: Seq<u8>,
    request_id: u64,
    request_create_ms: u64,
)
    requires
        before.contains_key(group_id),
        after.contains_key(group_id),
        learned(
            before[group_id].local_replica.learner,
            after[group_id].local_replica.learner,
            entry,
            tags,
        ),
        entry@.payload == payload_bytes(ops),
        ops.len() <= 255,
        forall|i: int| 0 <= i < ops.len() ==> op_fits(#[trigger] ops[i]),
    ensures
        match last_op(ops, key) {
            Some(cell) => (lookup(
                before[group_id].local_replica.learner.entries(),
                key,
            ) matches Some((s, _)) ==> s < entry.slot) ==> get_response(
                after,
                group_id,
                key,
                request_id,
                request_create_ms,
            ) == answer_of(cell, request_id, request_create_ms),
            None => get_response(after, group_id, key, request_id, request_create_ms)
                == get_response(before, group_id, key, request_id, request_create_ms),
        },
{
    payload_reads_back(ops);
    apply_is_read_back(
        before[group_id].local_replica.learner.entries(),
        after[group_id].local_replica.learner.entries(),
        entry.slot,
        ops,
        key,
    );
}

/// A value that was put is what a read gives back, and a key that was deleted is
/// not found.
pub proof fn chosen_write_is_read_back(
    before: Map<u64, PxGroup>,
    after: Map<u64, PxGroup>,
    group_id: u64,
    key: Seq<u8>,
    cell: CellView,
    entry: PxLogEntry,
    tags: Seq<DedupTag>,
    request_id: u64,
    request_create_ms: u64,
)
    requires
        before.contains_key(group_id),
        after.contains_key(group_id),
        learned(
            before[group_id].local_replica.learner,
            after[group_id].local_replica.learner,
            entry,
            tags,
        ),
        entry@.payload == payload_bytes(seq![(key, cell)]),
        op_fits((key, cell)),
        lookup(before[group_id].local_replica.learner.entries(), key) matches Some((s, _)) ==> s
            < entry.slot,
    ensures
        get_response(after, group_id, key, request_id, request_create_ms) == answer_of(
            cell,
            request_id,
            request_create_ms,
        ),
{
    let ops: Seq<OpView> = seq![(key, cell)];
    assert(ops.drop_first() =~= Seq::<OpView>::empty());
    assert(last_op(ops, key) == Some(cell)) by {
        reveal_with_fuel(last_op, 2);
    }
    chosen_batch_is_read_back(
        before,
        after,
        group_id,
        ops,
        entry,
        tags,
        key,
        request_id,
        request_create_ms,
    );
}

/// A write is answered with success exactly if it was chosen, and then with the
/// slot as its revision; it names a leader only where this replica does not
/// lead. Every answer carries the identity and the time of its request.
pub proof fn chosen_write_is_answered_with_its_slot(
    result: ProposeResultView,
    request_id: u64,
    request_create_ms: u64,
)
    ensures
        ({
            let r = write_response(result, request_id, request_create_ms);
            &&& r.ok <==> result is Chosen
            &&& result matches ProposeResultView::Chosen { slot } ==> r.revision == slot
                && r.error.len() == 0
            &&& result matches ProposeResultView::NotLeader { leader_hint } ==> r.not_leader_hint
                == leader_hint
            &&& !(result is NotLeader) ==> r.not_leader_hint.len() == 0
            &&& result matches ProposeResultView::Failed(msg) ==> r.error == msg
            &&& !r.not_found
            &&& r.request_id == request_id
            &&& r.request_create_ms == request_create_ms
        }),
{
}

/// A read finds a key exactly if the group is served here and the key holds a
/// value, and gives that value. A missing group is an error, not a key that is
/// not found.
pub proof fn read_finds_what_the_key_holds(
    groups: Map<u64, PxGroup>,
    group_id: u64,
    key: Seq<u8>,
    value: Seq<u8>,
    request_id: u64,
    request_create_ms: u64,
)
    ensures
        ({
            let r = get_response(groups, group_id, key, request_id, request_create_ms);
            &&& r.ok && r.value == value <==> groups.contains_key(group_id) && (lookup(
                groups[group_id].local_replica.learner.entries(),
                key,
            ) matches Some((_, cell)) && cell == Some(value))
            &&& r.ok ==> !r.not_found && r.error.len() == 0
            &&& !r.ok && groups.contains_key(group_id) ==> r.not_found && r.value.len() == 0
            &&& !groups.contains_key(group_id) ==> !r.ok && !r.not_found && r.error
                == missing_group()
            &&& r.request_id == request_id
            &&& r.request_create_ms == request_create_ms
        }),
{
}

/// A scan gives what reads give: every item is a key that starts with the
/// prefix, with the value that a read of it finds. The items are in key order.
/// A key with the prefix that a read finds is among them, unless the scan was
/// cut short; then there are as many items as were asked for, and the keys
/// left out come after them.
pub proof fn scan_agrees_with_reads(
    groups: Map<u64, PxGroup>,
    group_id: u64,
    prefix: Seq<u8>,
    limit: u32,
    request_id: u64,
    request_create_ms: u64,
    r: KvScanResponse,
    key: Seq<u8>,
)
    requires
        groups.contains_key(group_id),
        keys_sorted(groups[group_id].local_replica.learner.entries()),
        scanned(groups, group_id, prefix, limit, request_id, request_create_ms, r),
    ensures
        r.ok,
        limit != 0 ==> r.items.len() <= limit,
        r.truncated ==> r.items.len() == limit,
        forall|i: int, j: int|
            0 <= i < j < r.items.len() ==> key_before(
                (#[trigger] r.items[i]).key@,
                (#[trigger] r.items[j]).key@,
            ),
        forall|i: int|
            0 <= i < r.items.len() ==> {
                let item = #[trigger] r.items[i];
                let read = get_response(groups, group_id, item.key@, request_id, request_create_ms);
                &&& read.ok
                &&& read.value == item.value@
                &&& item.key@.len() >= prefix.len()
                &&& item.key@.take(prefix.len() as int) == prefix
            },
        ({
            let read = get_response(groups, group_id, key, request_id, request_create_ms);
            read.ok && key.len() >= prefix.len() && key.take(prefix.len() as int) == prefix ==> {
                ||| exists|i: int|
                    0 <= i < r.items.len() && (#[trigger] r.items[i]).key@ == key
                        && r.items[i].value@ == read.value
                ||| r.truncated && forall|i: int|
                    0 <= i < r.items.len() ==> key_before((#[trigger] r.items[i]).key@, key)
            }
        }),
{
    let s = groups[group_id].local_replica.learner.entries();
    let all = live_matches(s, prefix);
    scan_is_in_key_order(s, prefix);
    assert forall|i: int| 0 <= i < r.items.len() implies {
        let item = #[trigger] r.items[i];
        let read = get_response(groups, group_id, item.key@, request_id, request_create_ms);
        &&& read.ok
        &&& read.value == item.value@
        &&& item.key@.len() >= prefix.len()
        &&& item.key@.take(prefix.len() as int) == prefix
    } by {
        let item = r.items[i];
        assert(all[i].0 == item.key@ && all[i].2 == item.value@);
        assert(all.contains((item.key@, all[i].1, item.value@)));
        scan_finds_the_live_keys_with_the_prefix(s, prefix, item.key@, all[i].1, item.value@);
    }
    assert forall|i: int, j: int| 0 <= i < j < r.items.len() implies key_before(
        (#[trigger] r.items[i]).key@,
        (#[trigger] r.items[j]).key@,
    ) by {
        assert(key_before(all[i].0, all[j].0));
    }
    if key.len() >= prefix.len() && key.take(prefix.len() as int) == prefix {
        if let Some((slot, Some(v))) = lookup(s, key) {
            scan_finds_the_live_keys_with_the_prefix(s, prefix, key, slot, v);
            let m = choose|m: int| 0 <= m < all.len() && all[m] == (key, slot, v);
            if m < r.items.len() {
                assert(r.items[m].key@ == key && r.items[m].value@ == v);
            } else {
                assert forall|i: int| 0 <= i < r.items.len() implies key_before(
                    (#[trigger] r.items[i]).key@,
                    key,
                ) by {
                    assert(key_before(all[i].0, all[m].0));
                }
            }
        }
    }
}

/// A batch write of items that is chosen is what reads give back: of the items
/// with a key the last counts, and a read finds its value, or nothing if it is
/// a deletion; unless the key was written at that slot or a later one before.
pub proof fn chosen_items_are_read_back(
    before: Map<u64, PxGroup>,
    after: Map<u64, PxGroup>,
    group_id: u64,
    items: Seq<KvBatchItem>,
    i: int,
    entry: PxLogEntry,
    tags: Seq<DedupTag>,
    request_id: u64,
    request_create_ms: u64,
)
    requires
        before.contains_key(group_id),
        after.contains_key(group_id),
        learned(
            before[group_id].local_replica.learner,
            after[group_id].local_replica.learner,
            entry,
            tags,
        ),
        entry@.payload == payload_bytes(item_ops(items)),
        items.len() <= 255,
        forall|j: int| 0 <= j < items.len() ==> (#[trigger] items[j]).key@.len() <= u32::MAX
            && items[j].value@.len() <= u32::MAX,
        0 <= i < items.len(),
        forall|j: int| i < j < items.len() ==> (#[trigger] items[j]).key@ != items[i].key@,
        lookup(
            before[group_id].local_replica.learner.entries(),
            items[i].key@,
        ) matches Some((s, _)) ==> s < entry.slot,
    ensures
        ({
            let read = get_response(
                after,
                group_id,
                items[i].key@,
                request_id,
                request_create_ms,
            );
            if items[i].is_delete {
                !read.ok && read.not_found
            } else {
                read.ok && read.value == items[i].value@
            }
        }),
{
    let ops = item_ops(items);
    let old_entries = before[group_id].local_replica.learner.entries();
    let new_entries = after[group_id].local_replica.learner.entries();
    assert forall|j: int| 0 <= j < ops.len() implies op_fits(#[trigger] ops[j]) by {
        assert(ops[j] == item_op(items[j]));
    }
    payload_reads_back(ops);
    assert(ops[i] == item_op(items[i]));
    assert forall|j: int| i < j < ops.len() implies (#[trigger] ops[j]).0 != ops[i].0 by {
        assert(items[j].key@ != items[i].key@);
    }
    last_operation_on_a_key_counts(old_entries, new_entries, entry.slot, ops, i);
}

/// A write leaves every group but its own as it was. Without its group it
/// leaves all groups as they were and fails.
pub proof fn write_touches_only_its_group(
    before: Map<u64, PxGroup>,
    after: Map<u64, PxGroup>,
    group_id: u64,
    payload: Seq<u8>,
    client_id: Option<u64>,
    seq: Option<u64>,
    request_id: u64,
    request_create_ms: u64,
    r: WriteStart,
    other: u64,
)
    requires
        write_started(
            before,
            after,
            group_id,
            payload,
            client_id,
            seq,
            request_id,
            request_create_ms,
            r,
        ),
    ensures
        after.contains_key(other) <==> before.contains_key(other),
        other != group_id && before.contains_key(other) ==> after[other] == before[other],
        !before.contains_key(group_id) ==> after == before,
        !before.contains_key(group_id) ==> (r matches WriteStart::Answered(a) && !a@.ok
            && a@.request_id == request_id && a@.error.len() > 0),
{
    reveal_strlit("no kv group configured for request group_id");
    if before.contains_key(group_id) {
        assert(after.contains_key(other) == before.insert(group_id, after[group_id]).contains_key(
            other,
        ));
    }
}

/// A write whose proposal is over at once is answered at once; any other is
/// handed on as the proposal that it started.
pub proof fn finished_proposal_is_answered(
    start: ProposeStart,
    r: WriteStart,
    request_id: u64,
    request_create_ms: u64,
)
    requires
        starts_as(start, r, request_id, request_create_ms),
    ensures
        start is Finished <==> r is Answered,
        r matches WriteStart::Proposed(s) ==> s == start,
        start matches ProposeStart::Finished(result) ==> (result@
            matches ProposeResultView::Chosen { slot } ==> (r matches WriteStart::Answered(a)
            && a@.ok && a@.revision == slot)),
        start matches ProposeStart::Finished(result) ==> (!(result@ is Chosen) ==> (r
            matches WriteStart::Answered(a) && !a@.ok)),
{
}

/// A scan tells that it was cut short exactly if a key that it should find is
/// left out, which a limit of `0` never does. For a group that is not there it
/// fails and finds nothing. The answer carries the number of its request.
pub proof fn cut_scan_tells_so(
    groups: Map<u64, PxGroup>,
    group_id: u64,
    prefix: Seq<u8>,
    limit: u32,
    request_id: u64,
    request_create_ms: u64,
    r: KvScanResponse,
)
    requires
        scanned(groups, group_id, prefix, limit, request_id, request_create_ms, r),
    ensures
        r.request_id == request_id,
        r.request_create_ms == request_create_ms,
        r.version == 1,
        limit == 0 ==> !r.truncated,
        groups.contains_key(group_id) ==> {
            &&& r.ok
            &&& r.error@.len() == 0
            &&& r.truncated <==> r.items@.len() < live_matches(
                groups[group_id].local_replica.learner.entries(),
                prefix,
            ).len()
        },
        !groups.contains_key(group_id) ==> !r.ok && r.items@.len() == 0 && !r.truncated
            && r.error@.len() > 0,
{
    reveal_strlit("no kv group configured for request group_id");
}

} // verus!
