//! Collecting single-key operations into one proposal, and the front door of
//! proposals.

use crate::cluster::group::{PendingBatch, PxGroup};
use crate::cluster::inflight::asked;
use crate::cluster::proposal::{
    chosen_outcome, proposal_started, Proposal, ProposeResult, ProposeResultView, ProposeStart,
    ProposeStep, ProposeTurn,
};
use crate::cluster::proposer::dedup_tag;
use crate::common::config::AdmissionPolicy;
use crate::common::payload::{buffer_bytes, buffer_from_vec};
use crate::common::wire::{copy_range, put_bytes};
use crate::engine::op::{
    op_bytes, op_fits, ops_bytes, ops_bytes_concatenate, parse_payload, payload_bytes,
    payload_reads_back, OpView,
};
use crate::paxos::learner::{dedup_slot, recorded_operation_is_found};
use crate::paxos::roles::{DedupTag, PxLogEntry};
use bytes::Bytes;
use vstd::prelude::*;

verus! {

/// Operations after which a batch is full: the configured number, but at most
/// 255, the most that a payload can count.
pub open spec fn spec_max_keys(coalesce_max_keys: usize) -> u8 {
    if coalesce_max_keys <= 255 {
        coalesce_max_keys as u8
    } else {
        255
    }
}

/// The body of a payload: everything behind its count.
pub open spec fn body(payload: Seq<u8>) -> Seq<u8> {
    if payload.len() == 0 {
        Seq::empty()
    } else {
        payload.skip(1)
    }
}

/// `after` is the batch `before` (an empty one if there is none) with one more
/// operation in it.
pub open spec fn batch_extended(
    before: Option<PendingBatch>,
    after: Option<PendingBatch>,
    payload: Seq<u8>,
    tag: Option<DedupTag>,
) -> bool {
    let (bodies, count, tags) = match before {
        Some(b) => (b.op_bodies@, b.op_count, b.tags@),
        None => (Seq::<u8>::empty(), 0u8, Seq::<DedupTag>::empty()),
    };
    &&& after matches Some(a) && {
        &&& a.op_bodies@ == bodies + body(payload)
        &&& a.op_count == if count < 255 {
            (count + 1) as u8
        } else {
            255
        }
        &&& a.tags@ == match tag {
            Some(t) => tags.push(t),
            None => tags,
        }
    }
}

/// What proposing `payload` for a client operation does to a group and what it
/// gives. A group that does not lead refuses, and one that knows the operation
/// answers with its slot; in both cases nothing changes. Otherwise the payload
/// joins the batch that is being collected where collecting is on. Where it is
/// off, the payload takes a permit of the next queue and a slot of its own, or
/// meets a full queue.
pub open spec fn proposed(
    before: PxGroup,
    after: PxGroup,
    payload: Seq<u8>,
    client_id: Option<u64>,
    seq: Option<u64>,
    r: ProposeStart,
) -> bool {
    if !before.may_propose() {
        &&& r matches ProposeStart::Finished(res) && res@ == (ProposeResultView::NotLeader {
            leader_hint: before.leader_hint(),
        })
        &&& after == before
    } else if done_before(before, client_id, seq) is Some {
        &&& r matches ProposeStart::Finished(res) && res@ == (ProposeResultView::Chosen {
            slot: done_before(before, client_id, seq)->0,
        })
        &&& after == before
    } else if before.config.inflight.coalesce_window_us > 0 {
        &&& r matches ProposeStart::Coalesced { arm_timer, flush_now } && {
            &&& arm_timer == (before.coalescer is None)
            &&& flush_now == (after.coalescer->0.op_count >= spec_max_keys(
                before.config.inflight.coalesce_max_keys,
            ))
        }
        &&& batch_extended(
            before.coalescer,
            after.coalescer,
            payload,
            client_tag(client_id, seq),
        )
        &&& after == (PxGroup { coalescer: after.coalescer, ..before })
    } else {
        let q = before.inflight.next_queue();
        let tags = match client_tag(client_id, seq) {
            Some(t) => seq![t],
            None => Seq::<DedupTag>::empty(),
        };
        &&& after == (PxGroup {
            inflight: after.inflight,
            next_slot: after.next_slot,
            ..before
        })
        &&& asked(before.inflight, after.inflight)
        &&& if before.inflight.grants_next() {
            &&& r matches ProposeStart::Running(p, turn) && {
                &&& p.wf()
                &&& p.holds_permit(after)
                &&& proposal_started(before, p, turn, payload, tags, q)
            }
            &&& after.next_slot == before.next_slot + 1
        } else {
            &&& after.next_slot == before.next_slot
            &&& match before.inflight.policy {
                AdmissionPolicy::Reject => r matches ProposeStart::Finished(
                    res,
                ) && res@ == ProposeResultView::Busy,
                AdmissionPolicy::Queue => r matches ProposeStart::Waiting(
                    w,
                ) && w.queue == q && buffer_bytes(w.payload) == payload
                    && w.dedup_tags@ == tags,
            }
        }
    }
}

/// Where proposing for a client operation takes a slot, there is one left. It
/// takes one at once where the group leads and does not know the operation,
/// collecting is off, and the queue in turn has a permit.
pub open spec fn slot_left(g: PxGroup, client_id: Option<u64>, seq: Option<u64>) -> bool {
    g.may_propose() && done_before(g, client_id, seq) is None
        && g.config.inflight.coalesce_window_us == 0 && g.inflight.grants_next() ==> g.next_slot
        < u64::MAX
}

/// `after` is `before` without the batch that was being collected, and `r` is
/// that batch as one payload with the tags of its operations.
pub open spec fn flushed(
    before: PxGroup,
    after: PxGroup,
    r: Option<(Bytes, Vec<DedupTag>)>,
) -> bool {
    &&& after == (PxGroup { coalescer: None, ..before })
    &&& match (before.coalescer, r) {
        (Some(b), Some((payload, tags))) => buffer_bytes(payload) == seq![b.op_count]
            + b.op_bodies@ && tags == b.tags,
        (None, None) => true,
        _ => false,
    }
}

impl PxGroup {
    /// Add one single-key operation to the batch that is being collected, or
    /// start a batch with it. Tells whether the batch's timer is to be armed,
    /// and whether the batch is full.
    pub fn coalesce_enqueue(&mut self, payload: &Vec<u8>, tag: Option<DedupTag>) -> (r: (bool, bool))
        requires
            old(self).wf(),
        ensures
            final(self).wf(),
            batch_extended(old(self).coalescer, final(self).coalescer, payload@, tag),
            *final(self) == (PxGroup { coalescer: final(self).coalescer, ..*old(self) }),
            r.0 == (old(self).coalescer is None),
            r.1 == (final(self).coalescer->0.op_count >= spec_max_keys(
                old(self).config.inflight.coalesce_max_keys,
            )),
    {
        let max_keys: u8 = if self.config.inflight.coalesce_max_keys <= 255 {
            self.config.inflight.coalesce_max_keys as u8
        } else {
            255
        };
        let op_body: Vec<u8> = if payload.len() == 0 {
            Vec::new()
        } else {
            copy_range(payload.as_slice(), 1, payload.len())
        };
        proof {
            if payload@.len() > 0 {
                assert(payload@.subrange(1, payload@.len() as int) =~= payload@.skip(1));
            }
        }
        let mut taken: Option<PendingBatch> = None;
        std::mem::swap(&mut taken, &mut self.coalescer);
        let first = taken.is_none();
        let mut batch = match taken {
            None => PendingBatch { op_bodies: Vec::new(), op_count: 0, tags: Vec::new() },
            Some(b) => b,
        };
        put_bytes(&mut batch.op_bodies, op_body.as_slice());
        batch.op_count = if batch.op_count < 255 {
            batch.op_count + 1
        } else {
            255
        };
        if let Some(t) = tag {
            batch.tags.push(t);
        }
        let full = batch.op_count >= max_keys;
        self.coalescer = Some(batch);
        (first, full)
    }

    /// Take the batch that is being collected, if any, as one payload with the
    /// tags of its operations.
    pub fn flush_coalescer(&mut self) -> (r: Option<(Bytes, Vec<DedupTag>)>)
        requires
            old(self).wf(),
        ensures
            final(self).wf(),
            flushed(*old(self), *final(self), r),
            *final(self) == (PxGroup { coalescer: None, ..*old(self) }),
            match (old(self).coalescer, r) {
                (Some(b), Some((payload, tags))) => {
                    &&& buffer_bytes(payload) == seq![b.op_count] + b.op_bodies@
                    &&& tags == b.tags
                },
                (None, None) => true,
                _ => false,
            },
    {
        let mut taken: Option<PendingBatch> = None;
        std::mem::swap(&mut taken, &mut self.coalescer);
        match taken {
            None => None,
            Some(b) => {
                let mut payload: Vec<u8> = Vec::new();
                payload.push(b.op_count);
                put_bytes(&mut payload, b.op_bodies.as_slice());
                proof {
                    assert(payload@ =~= seq![b.op_count] + b.op_bodies@);
                }
                Some((buffer_from_vec(payload), b.tags))
            },
        }
    }

    /// Propose a payload for a client operation.
    ///
    /// Only a leader proposes. An operation that was done before is answered
    /// with the slot it was done at. Otherwise it is collected into a batch
    /// where collecting is on, and proposed on its own where it is off.
    pub fn propose(&mut self, payload: Vec<u8>, client_id: Option<u64>, seq: Option<u64>) -> (r:
        ProposeStart)
        requires
            old(self).wf(),
            slot_left(*old(self), client_id, seq),
        ensures
            final(self).wf(),
            proposed(*old(self), *final(self), payload@, client_id, seq, r),
    {
        if !(self.local_replica.is_leader() && self.local_replica.current_term
            == self.proposing_term) {
            return self.propose_inner(buffer_from_vec(payload), Vec::new());
        }
        if let (Some(cid), Some(s)) = (client_id, seq) {
            if let Some(slot) = self.local_replica.learner.dedup_lookup(cid, s) {
                return ProposeStart::Finished(ProposeResult::Chosen { slot });
            }
        }
        let tag = dedup_tag(client_id, seq);
        if self.config.inflight.coalesce_window_us > 0 {
            let (arm_timer, flush_now) = self.coalesce_enqueue(&payload, tag);
            ProposeStart::Coalesced { arm_timer, flush_now }
        } else {
            let mut tags: Vec<DedupTag> = Vec::new();
            if let Some(t) = tag {
                tags.push(t);
            }
            proof {
                assert(tags@ =~= match client_tag(client_id, seq) {
                    Some(t) => seq![t],
                    None => Seq::<DedupTag>::empty(),
                });
            }
            self.propose_inner(buffer_from_vec(payload), tags)
        }
    }
}

/// The dedup tag of a client operation. There is none without a client.
pub open spec fn client_tag(client_id: Option<u64>, seq: Option<u64>) -> Option<DedupTag> {
    match (client_id, seq) {
        (Some(cid), Some(s)) => if cid != 0 {
            Some(DedupTag { client_id: cid, seq: s })
        } else {
            None
        },
        _ => None,
    }
}

/// The slot at which a client operation was done before, if it was.
pub open spec fn done_before(g: PxGroup, client_id: Option<u64>, seq: Option<u64>) -> Option<u64> {
    match (client_id, seq) {
        (Some(cid), Some(s)) => dedup_slot(
            g.local_replica.learner.dedup(),
            DedupTag { client_id: cid, seq: s },
        ),
        _ => None,
    }
}

// ── Laws of repeated operations ──────────────────────────────────
/// An operation that the leader knows as done at `slot` is answered with that
/// slot, whatever payload comes with it, and nothing changes: no slot is taken,
/// no permit, and no member is asked.
pub proof fn repeated_operation_changes_nothing(
    before: PxGroup,
    after: PxGroup,
    payload: Seq<u8>,
    client_id: u64,
    seq: u64,
    slot: u64,
    r: ProposeStart,
)
    requires
        before.may_propose(),
        dedup_slot(before.local_replica.learner.dedup(), DedupTag { client_id, seq }) == Some(slot),
        proposed(before, after, payload, Some(client_id), Some(seq), r),
    ensures
        r matches ProposeStart::Finished(res) && res@ == (ProposeResultView::Chosen { slot }),
        after == before,
        slot_left(before, Some(client_id), Some(seq)),
{
}

/// An operation of a client is known as done at the slot at which the proposal
/// that carried it was chosen, so that a repetition is answered with that slot.
pub proof fn chosen_operation_is_known(
    g0: PxGroup,
    p0: Proposal,
    entry: PxLogEntry,
    g1: PxGroup,
    p1: Proposal,
    turn: ProposeTurn,
    tag: DedupTag,
)
    requires
        chosen_outcome(g0, p0, entry, true, g1, p1, turn),
        entry.slot == p0.slot,
        p0.dedup_tags@.contains(tag),
        tag.client_id != 0,
        !g0.config.async_engine_apply,
    ensures
        done_before(g1, Some(tag.client_id), Some(tag.seq)) == Some(p0.slot),
        turn.step matches ProposeStep::Finished(r) && r@ == (ProposeResultView::Chosen {
            slot: p0.slot,
        }),
{
    recorded_operation_is_found(
        g0.local_replica.learner.dedup(),
        p0.dedup_tags@,
        entry.slot,
        tag,
    );
}

// ── Laws of collecting ───────────────────────────────────────────
/// `b` is a batch of exactly the operations `ops`, in this order.
pub open spec fn collects(b: Option<PendingBatch>, ops: Seq<OpView>) -> bool {
    match b {
        Some(b) => b.op_bodies@ == ops_bytes(ops) && b.op_count == ops.len(),
        None => ops.len() == 0,
    }
}

/// Adding the payload of one operation to a batch that is not full adds
/// exactly that operation to what the batch collects.
pub proof fn collecting_adds_one_operation(
    before: Option<PendingBatch>,
    after: Option<PendingBatch>,
    ops: Seq<OpView>,
    op: OpView,
    tag: Option<DedupTag>,
)
    requires
        collects(before, ops),
        ops.len() < 255,
        batch_extended(before, after, payload_bytes(seq![op]), tag),
    ensures
        collects(after, ops.push(op)),
{
    assert(seq![op].drop_first() =~= Seq::<OpView>::empty());
    assert(ops_bytes(seq![op].drop_first()) =~= Seq::<u8>::empty());
    assert(ops_bytes(seq![op]) =~= op_bytes(op)) by {
        reveal_with_fuel(ops_bytes, 2);
    }
    assert(body(payload_bytes(seq![op])) =~= op_bytes(op));
    ops_bytes_concatenate(ops, seq![op]);
    assert(ops + seq![op] =~= ops.push(op));
    if before is None {
        assert(ops =~= Seq::<OpView>::empty());
        assert(ops_bytes(ops) =~= Seq::<u8>::empty());
    }
}

/// The payload of a flushed batch decodes to the operations that were
/// collected, in the order in which they came.
pub proof fn flushed_batch_decodes_to_collected_operations(b: PendingBatch, ops: Seq<OpView>)
    requires
        collects(Some(b), ops),
        forall|i: int| 0 <= i < ops.len() ==> op_fits(#[trigger] ops[i]),
    ensures
        parse_payload(seq![b.op_count] + b.op_bodies@) == Some(ops),
{
    payload_reads_back(ops);
    assert(payload_bytes(ops) =~= seq![b.op_count] + b.op_bodies@);
}

/// A batch keeps the tags of all its operations, in the order in which they
/// came.
pub proof fn collecting_keeps_the_tags(
    before: Option<PendingBatch>,
    after: Option<PendingBatch>,
    payload: Seq<u8>,
    tag: DedupTag,
)
    requires
        batch_extended(before, after, payload, Some(tag)),
    ensures
        after matches Some(a) && a.tags@.last() == tag && a.tags@.drop_last() == match before {
            Some(b) => b.tags@,
            None => Seq::<DedupTag>::empty(),
        },
{
    let tags = match before {
        Some(b) => b.tags@,
        None => Seq::<DedupTag>::empty(),
    };
    assert(tags.push(tag).drop_last() =~= tags);
}

/// Where collecting is on, a leader adds every operation that it does not know
/// to its batch, takes no slot and no permit for it, arms the timer with the
/// first operation of a batch, and flushes once the batch has as many
/// operations as are allowed.
pub proof fn new_operation_joins_the_batch(
    before: PxGroup,
    after: PxGroup,
    payload: Seq<u8>,
    client_id: Option<u64>,
    seq: Option<u64>,
    r: ProposeStart,
    ops: Seq<OpView>,
    op: OpView,
)
    requires
        before.may_propose(),
        done_before(before, client_id, seq) is None,
        before.config.inflight.coalesce_window_us > 0,
        payload == payload_bytes(seq![op]),
        collects(before.coalescer, ops),
        ops.len() < 255,
        proposed(before, after, payload, client_id, seq, r),
    ensures
        collects(after.coalescer, ops.push(op)),
        after.next_slot == before.next_slot,
        after.inflight == before.inflight,
        r matches ProposeStart::Coalesced { arm_timer, flush_now } && {
            &&& arm_timer == (before.coalescer is None)
            &&& flush_now == (ops.len() + 1 >= before.config.inflight.coalesce_max_keys || ops.len()
                + 1 >= 255)
        },
{
    collecting_adds_one_operation(
        before.coalescer,
        after.coalescer,
        ops,
        op,
        client_tag(client_id, seq),
    );
}

/// Where collecting is off, a leader whose queue in turn has a permit takes on
/// every operation that it does not know: the proposal runs, with the payload
/// and the client's tag, at the next slot, and no other proposal gets that
/// slot.
pub proof fn new_operation_is_proposed(
    before: PxGroup,
    after: PxGroup,
    payload: Seq<u8>,
    client_id: Option<u64>,
    seq: Option<u64>,
    r: ProposeStart,
)
    requires
        before.may_propose(),
        done_before(before, client_id, seq) is None,
        before.config.inflight.coalesce_window_us == 0,
        before.inflight.available@[before.inflight.next_queue() as int] > 0,
        proposed(before, after, payload, client_id, seq, r),
    ensures
        r matches ProposeStart::Running(p, turn) && {
            &&& buffer_bytes(p.payload) == payload
            &&& p.slot == before.next_slot
            &&& !(turn.step is Finished)
            &&& client_id matches Some(c) ==> seq matches Some(s) ==> c != 0
                ==> p.dedup_tags@.contains(DedupTag { client_id: c, seq: s })
        },
        after.next_slot == before.next_slot + 1,
        after.inflight.spec_occupied() == before.inflight.spec_occupied() + 1,
{
    if let (Some(c), Some(s)) = (client_id, seq) {
        if c != 0 {
            let tag = DedupTag { client_id: c, seq: s };
            assert(seq![tag][0] == tag);
        }
    }
}

/// A replica that does not lead, or no longer in the term in which it
/// proposes, turns an operation away with the leader's endpoint, even one that
/// it knows, and changes nothing.
pub proof fn only_a_leader_takes_operations(
    before: PxGroup,
    after: PxGroup,
    payload: Seq<u8>,
    client_id: Option<u64>,
    seq: Option<u64>,
    r: ProposeStart,
)
    requires
        !(before.local_replica.role is Leader) || before.local_replica.current_term
            != before.proposing_term,
        proposed(before, after, payload, client_id, seq, r),
    ensures
        r matches ProposeStart::Finished(res) && res@ == (ProposeResultView::NotLeader {
            leader_hint: before.leader_hint(),
        }),
        after == before,
{
}

/// Flushing hands out exactly what was collected, once: the payload decodes to
/// the collected operations in their order, the tags go with it, and the next
/// flush finds nothing.
pub proof fn flush_hands_out_what_was_collected(
    before: PxGroup,
    after: PxGroup,
    r: Option<(Bytes, Vec<DedupTag>)>,
    again: PxGroup,
    second: Option<(Bytes, Vec<DedupTag>)>,
    ops: Seq<OpView>,
)
    requires
        collects(before.coalescer, ops),
        ops.len() > 0,
        forall|i: int| 0 <= i < ops.len() ==> op_fits(#[trigger] ops[i]),
        flushed(before, after, r),
        flushed(after, again, second),
    ensures
        r matches Some((payload, tags)) && {
            &&& parse_payload(buffer_bytes(payload)) == Some(ops)
            &&& before.coalescer matches Some(b) && tags@ == b.tags@
        },
        collects(after.coalescer, Seq::empty()),
        second is None,
        after.next_slot == before.next_slot,
{
    flushed_batch_decodes_to_collected_operations(before.coalescer->0, ops);
}

/// A leader whose queue in turn has no permit takes no slot for an operation: it
/// answers that it is busy, or has the operation wait for that queue, as it was
/// configured.
pub proof fn full_queue_holds_operations_back(
    before: PxGroup,
    after: PxGroup,
    payload: Seq<u8>,
    client_id: Option<u64>,
    seq: Option<u64>,
    r: ProposeStart,
)
    requires
        before.may_propose(),
        done_before(before, client_id, seq) is None,
        before.config.inflight.coalesce_window_us == 0,
        before.inflight.available@[before.inflight.next_queue() as int] == 0,
        proposed(before, after, payload, client_id, seq, r),
    ensures
        after.next_slot == before.next_slot,
        after.local_replica == before.local_replica,
        before.inflight.policy is Reject ==> (r matches ProposeStart::Finished(res)
            && res@ == ProposeResultView::Busy),
        before.inflight.policy is Queue ==> (r matches ProposeStart::Waiting(w) && w.queue
            == before.inflight.next_queue() && buffer_bytes(w.payload) == payload),
{
}

} // verus!
