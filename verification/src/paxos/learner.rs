//! The learner: applies chosen entries to the engine and keeps track of which
//! slots are chosen and which client operations are done.

use crate::common::payload::buffer_to_vec;
use crate::engine::mem_engine::InMemoryEngine;
use crate::engine::op::{parse_payload, Batch, OpView};
use crate::engine::store_engine::{is_applied, keys_sorted, lookup, Engine, EntryView};
use crate::paxos::roles::{DedupTag, PxLogEntry};
use std::collections::HashSet;
use vstd::prelude::*;

verus! {

broadcast use vstd::std_specs::hash::group_hash_axioms;

/// The slot recorded last for `tag`, if any.
pub open spec fn dedup_slot(records: Seq<(DedupTag, u64)>, tag: DedupTag) -> Option<u64>
    decreases records.len(),
{
    if records.len() == 0 {
        None
    } else if records.last().0 == tag {
        Some(records.last().1)
    } else {
        dedup_slot(records.drop_last(), tag)
    }
}

/// `tags` with the slot that they were chosen at; tags without a client are
/// left out.
pub open spec fn dedup_records(tags: Seq<DedupTag>, slot: u64) -> Seq<(DedupTag, u64)>
    decreases tags.len(),
{
    if tags.len() == 0 {
        Seq::empty()
    } else {
        let front = dedup_records(tags.drop_last(), slot);
        if tags.last().client_id == 0 {
            front
        } else {
            front.push((tags.last(), slot))
        }
    }
}

/// The operations of a payload. One that spells no batch has none.
pub open spec fn payload_ops(payload: Seq<u8>) -> Seq<OpView> {
    match parse_payload(payload) {
        Some(ops) => ops,
        None => Seq::empty(),
    }
}

/// `after` is what `before` becomes by learning `entry` with `tags`: its batch is
/// applied to the engine at its slot, the slot is chosen, and the client
/// operations are recorded.
pub open spec fn learned(
    before: PxLearner,
    after: PxLearner,
    entry: PxLogEntry,
    tags: Seq<DedupTag>,
) -> bool {
    &&& is_applied(before.entries(), after.entries(), entry.slot, payload_ops(entry@.payload))
    &&& forall|s: u64| #[trigger] after.chosen(s) == (before.chosen(s) || s == entry.slot)
    &&& after.last_slot() == if entry.slot > before.last_slot() {
        entry.slot
    } else {
        before.last_slot()
    }
    &&& after.last_term() == if entry.slot > before.last_slot() {
        entry.term
    } else {
        before.last_term()
    }
    &&& after.dedup() == before.dedup() + dedup_records(tags, entry.slot)
}

/// Learner state of one replica.
#[derive(Debug)]
pub struct PxLearner {
    engine: InMemoryEngine,
    /// Chosen slots above the contiguous frontier.
    ahead: HashSet<u64>,
    contiguous: u64,
    last_chosen_slot: u64,
    last_chosen_term: u64,
    dedup: Vec<(DedupTag, u64)>,
}

impl PxLearner {
    /// The entries of the engine.
    pub closed spec fn entries(&self) -> Seq<EntryView> {
        self.engine.entries()
    }

    /// Whether `slot` is known to be chosen. Slots start at 1.
    pub closed spec fn chosen(&self, slot: u64) -> bool {
        1 <= slot <= self.contiguous || self.ahead@.contains(slot)
    }

    /// Highest slot up to which every slot is chosen.
    pub closed spec fn frontier(&self) -> u64 {
        self.contiguous
    }

    /// Highest chosen slot, `0` if none.
    pub closed spec fn last_slot(&self) -> u64 {
        self.last_chosen_slot
    }

    /// Term of the highest chosen slot.
    pub closed spec fn last_term(&self) -> u64 {
        self.last_chosen_term
    }

    /// The client operations done so far, with their slots.
    pub closed spec fn dedup(&self) -> Seq<(DedupTag, u64)> {
        self.dedup@
    }

    /// The entries are in key order; the frontier is as far as it can be; no
    /// slot above the last chosen one is chosen.
    pub closed spec fn wf(&self) -> bool {
        &&& keys_sorted(self.engine.entries())
        &&& forall|s: u64| #[trigger] self.ahead@.contains(s) ==> self.contiguous < s
        &&& self.contiguous < u64::MAX ==> !self.ahead@.contains((self.contiguous + 1) as u64)
        &&& self.contiguous <= self.last_chosen_slot
        &&& forall|s: u64| #[trigger] self.ahead@.contains(s) ==> s <= self.last_chosen_slot
        &&& self.last_chosen_slot > 0 ==> self.chosen(self.last_chosen_slot)
    }

    /// What well-formedness says in terms of chosen slots.
    pub proof fn lemma_frontier(&self)
        requires
            self.wf(),
        ensures
            keys_sorted(self.entries()),
            forall|s: u64| 1 <= s <= self.frontier() ==> #[trigger] self.chosen(s),
            self.frontier() < u64::MAX ==> !self.chosen((self.frontier() + 1) as u64),
            forall|s: u64| #[trigger] self.chosen(s) ==> 1 <= s <= self.last_slot(),
            self.last_slot() > 0 ==> self.chosen(self.last_slot()),
            self.frontier() <= self.last_slot(),
    {
    }

    /// A learner that knows of nothing chosen.
    pub fn new() -> (l: Self)
        ensures
            l.wf(),
            l.entries() == Seq::<EntryView>::empty(),
            forall|s: u64| !#[trigger] l.chosen(s),
            l.frontier() == 0,
            l.last_slot() == 0,
            l.last_term() == 0,
            l.dedup() == Seq::<(DedupTag, u64)>::empty(),
    {
        PxLearner {
            engine: InMemoryEngine::new(),
            ahead: HashSet::new(),
            contiguous: 0,
            last_chosen_slot: 0,
            last_chosen_term: 0,
            dedup: Vec::new(),
        }
    }

    /// Resume from an engine that holds everything up to `at_slot`, the last of
    /// it from `term`. Nothing may have been learned before.
    pub fn seed_resume_frontier(&mut self, engine: InMemoryEngine, at_slot: u64, term: u64)
        requires
            old(self).wf(),
            old(self).last_slot() == 0,
            keys_sorted(engine.entries()),
        ensures
            final(self).wf(),
            final(self).entries() == engine.entries(),
            forall|s: u64| #[trigger] final(self).chosen(s) == (1 <= s <= at_slot),
            final(self).frontier() == at_slot,
            final(self).last_slot() == at_slot,
            final(self).last_term() == term,
            final(self).dedup() == old(self).dedup(),
    {
        self.engine = engine;
        self.ahead = HashSet::new();
        self.contiguous = at_slot;
        self.last_chosen_slot = at_slot;
        self.last_chosen_term = term;
    }

    /// Note that `slot` is chosen and move the frontier as far as it goes.
    fn mark_chosen(&mut self, slot: u64, term: u64)
        requires
            old(self).wf(),
            slot > 0,
        ensures
            final(self).wf(),
            final(self).engine == old(self).engine,
            final(self).dedup == old(self).dedup,
            forall|s: u64| #[trigger]
                final(self).chosen(s) == (old(self).chosen(s) || s == slot),
            final(self).last_slot() == if slot > old(self).last_slot() {
                slot
            } else {
                old(self).last_slot()
            },
            final(self).last_term() == if slot > old(self).last_slot() {
                term
            } else {
                old(self).last_term()
            },
    {
        if slot > self.contiguous {
            self.ahead.insert(slot);
        }
        if slot > self.last_chosen_slot {
            self.last_chosen_slot = slot;
            self.last_chosen_term = term;
        }
        let ghost target = |s: u64| old(self).chosen(s) || s == slot;
        proof {
            assert forall|s: u64| #[trigger] self.chosen(s) == target(s) by {}
        }
        while self.contiguous < u64::MAX && self.ahead.contains(&(self.contiguous + 1))
            invariant
                self.engine == old(self).engine,
                self.dedup == old(self).dedup,
                keys_sorted(self.engine.entries()),
                self.last_chosen_slot >= slot,
                forall|s: u64| #[trigger] self.ahead@.contains(s) ==> self.contiguous < s,
                forall|s: u64| #[trigger] self.ahead@.contains(s) ==> s <= self.last_chosen_slot,
                self.contiguous <= self.last_chosen_slot,
                forall|s: u64| #[trigger] self.chosen(s) == target(s),
                self.chosen(self.last_chosen_slot),
                self.last_chosen_slot == (if slot > old(self).last_slot() {
                    slot
                } else {
                    old(self).last_slot()
                }),
                self.last_chosen_term == (if slot > old(self).last_slot() {
                    term
                } else {
                    old(self).last_term()
                }),
            decreases u64::MAX - self.contiguous,
        {
            let ghost before = *self;
            let next: u64 = self.contiguous + 1;
            self.ahead.remove(&next);
            self.contiguous = next;
            proof {
                assert forall|s: u64| #[trigger] self.chosen(s) == target(s) by {
                    assert(before.chosen(s) == target(s));
                }
            }
        }
    }

    fn record_dedup_tags(&mut self, tags: &Vec<DedupTag>, slot: u64)
        ensures
            *final(self) == (PxLearner { dedup: final(self).dedup, ..*old(self) }),
            final(self).dedup@ == old(self).dedup@ + dedup_records(tags@, slot),
    {
        let mut i: usize = 0;
        proof {
            assert(tags@.take(0) =~= Seq::empty());
            assert(self.dedup@ + dedup_records(tags@.take(0), slot) =~= self.dedup@);
        }
        while i < tags.len()
            invariant
                i <= tags.len(),
                *self == (PxLearner { dedup: self.dedup, ..*old(self) }),
                self.dedup@ == old(self).dedup@ + dedup_records(tags@.take(i as int), slot),
            decreases tags.len() - i,
        {
            proof {
                assert(tags@.take(i + 1).drop_last() =~= tags@.take(i as int));
            }
            if tags[i].client_id != 0 {
                self.dedup.push((tags[i], slot));
            }
            i = i + 1;
            proof {
                assert(self.dedup@ =~= old(self).dedup@ + dedup_records(
                    tags@.take(i as int),
                    slot,
                ));
            }
        }
        proof {
            assert(tags@.take(i as int) =~= tags@);
        }
    }

    /// Learn a chosen entry: apply its batch to the engine at its slot, note
    /// the slot as chosen, and record the client operations it carries. A
    /// payload that spells no batch is applied as an empty one.
    pub fn learn(&mut self, entry: &PxLogEntry, tags: &Vec<DedupTag>)
        requires
            old(self).wf(),
            entry.slot > 0,
        ensures
            final(self).wf(),
            learned(*old(self), *final(self), *entry, tags@),
    {
        let payload: Vec<u8> = buffer_to_vec(&entry.payload);
        match Batch::decode(payload.as_slice()) {
            Some(batch) => {
                self.engine.apply(entry.slot, &batch);
            },
            None => {},
        }
        proof {
            assert(forall|s: u64| #[trigger] self.chosen(s) == old(self).chosen(s));
        }
        self.mark_chosen(entry.slot, entry.term);
        let ghost marked = *self;
        self.record_dedup_tags(tags, entry.slot);
        proof {
            assert(forall|s: u64| #[trigger] self.chosen(s) == marked.chosen(s));
        }
    }

    /// The slot at which a client operation was done, if it was.
    pub fn dedup_lookup(&self, client_id: u64, seq: u64) -> (r: Option<u64>)
        ensures
            r == dedup_slot(self.dedup(), DedupTag { client_id, seq }),
    {
        let tag = DedupTag { client_id, seq };
        let mut i: usize = self.dedup.len();
        proof {
            assert(self.dedup@.take(i as int) =~= self.dedup@);
        }
        while i > 0
            invariant
                i <= self.dedup.len(),
                tag == (DedupTag { client_id, seq }),
                dedup_slot(self.dedup@, tag) == dedup_slot(self.dedup@.take(i as int), tag),
            decreases i,
        {
            i = i - 1;
            proof {
                assert(self.dedup@.take(i + 1).drop_last() =~= self.dedup@.take(i as int));
            }
            if self.dedup[i].0 == tag {
                return Some(self.dedup[i].1);
            }
        }
        None
    }

    /// The value of `key` and the slot that wrote it.
    pub fn get(&self, key: &[u8]) -> (r: Option<(u64, Vec<u8>)>)
        requires
            self.wf(),
        ensures
            match (r, lookup(self.entries(), key@)) {
                (Some((slot, value)), Some((s, Some(v)))) => slot == s && value@ == v,
                (Some(_), _) => false,
                (None, Some((_, Some(_)))) => false,
                (None, _) => true,
            },
    {
        self.engine.get(key)
    }

    /// The engine that chosen entries are applied to.
    pub fn engine(&self) -> (e: &InMemoryEngine)
        ensures
            e.entries() == self.entries(),
    {
        &self.engine
    }

    /// Highest slot up to which every slot is chosen and applied.
    pub fn contiguous_chosen(&self) -> (s: u64)
        ensures
            s == self.frontier(),
    {
        self.contiguous
    }

    /// Highest chosen slot, `0` if none.
    pub fn last_chosen_slot(&self) -> (s: u64)
        ensures
            s == self.last_slot(),
    {
        self.last_chosen_slot
    }

    /// Term of the highest chosen slot.
    pub fn last_chosen_term(&self) -> (t: u64)
        ensures
            t == self.last_term(),
    {
        self.last_chosen_term
    }
}

/// A client operation that was just recorded is found at its slot: a retry of
/// it gets the slot of the first attempt instead of a second one.
pub proof fn recorded_operation_is_found(
    records: Seq<(DedupTag, u64)>,
    tags: Seq<DedupTag>,
    slot: u64,
    tag: DedupTag,
)
    requires
        tags.contains(tag),
        tag.client_id != 0,
    ensures
        dedup_slot(records + dedup_records(tags, slot), tag) == Some(slot),
    decreases tags.len(),
{
    let front = tags.drop_last();
    if tags.last().client_id == 0 {
        let i = choose|i: int| 0 <= i < tags.len() && tags[i] == tag;
        assert(front[i] == tag);
        recorded_operation_is_found(records, front, slot, tag);
    } else {
        let all = records + dedup_records(tags, slot);
        assert(all.last() == (tags.last(), slot));
        assert(all.drop_last() =~= records + dedup_records(front, slot));
        if tags.last() != tag {
            let i = choose|i: int| 0 <= i < tags.len() && tags[i] == tag;
            assert(front[i] == tag);
            recorded_operation_is_found(records, front, slot, tag);
        }
    }
}

/// Learning never forgets: what was chosen stays chosen and the frontier does
/// not go back. The slot right above the frontier moves it; a slot further
/// ahead leaves it where it is.
pub proof fn learning_moves_the_frontier(
    before: PxLearner,
    after: PxLearner,
    entry: PxLogEntry,
    tags: Seq<DedupTag>,
)
    requires
        before.wf(),
        after.wf(),
        learned(before, after, entry, tags),
        entry.slot > 0,
    ensures
        after.chosen(entry.slot),
        forall|s: u64| #[trigger] before.chosen(s) ==> after.chosen(s),
        after.frontier() >= before.frontier(),
        entry.slot == before.frontier() + 1 ==> after.frontier() >= entry.slot,
        entry.slot > before.frontier() + 1 ==> after.frontier() == before.frontier(),
        after.last_slot() >= entry.slot,
        entry.slot > before.last_slot() ==> after.last_term() == entry.term,
{
    before.lemma_frontier();
    after.lemma_frontier();
    let next = (after.frontier() + 1) as u64;
    if after.frontier() < before.frontier() {
        assert(before.chosen(next));
        assert(after.chosen(next));
    }
    if entry.slot == before.frontier() + 1 && after.frontier() < entry.slot {
        assert(after.chosen(next));
    }
    if entry.slot > before.frontier() + 1 && after.frontier() > before.frontier() {
        let s = (before.frontier() + 1) as u64;
        assert(after.chosen(s));
        assert(before.chosen(s));
    }
}

/// Learning an entry leaves every other client operation as it was known, and
/// records none without a client.
pub proof fn other_operations_stay_known(
    records: Seq<(DedupTag, u64)>,
    tags: Seq<DedupTag>,
    slot: u64,
    tag: DedupTag,
)
    requires
        !tags.contains(tag) || tag.client_id == 0,
    ensures
        dedup_slot(records + dedup_records(tags, slot), tag) == dedup_slot(records, tag),
    decreases tags.len(),
{
    let all = records + dedup_records(tags, slot);
    if tags.len() == 0 {
        assert(all =~= records);
    } else {
        let front = tags.drop_last();
        assert forall|i: int| 0 <= i < front.len() implies #[trigger] front[i] == tags[i] by {}
        assert(!front.contains(tag) || tag.client_id == 0);
        other_operations_stay_known(records, front, slot, tag);
        assert(tags[tags.len() - 1] == tags.last());
        if tags.last().client_id != 0 {
            assert(all.last() == (tags.last(), slot));
            assert(all.drop_last() =~= records + dedup_records(front, slot));
        }
    }
}

/// An operation is known at the slot of its last record, and unknown exactly
/// if there is none.
pub proof fn last_record_tells_the_slot(records: Seq<(DedupTag, u64)>, tag: DedupTag)
    ensures
        match dedup_slot(records, tag) {
            Some(slot) => exists|i: int|
                0 <= i < records.len() && #[trigger] records[i] == (tag, slot) && forall|j: int|
                    i < j < records.len() ==> (#[trigger] records[j]).0 != tag,
            None => forall|i: int| 0 <= i < records.len() ==> (#[trigger] records[i]).0 != tag,
        },
    decreases records.len(),
{
    if records.len() > 0 {
        let front = records.drop_last();
        assert(records[records.len() - 1] == records.last());
        if records.last().0 != tag {
            last_record_tells_the_slot(front, tag);
            assert forall|i: int| 0 <= i < front.len() implies front[i] == #[trigger] records[i] by {}
            if let Some(slot) = dedup_slot(front, tag) {
                let i = choose|i: int|
                    0 <= i < front.len() && #[trigger] front[i] == (tag, slot) && forall|j: int|
                        i < j < front.len() ==> (#[trigger] front[j]).0 != tag;
                assert(records[i] == (tag, slot));
                assert forall|j: int| i < j < records.len() implies (#[trigger] records[j]).0
                    != tag by {
                    if j < front.len() {
                        assert(front[j].0 != tag);
                    }
                }
            }
        }
    }
}

/// Learning an entry makes its slot chosen and no other. An entry below the last
/// one that was learned leaves the last slot and its term as they are.
pub proof fn learning_chooses_one_slot(
    before: PxLearner,
    after: PxLearner,
    entry: PxLogEntry,
    tags: Seq<DedupTag>,
    slot: u64,
)
    requires
        learned(before, after, entry, tags),
    ensures
        after.chosen(entry.slot),
        slot != entry.slot ==> after.chosen(slot) == before.chosen(slot),
        entry.slot <= before.last_slot() ==> after.last_slot() == before.last_slot()
            && after.last_term() == before.last_term(),
        entry.slot > before.last_slot() ==> after.last_slot() == entry.slot && after.last_term()
            == entry.term,
{
}

} // verus!
