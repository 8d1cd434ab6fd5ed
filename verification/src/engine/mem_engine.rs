//! An engine that keeps all entries in memory, in one sorted vector.

use crate::common::wire::copy_bytes;
use crate::engine::key_order::{
    key_before, lemma_key_irreflexive, lemma_key_transitive, order_keys, starts_with, KeyOrder,
};
use crate::engine::op::{Batch, BatchOp, Cell, Op};
use crate::engine::store_engine::{
    applied, entries_view, items_view, keys_sorted, last_op, lemma_lookup_at, live_count,
    live_matches, lookup, Engine, EntryView,
};
use vstd::prelude::*;

verus! {

/// All entries in memory, sorted by key.
#[derive(Debug)]
pub struct InMemoryEngine {
    entries: Vec<(Vec<u8>, u64, Cell)>,
}

proof fn lemma_insert_entry(s: Seq<EntryView>, idx: int, e: EntryView)
    requires
        keys_sorted(s),
        0 <= idx <= s.len(),
        forall|i: int| 0 <= i < idx ==> key_before(#[trigger] s[i].0, e.0),
        forall|i: int| idx <= i < s.len() ==> key_before(e.0, #[trigger] s[i].0),
    ensures
        keys_sorted(s.insert(idx, e)),
        lookup(s, e.0) is None,
        forall|k: Seq<u8>| #[trigger]
            lookup(s.insert(idx, e), k) == if k == e.0 {
                Some((e.1, e.2))
            } else {
                lookup(s, k)
            },
{
    let t = s.insert(idx, e);
    lemma_key_irreflexive(e.0);
    assert forall|i: int, j: int| 0 <= i < j < t.len() implies key_before(
        #[trigger] t[i].0,
        #[trigger] t[j].0,
    ) by {
        let a = if i < idx {
            i
        } else {
            i - 1
        };
        let b = if j < idx {
            j
        } else {
            j - 1
        };
        if i != idx && j != idx {
            assert(key_before(s[a].0, s[b].0));
        } else if i == idx {
            assert(key_before(e.0, s[b].0));
        } else {
            assert(key_before(s[a].0, e.0));
        }
    }
    assert forall|k: Seq<u8>| #[trigger] lookup(t, k) == if k == e.0 {
        Some((e.1, e.2))
    } else {
        lookup(s, k)
    } by {
        if k == e.0 {
            lemma_lookup_at(t, idx);
        } else if exists|i: int| 0 <= i < s.len() && #[trigger] s[i].0 == k {
            let i = choose|i: int| 0 <= i < s.len() && #[trigger] s[i].0 == k;
            let ti = if i < idx {
                i
            } else {
                i + 1
            };
            assert(t[ti] == s[i]);
            lemma_lookup_at(t, ti);
            lemma_lookup_at(s, i);
        } else {
            assert forall|i: int| 0 <= i < t.len() implies #[trigger] t[i].0 != k by {
                if i < idx {
                    assert(t[i] == s[i]);
                } else if i > idx {
                    assert(t[i] == s[i - 1]);
                }
            }
        }
    }
}

proof fn lemma_update_entry(s: Seq<EntryView>, idx: int, e: EntryView)
    requires
        keys_sorted(s),
        0 <= idx < s.len(),
        s[idx].0 == e.0,
    ensures
        keys_sorted(s.update(idx, e)),
        forall|k: Seq<u8>| #[trigger]
            lookup(s.update(idx, e), k) == if k == e.0 {
                Some((e.1, e.2))
            } else {
                lookup(s, k)
            },
{
    let t = s.update(idx, e);
    assert forall|i: int, j: int| 0 <= i < j < t.len() implies key_before(
        #[trigger] t[i].0,
        #[trigger] t[j].0,
    ) by {
        assert(key_before(s[i].0, s[j].0));
    }
    assert forall|k: Seq<u8>| #[trigger] lookup(t, k) == if k == e.0 {
        Some((e.1, e.2))
    } else {
        lookup(s, k)
    } by {
        if k == e.0 {
            lemma_lookup_at(t, idx);
        } else if exists|i: int| 0 <= i < s.len() && #[trigger] s[i].0 == k {
            let i = choose|i: int| 0 <= i < s.len() && #[trigger] s[i].0 == k;
            assert(t[i] == s[i]);
            lemma_lookup_at(t, i);
            lemma_lookup_at(s, i);
        } else {
            assert forall|i: int| 0 <= i < t.len() implies #[trigger] t[i].0 != k by {
                assert(t[i].0 == s[i].0);
            }
        }
    }
}

impl InMemoryEngine {
    /// An engine without entries.
    pub fn new() -> (e: Self)
        ensures
            e.entries() == Seq::<EntryView>::empty(),
            keys_sorted(e.entries()),
    {
        let e = InMemoryEngine { entries: Vec::new() };
        proof {
            assert(entries_view(e.entries@) =~= Seq::<EntryView>::empty());
        }
        e
    }

    /// Where `key` stands, or where it would be inserted.
    fn position(&self, key: &[u8]) -> (r: (bool, usize))
        requires
            keys_sorted(self.entries()),
        ensures
            r.1 <= self.entries.len(),
            r.0 ==> r.1 < self.entries.len() && self.entries()[r.1 as int].0 == key@,
            forall|i: int| 0 <= i < r.1 ==> key_before(#[trigger] self.entries()[i].0, key@),
            !r.0 ==> forall|i: int|
                r.1 <= i < self.entries.len() ==> key_before(
                    key@,
                    #[trigger] self.entries()[i].0,
                ),
    {
        let ghost s = self.entries();
        let mut lo: usize = 0;
        let mut hi: usize = self.entries.len();
        while lo < hi
            invariant
                lo <= hi <= self.entries.len(),
                s == entries_view(self.entries@),
                s == self.entries(),
                keys_sorted(s),
                forall|i: int| 0 <= i < lo ==> key_before(#[trigger] s[i].0, key@),
                forall|i: int| hi <= i < s.len() ==> key_before(key@, #[trigger] s[i].0),
            decreases hi - lo,
        {
            let mid: usize = lo + (hi - lo) / 2;
            match order_keys(self.entries[mid].0.as_slice(), key) {
                KeyOrder::Before => {
                    proof {
                        assert forall|i: int| 0 <= i < mid + 1 implies key_before(
                            #[trigger] s[i].0,
                            key@,
                        ) by {
                            if i < mid {
                                assert(key_before(s[i].0, s[mid as int].0));
                                lemma_key_transitive(s[i].0, s[mid as int].0, key@);
                            }
                        }
                    }
                    lo = mid + 1;
                },
                KeyOrder::After => {
                    proof {
                        assert forall|i: int| mid <= i < s.len() implies key_before(
                            key@,
                            #[trigger] s[i].0,
                        ) by {
                            if mid < i {
                                assert(key_before(s[mid as int].0, s[i].0));
                                lemma_key_transitive(key@, s[mid as int].0, s[i].0);
                            }
                        }
                    }
                    hi = mid;
                },
                KeyOrder::Same => {
                    proof {
                        assert forall|i: int| 0 <= i < mid implies key_before(
                            #[trigger] s[i].0,
                            key@,
                        ) by {
                            assert(key_before(s[i].0, s[mid as int].0));
                        }
                    }
                    return (true, mid);
                },
            }
        }
        (false, lo)
    }

    /// Apply one operation at `slot`.
    fn upsert(&mut self, slot: u64, op: &BatchOp)
        requires
            keys_sorted(old(self).entries()),
        ensures
            keys_sorted(final(self).entries()),
            forall|k: Seq<u8>| #[trigger]
                lookup(final(self).entries(), k) == applied(
                    lookup(old(self).entries(), k),
                    slot,
                    if k == op@.0 {
                        Some(op@.1)
                    } else {
                        None
                    },
                ),
    {
        let ghost s = self.entries();
        let (found, idx) = self.position(op.key.as_slice());
        if found {
            proof {
                lemma_lookup_at(s, idx as int);
            }
            if slot <= self.entries[idx].1 {
                return;
            }
        }
        let cell = match &op.op {
            Op::Put(v) => Cell::Value(copy_bytes(v)),
            Op::Delete => Cell::Tombstone,
        };
        let ghost e: EntryView = (op@.0, slot, cell@);
        let entry: (Vec<u8>, u64, Cell) = (copy_bytes(&op.key), slot, cell);
        if found {
            self.entries.set(idx, entry);
            proof {
                assert(self.entries() =~= s.update(idx as int, e));
                lemma_update_entry(s, idx as int, e);
            }
        } else {
            self.entries.insert(idx, entry);
            proof {
                assert(self.entries() =~= s.insert(idx as int, e));
                lemma_insert_entry(s, idx as int, e);
            }
        }
    }
}

impl Engine for InMemoryEngine {
    closed spec fn entries(&self) -> Seq<EntryView> {
        entries_view(self.entries@)
    }

    fn apply(&mut self, slot: u64, batch: &Batch) {
        let ghost ops = batch@;
        let mut i: usize = batch.ops.len();
        proof {
            assert(ops.skip(ops.len() as int) =~= Seq::empty());
        }
        // The last operation on a key is met first, and gives the key this
        // slot; the earlier ones are then skipped.
        while i > 0
            invariant
                i <= batch.ops.len(),
                ops == batch@,
                keys_sorted(self.entries()),
                forall|k: Seq<u8>| #[trigger]
                    lookup(self.entries(), k) == applied(
                        lookup(old(self).entries(), k),
                        slot,
                        last_op(ops.skip(i as int), k),
                    ),
            decreases i,
        {
            i = i - 1;
            let ghost before = self.entries();
            self.upsert(slot, &batch.ops[i]);
            proof {
                assert(ops.skip(i as int).drop_first() =~= ops.skip(i + 1));
                assert(ops.skip(i as int)[0] == batch.ops[i as int]@);
                assert forall|k: Seq<u8>| #[trigger] lookup(self.entries(), k) == applied(
                    lookup(old(self).entries(), k),
                    slot,
                    last_op(ops.skip(i as int), k),
                ) by {
                    assert(lookup(before, k) == applied(
                        lookup(old(self).entries(), k),
                        slot,
                        last_op(ops.skip(i + 1), k),
                    ));
                }
            }
        }
        proof {
            assert(ops.skip(0) =~= ops);
        }
    }

    fn get(&self, key: &[u8]) -> (r: Option<(u64, Vec<u8>)>) {
        let ghost s = self.entries();
        let (found, idx) = self.position(key);
        if found {
            proof {
                lemma_lookup_at(s, idx as int);
            }
            match &self.entries[idx].2 {
                Cell::Value(v) => Some((self.entries[idx].1, copy_bytes(v))),
                Cell::Tombstone => None,
            }
        } else {
            proof {
                lemma_key_irreflexive(key@);
            }
            None
        }
    }

    fn scan(&self, prefix: &[u8], limit: usize) -> (r: (Vec<(Vec<u8>, u64, Vec<u8>)>, bool)) {
        let ghost s = self.entries();
        let ghost all = live_matches(s, prefix@);
        let mut items: Vec<(Vec<u8>, u64, Vec<u8>)> = Vec::new();
        let mut i: usize = 0;
        proof {
            assert(s.take(0) =~= Seq::empty());
            assert(items_view(items@) =~= Seq::empty());
        }
        while i < self.entries.len()
            invariant
                i <= self.entries.len(),
                s == entries_view(self.entries@),
                all == live_matches(s, prefix@),
                items_view(items@) == live_matches(s.take(i as int), prefix@),
                limit != 0 ==> items.len() <= limit,
            decreases self.entries.len() - i,
        {
            let ghost before = items@;
            proof {
                assert(s.take(i + 1).drop_last() =~= s.take(i as int));
                assert(s.take(i + 1).last() == s[i as int]);
            }
            let hit = starts_with(self.entries[i].0.as_slice(), prefix);
            match &self.entries[i].2 {
                Cell::Value(v) => {
                    if hit {
                        if limit != 0 && items.len() == limit {
                            proof {
                                lemma_live_matches_prefix(s, i as int, prefix@);
                                lemma_live_matches_prefix(s, i + 1, prefix@);
                                assert(items_view(items@).len() == limit);
                                assert(all.take(limit as int) =~= items_view(items@));
                            }
                            return (items, true);
                        }
                        items.push((copy_bytes(&self.entries[i].0), self.entries[i].1, copy_bytes(v)));
                        proof {
                            assert(items_view(items@) =~= items_view(before).push(
                                (s[i as int].0, s[i as int].1, v@),
                            ));
                        }
                    }
                },
                Cell::Tombstone => {},
            }
            i = i + 1;
        }
        proof {
            assert(s.take(i as int) =~= s);
            assert(items_view(items@).len() == items.len());
        }
        (items, false)
    }

    fn iter_all(&self) -> (r: Vec<(Vec<u8>, u64, Cell)>) {
        let ghost s = self.entries();
        let mut out: Vec<(Vec<u8>, u64, Cell)> = Vec::new();
        let mut i: usize = 0;
        while i < self.entries.len()
            invariant
                i <= self.entries.len(),
                s == entries_view(self.entries@),
                entries_view(out@) == s.take(i as int),
            decreases self.entries.len() - i,
        {
            let ghost before = out@;
            out.push(
                (
                    copy_bytes(&self.entries[i].0),
                    self.entries[i].1,
                    self.entries[i].2.clone(),
                ),
            );
            i = i + 1;
            proof {
                assert(entries_view(out@) =~= entries_view(before).push(s[i - 1]));
                assert(s.take(i as int) =~= s.take(i - 1).push(s[i - 1]));
            }
        }
        proof {
            assert(s.take(i as int) =~= s);
        }
        out
    }

    fn live_key_count(&self) -> (n: usize) {
        let ghost s = self.entries();
        let mut n: usize = 0;
        let mut i: usize = 0;
        proof {
            assert(s.take(0) =~= Seq::empty());
        }
        while i < self.entries.len()
            invariant
                i <= self.entries.len(),
                s == entries_view(self.entries@),
                n <= i,
                n == live_count(s.take(i as int)),
            decreases self.entries.len() - i,
        {
            proof {
                assert(s.take(i + 1).drop_last() =~= s.take(i as int));
            }
            if self.entries[i].2.is_live() {
                n = n + 1;
            }
            i = i + 1;
        }
        proof {
            assert(s.take(i as int) =~= s);
        }
        n
    }

    fn clear(&mut self) {
        self.entries = Vec::new();
        proof {
            assert(self.entries() =~= Seq::<EntryView>::empty());
        }
    }
}

/// The matches among the first `i` entries come first among all matches.
proof fn lemma_live_matches_prefix(s: Seq<EntryView>, i: int, prefix: Seq<u8>)
    requires
        0 <= i <= s.len(),
    ensures
        live_matches(s.take(i), prefix).len() <= live_matches(s, prefix).len(),
        live_matches(s, prefix).take(live_matches(s.take(i), prefix).len() as int) == live_matches(
            s.take(i),
            prefix,
        ),
    decreases s.len() - i,
{
    if i == s.len() {
        assert(s.take(i) =~= s);
        assert(live_matches(s, prefix).take(live_matches(s, prefix).len() as int) =~= live_matches(
            s,
            prefix,
        ));
    } else {
        lemma_live_matches_prefix(s, i + 1, prefix);
        assert(s.take(i + 1).drop_last() =~= s.take(i));
        let a = live_matches(s.take(i), prefix);
        let b = live_matches(s.take(i + 1), prefix);
        let all = live_matches(s, prefix);
        assert(b.take(a.len() as int) =~= a);
        assert(all.take(a.len() as int) =~= all.take(b.len() as int).take(a.len() as int));
    }
}

} // verus!
