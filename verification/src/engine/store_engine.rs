//! The engine surface and the comparison of two engines.

use crate::common::wire::copy_bytes;
use crate::engine::key_order::{
    key_before, lemma_key_irreflexive, lemma_key_transitive, order_keys, KeyOrder,
};
use crate::engine::op::{Batch, Cell, CellView, EngineDiff, OpView};
use vstd::prelude::*;

verus! {

/// A key, the slot that last wrote it, and what it holds.
pub type EntryView = (Seq<u8>, u64, CellView);

/// What a stream of entries says.
pub open spec fn entries_view(v: Seq<(Vec<u8>, u64, Cell)>) -> Seq<EntryView> {
    v.map_values(|e: (Vec<u8>, u64, Cell)| (e.0@, e.1, e.2@))
}

/// Keys are in ascending order, and none occurs twice.
pub open spec fn keys_sorted(s: Seq<EntryView>) -> bool {
    forall|i: int, j: int| 0 <= i < j < s.len() ==> key_before(#[trigger] s[i].0, #[trigger] s[j].0)
}

/// The slot and cell of `key`, if the stream has the key.
pub open spec fn lookup(s: Seq<EntryView>, key: Seq<u8>) -> Option<(u64, CellView)> {
    if exists|i: int| 0 <= i < s.len() && #[trigger] s[i].0 == key {
        let i = choose|i: int| 0 <= i < s.len() && #[trigger] s[i].0 == key;
        Some((s[i].1, s[i].2))
    } else {
        None
    }
}

pub proof fn lemma_lookup_at(s: Seq<EntryView>, i: int)
    requires
        keys_sorted(s),
        0 <= i < s.len(),
    ensures
        lookup(s, s[i].0) == Some((s[i].1, s[i].2)),
{
    let j = choose|j: int| 0 <= j < s.len() && #[trigger] s[j].0 == s[i].0;
    assert(s[i].0 == s[i].0);
    lemma_key_irreflexive(s[i].0);
    if i < j {
        assert(key_before(s[i].0, s[j].0));
    } else if j < i {
        assert(key_before(s[j].0, s[i].0));
    }
}

/// What the last operation on `key` in `ops` leaves there, if there is any.
pub open spec fn last_op(ops: Seq<OpView>, key: Seq<u8>) -> Option<CellView>
    decreases ops.len(),
{
    if ops.len() == 0 {
        None
    } else {
        match last_op(ops.drop_first(), key) {
            Some(c) => Some(c),
            None => if ops[0].0 == key {
                Some(ops[0].1)
            } else {
                None
            },
        }
    }
}

/// What a key holds after `op` was applied to it at `slot`: nothing changes
/// without an operation, nor when the key already has that slot or a later one.
pub open spec fn applied(
    current: Option<(u64, CellView)>,
    slot: u64,
    op: Option<CellView>,
) -> Option<(u64, CellView)> {
    match (current, op) {
        (_, None) => current,
        (Some((resolved, _)), Some(cell)) => if slot <= resolved {
            current
        } else {
            Some((slot, cell))
        },
        (None, Some(cell)) => Some((slot, cell)),
    }
}

/// `after` is what `before` becomes when `ops` are applied at `slot`.
pub open spec fn is_applied(
    before: Seq<EntryView>,
    after: Seq<EntryView>,
    slot: u64,
    ops: Seq<OpView>,
) -> bool {
    forall|k: Seq<u8>| #[trigger]
        lookup(after, k) == applied(lookup(before, k), slot, last_op(ops, k))
}

/// The live entries whose key starts with `prefix`, in order.
pub open spec fn live_matches(s: Seq<EntryView>, prefix: Seq<u8>) -> Seq<(Seq<u8>, u64, Seq<u8>)>
    decreases s.len(),
{
    if s.len() == 0 {
        Seq::empty()
    } else {
        let front = live_matches(s.drop_last(), prefix);
        match s.last().2 {
            Some(v) if prefix.is_prefix_of(s.last().0) => front.push((s.last().0, s.last().1, v)),
            _ => front,
        }
    }
}

/// Number of keys that hold a value.
pub open spec fn live_count(s: Seq<EntryView>) -> nat
    decreases s.len(),
{
    if s.len() == 0 {
        0
    } else {
        live_count(s.drop_last()) + if s.last().2 is Some {
            1nat
        } else {
            0
        }
    }
}

/// What a scan hands out.
pub open spec fn items_view(v: Seq<(Vec<u8>, u64, Vec<u8>)>) -> Seq<(Seq<u8>, u64, Seq<u8>)> {
    v.map_values(|e: (Vec<u8>, u64, Vec<u8>)| (e.0@, e.1, e.2@))
}

/// What one side of a difference says.
pub open spec fn side_view(s: Option<(u64, Cell)>) -> Option<(u64, CellView)> {
    match s {
        Some((slot, c)) => Some((slot, c@)),
        None => None,
    }
}

/// `diffs` are exactly the keys at which `left` and `right` differ, in key
/// order, each with what the two sides hold there.
pub open spec fn is_diff(
    left: Seq<EntryView>,
    right: Seq<EntryView>,
    diffs: Seq<EngineDiff>,
) -> bool {
    &&& forall|i: int, j: int|
        0 <= i < j < diffs.len() ==> key_before(#[trigger] diffs[i].key@, #[trigger] diffs[j].key@)
    &&& forall|i: int| 0 <= i < diffs.len() ==> is_diff_at(left, right, #[trigger] diffs[i])
    &&& forall|k: Seq<u8>| #[trigger]
        lookup(left, k) != lookup(right, k) ==> exists|i: int|
            0 <= i < diffs.len() && #[trigger] diffs[i].key@ == k
}

/// `d` tells what the two sides hold at a key where they differ.
pub open spec fn is_diff_at(left: Seq<EntryView>, right: Seq<EntryView>, d: EngineDiff) -> bool {
    &&& side_view(d.left) == lookup(left, d.key@)
    &&& side_view(d.right) == lookup(right, d.key@)
    &&& side_view(d.left) != side_view(d.right)
}

/// Storage engine surface. An engine is its entries in key order, tombstones
/// among them.
pub trait Engine: Sized {
    /// All entries, in key order.
    spec fn entries(&self) -> Seq<EntryView>;

    /// Apply `batch` at `slot`. An operation is skipped when the key's slot is
    /// not below `slot`; of several operations on one key the last counts.
    fn apply(&mut self, slot: u64, batch: &Batch)
        requires
            keys_sorted(old(self).entries()),
        ensures
            keys_sorted(final(self).entries()),
            is_applied(old(self).entries(), final(self).entries(), slot, batch@),
    ;

    /// The value of `key` and the slot that wrote it, unless the key was never
    /// written or was deleted.
    fn get(&self, key: &[u8]) -> (r: Option<(u64, Vec<u8>)>)
        requires
            keys_sorted(self.entries()),
        ensures
            match (r, lookup(self.entries(), key@)) {
                (Some((slot, value)), Some((s, Some(v)))) => slot == s && value@ == v,
                (Some(_), _) => false,
                (None, Some((_, Some(_)))) => false,
                (None, _) => true,
            },
    ;

    /// The live entries whose key starts with `prefix`, in key order, at most
    /// `limit` of them (`0` for all), and whether there were more.
    fn scan(&self, prefix: &[u8], limit: usize) -> (r: (Vec<(Vec<u8>, u64, Vec<u8>)>, bool))
        requires
            keys_sorted(self.entries()),
        ensures
            ({
                let all = live_matches(self.entries(), prefix@);
                &&& r.1 == (limit != 0 && all.len() > limit)
                &&& items_view(r.0@) == if r.1 {
                    all.take(limit as int)
                } else {
                    all
                }
            }),
            cut_at_limit(live_matches(self.entries(), prefix@), limit, items_view(r.0@), r.1),
    ;

    /// All entries, in key order.
    fn iter_all(&self) -> (r: Vec<(Vec<u8>, u64, Cell)>)
        ensures
            entries_view(r@) == self.entries(),
    ;

    /// Number of keys that hold a value.
    fn live_key_count(&self) -> (n: usize)
        ensures
            n == live_count(self.entries()),
    ;

    /// Drop all entries.
    fn clear(&mut self)
        ensures
            final(self).entries() == Seq::<EntryView>::empty(),
    ;
}

/// The differences between two engines, in key order. None means that the two
/// hold the same slot and cell at every key, tombstones among them.
pub fn compare<L: Engine, R: Engine>(left: &L, right: &R) -> (diffs: Vec<EngineDiff>)
    requires
        keys_sorted(left.entries()),
        keys_sorted(right.entries()),
    ensures
        is_diff(left.entries(), right.entries(), diffs@),
{
    let l = left.iter_all();
    let r = right.iter_all();
    diff_streams(&l, &r)
}

fn one_sided(e: &(Vec<u8>, u64, Cell), on_left: bool) -> (d: EngineDiff)
    ensures
        d.key@ == e.0@,
        side_view(d.left) == if on_left {
            Some((e.1, e.2@))
        } else {
            None
        },
        side_view(d.right) == if on_left {
            None
        } else {
            Some((e.1, e.2@))
        },
{
    if on_left {
        EngineDiff { key: copy_bytes(&e.0), left: Some((e.1, e.2.clone())), right: None }
    } else {
        EngineDiff { key: copy_bytes(&e.0), left: None, right: Some((e.1, e.2.clone())) }
    }
}

/// State of a merge: everything before `i` and `j` is accounted for.
spec fn merged(
    l: Seq<EntryView>,
    r: Seq<EntryView>,
    i: int,
    j: int,
    diffs: Seq<EngineDiff>,
) -> bool {
    &&& 0 <= i <= l.len()
    &&& 0 <= j <= r.len()
    &&& forall|p: int, q: int|
        0 <= p < i && j <= q < r.len() ==> key_before(#[trigger] l[p].0, #[trigger] r[q].0)
    &&& forall|p: int, q: int|
        i <= p < l.len() && 0 <= q < j ==> key_before(#[trigger] r[q].0, #[trigger] l[p].0)
    &&& forall|a: int, b: int|
        0 <= a < b < diffs.len() ==> key_before(#[trigger] diffs[a].key@, #[trigger] diffs[b].key@)
    &&& forall|a: int, p: int|
        0 <= a < diffs.len() && i <= p < l.len() ==> key_before(
            #[trigger] diffs[a].key@,
            #[trigger] l[p].0,
        )
    &&& forall|a: int, q: int|
        0 <= a < diffs.len() && j <= q < r.len() ==> key_before(
            #[trigger] diffs[a].key@,
            #[trigger] r[q].0,
        )
    &&& forall|a: int| 0 <= a < diffs.len() ==> is_diff_at(l, r, #[trigger] diffs[a])
    &&& forall|k: Seq<u8>| #[trigger]
        lookup(l, k) != lookup(r, k) ==> {
            ||| exists|a: int| 0 <= a < diffs.len() && #[trigger] diffs[a].key@ == k
            ||| exists|p: int| i <= p < l.len() && #[trigger] l[p].0 == k
            ||| exists|q: int| j <= q < r.len() && #[trigger] r[q].0 == k
        }
}

/// Advancing the left side past an entry that the right side lacks.
proof fn lemma_merge_left(
    l: Seq<EntryView>,
    r: Seq<EntryView>,
    i: int,
    j: int,
    diffs: Seq<EngineDiff>,
    d: EngineDiff,
)
    requires
        keys_sorted(l),
        keys_sorted(r),
        merged(l, r, i, j, diffs),
        i < l.len(),
        j < r.len() ==> key_before(l[i].0, r[j].0),
        d.key@ == l[i].0,
        side_view(d.left) == Some((l[i].1, l[i].2)),
        side_view(d.right) is None,
    ensures
        merged(l, r, i + 1, j, diffs.push(d)),
{
    let next = diffs.push(d);
    let k0 = l[i].0;
    lemma_lookup_at(l, i);
    assert forall|q: int| j <= q < r.len() implies key_before(k0, #[trigger] r[q].0) by {
        if j < q {
            assert(key_before(r[j].0, r[q].0));
            lemma_key_transitive(k0, r[j].0, r[q].0);
        }
    }
    assert(lookup(r, k0) is None) by {
        assert forall|q: int| 0 <= q < r.len() implies #[trigger] r[q].0 != k0 by {
            lemma_key_irreflexive(k0);
            if q < j {
                assert(key_before(r[q].0, l[i].0));
            } else {
                assert(key_before(k0, r[q].0));
            }
        }
    }
    assert(is_diff_at(l, r, d));
    assert forall|a: int, b: int| 0 <= a < b < next.len() implies key_before(
        #[trigger] next[a].key@,
        #[trigger] next[b].key@,
    ) by {
        if b == diffs.len() {
            assert(key_before(diffs[a].key@, l[i].0));
        } else {
            assert(key_before(diffs[a].key@, diffs[b].key@));
        }
    }
    assert forall|a: int, p: int| 0 <= a < next.len() && i + 1 <= p < l.len() implies key_before(
        #[trigger] next[a].key@,
        #[trigger] l[p].0,
    ) by {
        if a == diffs.len() {
            assert(key_before(l[i].0, l[p].0));
        } else {
            assert(key_before(diffs[a].key@, l[p].0));
        }
    }
    assert forall|a: int, q: int| 0 <= a < next.len() && j <= q < r.len() implies key_before(
        #[trigger] next[a].key@,
        #[trigger] r[q].0,
    ) by {
        if a < diffs.len() {
            assert(key_before(diffs[a].key@, r[q].0));
        }
    }
    assert forall|a: int| 0 <= a < next.len() implies is_diff_at(l, r, #[trigger] next[a]) by {
        if a < diffs.len() {
            assert(is_diff_at(l, r, diffs[a]));
        }
    }
    assert forall|k: Seq<u8>| #[trigger] lookup(l, k) != lookup(r, k) implies {
        ||| exists|a: int| 0 <= a < next.len() && #[trigger] next[a].key@ == k
        ||| exists|p: int| i + 1 <= p < l.len() && #[trigger] l[p].0 == k
        ||| exists|q: int| j <= q < r.len() && #[trigger] r[q].0 == k
    } by {
        if exists|a: int| 0 <= a < diffs.len() && #[trigger] diffs[a].key@ == k {
            let a = choose|a: int| 0 <= a < diffs.len() && #[trigger] diffs[a].key@ == k;
            assert(next[a].key@ == k);
        } else if exists|p: int| i <= p < l.len() && #[trigger] l[p].0 == k {
            let p = choose|p: int| i <= p < l.len() && #[trigger] l[p].0 == k;
            if p == i {
                assert(next[diffs.len() as int].key@ == k);
            }
        }
    }
}

/// Swapping the two sides of a merge.
proof fn lemma_merged_swap(
    l: Seq<EntryView>,
    r: Seq<EntryView>,
    i: int,
    j: int,
    diffs: Seq<EngineDiff>,
    swapped: Seq<EngineDiff>,
)
    requires
        merged(l, r, i, j, diffs),
        swapped.len() == diffs.len(),
        forall|a: int|
            0 <= a < diffs.len() ==> (#[trigger] swapped[a]).key == diffs[a].key && swapped[a].left
                == diffs[a].right && swapped[a].right == diffs[a].left,
    ensures
        merged(r, l, j, i, swapped),
{
    assert forall|a: int| 0 <= a < swapped.len() implies is_diff_at(r, l, #[trigger] swapped[a]) by {
        assert(is_diff_at(l, r, diffs[a]));
    }
    assert forall|k: Seq<u8>| #[trigger] lookup(r, k) != lookup(l, k) implies {
        ||| exists|a: int| 0 <= a < swapped.len() && #[trigger] swapped[a].key@ == k
        ||| exists|p: int| j <= p < r.len() && #[trigger] r[p].0 == k
        ||| exists|q: int| i <= q < l.len() && #[trigger] l[q].0 == k
    } by {
        assert(lookup(l, k) != lookup(r, k));
        if exists|a: int| 0 <= a < diffs.len() && #[trigger] diffs[a].key@ == k {
            let a = choose|a: int| 0 <= a < diffs.len() && #[trigger] diffs[a].key@ == k;
            assert(swapped[a].key@ == k);
        }
    }
    assert forall|a: int, b: int| 0 <= a < b < swapped.len() implies key_before(
        #[trigger] swapped[a].key@,
        #[trigger] swapped[b].key@,
    ) by {
        assert(key_before(diffs[a].key@, diffs[b].key@));
    }
    assert forall|a: int, p: int| 0 <= a < swapped.len() && j <= p < r.len() implies key_before(
        #[trigger] swapped[a].key@,
        #[trigger] r[p].0,
    ) by {
        assert(key_before(diffs[a].key@, r[p].0));
    }
    assert forall|a: int, q: int| 0 <= a < swapped.len() && i <= q < l.len() implies key_before(
        #[trigger] swapped[a].key@,
        #[trigger] l[q].0,
    ) by {
        assert(key_before(diffs[a].key@, l[q].0));
    }
}

/// The same differences seen from the other side.
spec fn swap_sides(diffs: Seq<EngineDiff>) -> Seq<EngineDiff> {
    diffs.map_values(|d: EngineDiff| EngineDiff { key: d.key, left: d.right, right: d.left })
}

/// Advancing the right side past an entry that the left side lacks.
proof fn lemma_merge_right(
    l: Seq<EntryView>,
    r: Seq<EntryView>,
    i: int,
    j: int,
    diffs: Seq<EngineDiff>,
    d: EngineDiff,
)
    requires
        keys_sorted(l),
        keys_sorted(r),
        merged(l, r, i, j, diffs),
        j < r.len(),
        i < l.len() ==> key_before(r[j].0, l[i].0),
        d.key@ == r[j].0,
        side_view(d.right) == Some((r[j].1, r[j].2)),
        side_view(d.left) is None,
    ensures
        merged(l, r, i, j + 1, diffs.push(d)),
{
    let swapped = swap_sides(diffs);
    let sd = EngineDiff { key: d.key, left: d.right, right: d.left };
    lemma_merged_swap(l, r, i, j, diffs, swapped);
    lemma_merge_left(r, l, j, i, swapped, sd);
    lemma_merged_swap(r, l, j + 1, i, swapped.push(sd), diffs.push(d));
}

/// Advancing both sides past entries at the same key.
proof fn lemma_merge_both(
    l: Seq<EntryView>,
    r: Seq<EntryView>,
    i: int,
    j: int,
    diffs: Seq<EngineDiff>,
    next: Seq<EngineDiff>,
)
    requires
        keys_sorted(l),
        keys_sorted(r),
        merged(l, r, i, j, diffs),
        i < l.len(),
        j < r.len(),
        l[i].0 == r[j].0,
        if l[i].1 == r[j].1 && l[i].2 == r[j].2 {
            next == diffs
        } else {
            &&& next.len() == diffs.len() + 1
            &&& next.drop_last() == diffs
            &&& next.last().key@ == l[i].0
            &&& side_view(next.last().left) == Some((l[i].1, l[i].2))
            &&& side_view(next.last().right) == Some((r[j].1, r[j].2))
        },
    ensures
        merged(l, r, i + 1, j + 1, next),
{
    let k0 = l[i].0;
    lemma_lookup_at(l, i);
    lemma_lookup_at(r, j);
    assert forall|a: int| 0 <= a < diffs.len() implies #[trigger] next[a] == diffs[a] by {
        if next.len() != diffs.len() {
            assert(next.drop_last()[a] == next[a]);
        }
    }
    assert forall|p: int, q: int| 0 <= p < i + 1 && j + 1 <= q < r.len() implies key_before(
        #[trigger] l[p].0,
        #[trigger] r[q].0,
    ) by {
        if p == i {
            assert(key_before(r[j].0, r[q].0));
        }
    }
    assert forall|p: int, q: int| i + 1 <= p < l.len() && 0 <= q < j + 1 implies key_before(
        #[trigger] r[q].0,
        #[trigger] l[p].0,
    ) by {
        if q == j {
            assert(key_before(l[i].0, l[p].0));
        }
    }
    assert forall|a: int, b: int| 0 <= a < b < next.len() implies key_before(
        #[trigger] next[a].key@,
        #[trigger] next[b].key@,
    ) by {
        if b == diffs.len() {
            assert(key_before(diffs[a].key@, l[i].0));
        } else {
            assert(key_before(diffs[a].key@, diffs[b].key@));
        }
    }
    assert forall|a: int, p: int| 0 <= a < next.len() && i + 1 <= p < l.len() implies key_before(
        #[trigger] next[a].key@,
        #[trigger] l[p].0,
    ) by {
        if a == diffs.len() {
            assert(key_before(l[i].0, l[p].0));
        } else {
            assert(key_before(diffs[a].key@, l[p].0));
        }
    }
    assert forall|a: int, q: int| 0 <= a < next.len() && j + 1 <= q < r.len() implies key_before(
        #[trigger] next[a].key@,
        #[trigger] r[q].0,
    ) by {
        if a == diffs.len() {
            assert(key_before(r[j].0, r[q].0));
        } else {
            assert(key_before(diffs[a].key@, r[q].0));
        }
    }
    assert forall|a: int| 0 <= a < next.len() implies is_diff_at(l, r, #[trigger] next[a]) by {
        if a < diffs.len() {
            assert(is_diff_at(l, r, diffs[a]));
        }
    }
    assert forall|k: Seq<u8>| #[trigger] lookup(l, k) != lookup(r, k) implies {
        ||| exists|a: int| 0 <= a < next.len() && #[trigger] next[a].key@ == k
        ||| exists|p: int| i + 1 <= p < l.len() && #[trigger] l[p].0 == k
        ||| exists|q: int| j + 1 <= q < r.len() && #[trigger] r[q].0 == k
    } by {
        if k == k0 {
            assert(next[diffs.len() as int].key@ == k);
        } else if exists|a: int| 0 <= a < diffs.len() && #[trigger] diffs[a].key@ == k {
            let a = choose|a: int| 0 <= a < diffs.len() && #[trigger] diffs[a].key@ == k;
            assert(next[a].key@ == k);
        } else if exists|p: int| i <= p < l.len() && #[trigger] l[p].0 == k {
            let p = choose|p: int| i <= p < l.len() && #[trigger] l[p].0 == k;
            assert(p != i);
        } else {
            let q = choose|q: int| j <= q < r.len() && #[trigger] r[q].0 == k;
            assert(q != j);
        }
    }
}

/// The differences between two streams of entries.
pub fn diff_streams(
    left: &Vec<(Vec<u8>, u64, Cell)>,
    right: &Vec<(Vec<u8>, u64, Cell)>,
) -> (diffs: Vec<EngineDiff>)
    requires
        keys_sorted(entries_view(left@)),
        keys_sorted(entries_view(right@)),
    ensures
        is_diff(entries_view(left@), entries_view(right@), diffs@),
{
    let ghost l = entries_view(left@);
    let ghost r = entries_view(right@);
    let mut diffs: Vec<EngineDiff> = Vec::new();
    let mut i: usize = 0;
    let mut j: usize = 0;
    proof {
        assert forall|k: Seq<u8>| #[trigger] lookup(l, k) != lookup(r, k) implies {
            ||| exists|p: int| 0 <= p < l.len() && #[trigger] l[p].0 == k
            ||| exists|q: int| 0 <= q < r.len() && #[trigger] r[q].0 == k
        } by {}
    }
    while i < left.len() || j < right.len()
        invariant
            l == entries_view(left@),
            r == entries_view(right@),
            keys_sorted(l),
            keys_sorted(r),
            i <= left.len(),
            j <= right.len(),
            merged(l, r, i as int, j as int, diffs@),
        decreases left.len() - i + right.len() - j,
    {
        let ghost before = diffs@;
        if i < left.len() && j < right.len() {
            match order_keys(left[i].0.as_slice(), right[j].0.as_slice()) {
                KeyOrder::Before => {
                    diffs.push(one_sided(&left[i], true));
                    proof {
                        lemma_merge_left(l, r, i as int, j as int, before, diffs@.last());
                        assert(diffs@ =~= before.push(diffs@.last()));
                    }
                    i = i + 1;
                },
                KeyOrder::After => {
                    diffs.push(one_sided(&right[j], false));
                    proof {
                        lemma_merge_right(l, r, i as int, j as int, before, diffs@.last());
                        assert(diffs@ =~= before.push(diffs@.last()));
                    }
                    j = j + 1;
                },
                KeyOrder::Same => {
                    if left[i].1 != right[j].1 || !left[i].2.same(&right[j].2) {
                        diffs.push(
                            EngineDiff {
                                key: copy_bytes(&left[i].0),
                                left: Some((left[i].1, left[i].2.clone())),
                                right: Some((right[j].1, right[j].2.clone())),
                            },
                        );
                        proof {
                            assert(diffs@.drop_last() =~= before);
                        }
                    }
                    proof {
                        lemma_merge_both(l, r, i as int, j as int, before, diffs@);
                    }
                    i = i + 1;
                    j = j + 1;
                },
            }
        } else if i < left.len() {
            diffs.push(one_sided(&left[i], true));
            proof {
                lemma_merge_left(l, r, i as int, j as int, before, diffs@.last());
                assert(diffs@ =~= before.push(diffs@.last()));
            }
            i = i + 1;
        } else {
            diffs.push(one_sided(&right[j], false));
            proof {
                lemma_merge_right(l, r, i as int, j as int, before, diffs@.last());
                assert(diffs@ =~= before.push(diffs@.last()));
            }
            j = j + 1;
        }
    }
    diffs
}

// ── Laws of engines ──────────────────────────────────────────────
/// Applying a batch a second time at the same slot changes nothing.
pub proof fn replay_changes_nothing(
    before: Seq<EntryView>,
    once: Seq<EntryView>,
    twice: Seq<EntryView>,
    slot: u64,
    ops: Seq<OpView>,
)
    requires
        is_applied(before, once, slot, ops),
        is_applied(once, twice, slot, ops),
    ensures
        forall|k: Seq<u8>| #[trigger] lookup(twice, k) == lookup(once, k),
{
    assert forall|k: Seq<u8>| #[trigger] lookup(twice, k) == lookup(once, k) by {
        assert(lookup(once, k) == applied(lookup(before, k), slot, last_op(ops, k)));
    }
}

/// Batches of different slots may be applied in either order: at every key the
/// highest slot wins.
pub proof fn apply_order_does_not_matter(
    start: Seq<EntryView>,
    a: Seq<EntryView>,
    ab: Seq<EntryView>,
    b: Seq<EntryView>,
    ba: Seq<EntryView>,
    slot_a: u64,
    ops_a: Seq<OpView>,
    slot_b: u64,
    ops_b: Seq<OpView>,
)
    requires
        slot_a != slot_b,
        is_applied(start, a, slot_a, ops_a),
        is_applied(a, ab, slot_b, ops_b),
        is_applied(start, b, slot_b, ops_b),
        is_applied(b, ba, slot_a, ops_a),
    ensures
        forall|k: Seq<u8>| #[trigger] lookup(ab, k) == lookup(ba, k),
{
    assert forall|k: Seq<u8>| #[trigger] lookup(ab, k) == lookup(ba, k) by {
        assert(lookup(a, k) == applied(lookup(start, k), slot_a, last_op(ops_a, k)));
        assert(lookup(b, k) == applied(lookup(start, k), slot_b, last_op(ops_b, k)));
        assert(lookup(ba, k) == applied(lookup(b, k), slot_a, last_op(ops_a, k)));
    }
}

/// A key reads back what the last operation on it in a batch wrote, unless
/// this slot or a later one had already written the key. No key's slot goes
/// back, and a key that the batch does not mention stays as it is.
pub proof fn apply_is_read_back(
    before: Seq<EntryView>,
    after: Seq<EntryView>,
    slot: u64,
    ops: Seq<OpView>,
    key: Seq<u8>,
)
    requires
        is_applied(before, after, slot, ops),
    ensures
        last_op(ops, key) matches Some(cell) ==> (lookup(before, key) matches Some((s, _)) ==> s
            < slot) ==> lookup(after, key) == Some((slot, cell)),
        lookup(before, key) matches Some((s, _)) ==> (lookup(after, key) matches Some((t, _)) && s
            <= t),
        last_op(ops, key) is None ==> lookup(after, key) == lookup(before, key),
{
    assert(lookup(after, key) == applied(lookup(before, key), slot, last_op(ops, key)));
}

/// Two engines have no difference exactly when they hold the same slot and
/// cell at every key.
pub proof fn no_difference_iff_same_contents(
    left: Seq<EntryView>,
    right: Seq<EntryView>,
    diffs: Seq<EngineDiff>,
)
    requires
        is_diff(left, right, diffs),
    ensures
        diffs.len() == 0 <==> (forall|k: Seq<u8>| #[trigger] lookup(left, k) == lookup(right, k)),
{
    if forall|k: Seq<u8>| #[trigger] lookup(left, k) == lookup(right, k) {
        if diffs.len() > 0 {
            assert(is_diff_at(left, right, diffs[0]));
            assert(lookup(left, diffs[0].key@) == lookup(right, diffs[0].key@));
        }
    }
}

/// The keys before the last one, with what they hold.
proof fn lemma_lookup_without_last(s: Seq<EntryView>, k: Seq<u8>)
    requires
        keys_sorted(s),
        s.len() > 0,
    ensures
        keys_sorted(s.drop_last()),
        lookup(s.drop_last(), k) == if k == s.last().0 {
            None
        } else {
            lookup(s, k)
        },
{
    let front = s.drop_last();
    let n = s.len() - 1;
    assert forall|i: int, j: int| 0 <= i < j < front.len() implies key_before(
        #[trigger] front[i].0,
        #[trigger] front[j].0,
    ) by {
        assert(key_before(s[i].0, s[j].0));
    }
    if exists|i: int| 0 <= i < front.len() && #[trigger] front[i].0 == k {
        let i = choose|i: int| 0 <= i < front.len() && #[trigger] front[i].0 == k;
        lemma_lookup_at(front, i);
        assert(front[i] == s[i]);
        lemma_lookup_at(s, i);
        lemma_key_irreflexive(k);
        assert(key_before(s[i].0, s[n].0));
    } else if exists|i: int| 0 <= i < s.len() && #[trigger] s[i].0 == k {
        let i = choose|i: int| 0 <= i < s.len() && #[trigger] s[i].0 == k;
        if i < n {
            assert(front[i].0 == k);
        }
    }
}

/// Entries in key order are fixed by what every key holds.
proof fn lemma_entries_follow_from_lookups(a: Seq<EntryView>, b: Seq<EntryView>)
    requires
        keys_sorted(a),
        keys_sorted(b),
        forall|k: Seq<u8>| #[trigger] lookup(a, k) == lookup(b, k),
    ensures
        a == b,
    decreases a.len(),
{
    if a.len() == 0 {
        if b.len() > 0 {
            lemma_lookup_at(b, 0);
            assert(lookup(a, b[0].0) == lookup(b, b[0].0));
        }
        assert(a =~= b);
    } else {
        let ka = a.last().0;
        lemma_lookup_at(a, a.len() - 1);
        assert(lookup(a, ka) == lookup(b, ka));
        let p = choose|i: int| 0 <= i < b.len() && #[trigger] b[i].0 == ka;
        let kb = b.last().0;
        lemma_lookup_at(b, b.len() - 1);
        assert(lookup(a, kb) == lookup(b, kb));
        let q = choose|i: int| 0 <= i < a.len() && #[trigger] a[i].0 == kb;
        if p < b.len() - 1 {
            assert(key_before(b[p].0, b[b.len() - 1].0));
            lemma_key_irreflexive(ka);
            if q < a.len() - 1 {
                assert(key_before(a[q].0, a[a.len() - 1].0));
                lemma_key_transitive(ka, kb, ka);
            }
        }
        assert(ka == kb);
        assert(a.last() == b.last());
        assert forall|k: Seq<u8>| #[trigger]
            lookup(a.drop_last(), k) == lookup(b.drop_last(), k) by {
            lemma_lookup_without_last(a, k);
            lemma_lookup_without_last(b, k);
            assert(lookup(a, k) == lookup(b, k));
        }
        lemma_lookup_without_last(a, ka);
        lemma_lookup_without_last(b, ka);
        lemma_entries_follow_from_lookups(a.drop_last(), b.drop_last());
        assert(a =~= a.drop_last().push(a.last()));
        assert(b =~= b.drop_last().push(b.last()));
    }
}

/// Two engines have no difference exactly when their entries are the same, in
/// the same order; so an engine does not differ from itself.
pub proof fn no_difference_iff_same_entries(
    left: Seq<EntryView>,
    right: Seq<EntryView>,
    diffs: Seq<EngineDiff>,
)
    requires
        keys_sorted(left),
        keys_sorted(right),
        is_diff(left, right, diffs),
    ensures
        diffs.len() == 0 <==> left == right,
{
    no_difference_iff_same_contents(left, right, diffs);
    if diffs.len() == 0 {
        lemma_entries_follow_from_lookups(left, right);
    }
}

/// The keys of differences, as entries that hold nothing.
spec fn diff_keys(diffs: Seq<EngineDiff>) -> Seq<EntryView> {
    diffs.map_values(|d: EngineDiff| (d.key@, 0u64, None::<Seq<u8>>))
}

proof fn lemma_diff_keys(left: Seq<EntryView>, right: Seq<EntryView>, diffs: Seq<EngineDiff>)
    requires
        is_diff(left, right, diffs),
    ensures
        keys_sorted(diff_keys(diffs)),
        forall|k: Seq<u8>| #[trigger]
            lookup(diff_keys(diffs), k) == if lookup(left, k) != lookup(right, k) {
                Some((0u64, None::<Seq<u8>>))
            } else {
                None
            },
{
    let keys = diff_keys(diffs);
    assert forall|i: int, j: int| 0 <= i < j < keys.len() implies key_before(
        #[trigger] keys[i].0,
        #[trigger] keys[j].0,
    ) by {
        assert(key_before(diffs[i].key@, diffs[j].key@));
    }
    assert forall|k: Seq<u8>| #[trigger]
        lookup(keys, k) == if lookup(left, k) != lookup(right, k) {
            Some((0u64, None::<Seq<u8>>))
        } else {
            None
        } by {
        if lookup(left, k) != lookup(right, k) {
            let i = choose|i: int| 0 <= i < diffs.len() && #[trigger] diffs[i].key@ == k;
            assert(keys[i].0 == k);
            lemma_lookup_at(keys, i);
        } else if exists|i: int| 0 <= i < keys.len() && #[trigger] keys[i].0 == k {
            let i = choose|i: int| 0 <= i < keys.len() && #[trigger] keys[i].0 == k;
            assert(is_diff_at(left, right, diffs[i]));
        }
    }
}

/// Comparing the other way round gives the same differences, in the same key
/// order, with the two sides of each one swapped.
pub proof fn swapped_engines_swap_the_sides(
    left: Seq<EntryView>,
    right: Seq<EntryView>,
    diffs: Seq<EngineDiff>,
    swapped: Seq<EngineDiff>,
)
    requires
        is_diff(left, right, diffs),
        is_diff(right, left, swapped),
    ensures
        swapped.len() == diffs.len(),
        forall|i: int|
            0 <= i < diffs.len() ==> {
                &&& (#[trigger] swapped[i]).key@ == diffs[i].key@
                &&& side_view(swapped[i].left) == side_view(diffs[i].right)
                &&& side_view(swapped[i].right) == side_view(diffs[i].left)
            },
{
    let a = diff_keys(diffs);
    let b = diff_keys(swapped);
    lemma_diff_keys(left, right, diffs);
    lemma_diff_keys(right, left, swapped);
    assert forall|k: Seq<u8>| #[trigger] lookup(a, k) == lookup(b, k) by {}
    lemma_entries_follow_from_lookups(a, b);
    assert forall|i: int| 0 <= i < diffs.len() implies {
        &&& (#[trigger] swapped[i]).key@ == diffs[i].key@
        &&& side_view(swapped[i].left) == side_view(diffs[i].right)
        &&& side_view(swapped[i].right) == side_view(diffs[i].left)
    } by {
        assert(a[i].0 == b[i].0);
        assert(is_diff_at(left, right, diffs[i]));
        assert(is_diff_at(right, left, swapped[i]));
    }
}

proof fn lemma_match_at(s: Seq<EntryView>, prefix: Seq<u8>, m: int)
    requires
        0 <= m < live_matches(s, prefix).len(),
    ensures
        ({
            let e = live_matches(s, prefix)[m];
            exists|i: int|
                0 <= i < s.len() && #[trigger] s[i] == (e.0, e.1, Some(e.2)) && prefix.is_prefix_of(
                    e.0,
                )
        }),
    decreases s.len(),
{
    let front = s.drop_last();
    let e = live_matches(s, prefix)[m];
    if m < live_matches(front, prefix).len() {
        lemma_match_at(front, prefix, m);
        let i = choose|i: int|
            0 <= i < front.len() && #[trigger] front[i] == (e.0, e.1, Some(e.2))
                && prefix.is_prefix_of(e.0);
        assert(s[i] == (e.0, e.1, Some(e.2)));
    } else {
        assert(s[s.len() - 1] == (e.0, e.1, Some(e.2)));
    }
}

proof fn lemma_entry_matches(s: Seq<EntryView>, prefix: Seq<u8>, i: int)
    requires
        0 <= i < s.len(),
        s[i].2 is Some,
        prefix.is_prefix_of(s[i].0),
    ensures
        live_matches(s, prefix).contains((s[i].0, s[i].1, s[i].2->0)),
    decreases s.len(),
{
    let front = s.drop_last();
    let e = (s[i].0, s[i].1, s[i].2->0);
    let all = live_matches(s, prefix);
    if i < front.len() {
        assert(front[i] == s[i]);
        lemma_entry_matches(front, prefix, i);
        let m = choose|m: int|
            0 <= m < live_matches(front, prefix).len() && live_matches(front, prefix)[m] == e;
        assert(all[m] == e);
    } else {
        assert(all[all.len() - 1] == e);
    }
}

/// An item is among the matches of a scan exactly if its key holds that value,
/// written at that slot, and starts with the prefix.
pub proof fn scan_finds_the_live_keys_with_the_prefix(
    s: Seq<EntryView>,
    prefix: Seq<u8>,
    key: Seq<u8>,
    slot: u64,
    value: Seq<u8>,
)
    requires
        keys_sorted(s),
    ensures
        live_matches(s, prefix).contains((key, slot, value)) <==> {
            &&& lookup(s, key) == Some((slot, Some(value)))
            &&& key.len() >= prefix.len()
            &&& key.take(prefix.len() as int) == prefix
        },
{
    let all = live_matches(s, prefix);
    if all.contains((key, slot, value)) {
        let m = choose|m: int| 0 <= m < all.len() && all[m] == (key, slot, value);
        lemma_match_at(s, prefix, m);
        let i = choose|i: int|
            0 <= i < s.len() && #[trigger] s[i] == (key, slot, Some(value)) && prefix.is_prefix_of(
                key,
            );
        lemma_lookup_at(s, i);
        assert(key.take(prefix.len() as int) =~= prefix);
    }
    if lookup(s, key) == Some((slot, Some(value))) && key.len() >= prefix.len() && key.take(
        prefix.len() as int,
    ) == prefix {
        let i = choose|i: int| 0 <= i < s.len() && #[trigger] s[i].0 == key;
        lemma_lookup_at(s, i);
        assert(prefix.is_prefix_of(key));
        lemma_entry_matches(s, prefix, i);
    }
}

/// The matches of a scan are in ascending key order, and no key occurs twice.
pub proof fn scan_is_in_key_order(s: Seq<EntryView>, prefix: Seq<u8>)
    requires
        keys_sorted(s),
    ensures
        forall|a: int, b: int|
            0 <= a < b < live_matches(s, prefix).len() ==> key_before(
                #[trigger] live_matches(s, prefix)[a].0,
                #[trigger] live_matches(s, prefix)[b].0,
            ),
    decreases s.len(),
{
    if s.len() > 0 {
        let front = s.drop_last();
        assert forall|i: int, j: int| 0 <= i < j < front.len() implies key_before(
            #[trigger] front[i].0,
            #[trigger] front[j].0,
        ) by {
            assert(key_before(s[i].0, s[j].0));
        }
        scan_is_in_key_order(front, prefix);
        let all = live_matches(s, prefix);
        let before = live_matches(front, prefix);
        assert forall|a: int, b: int| 0 <= a < b < all.len() implies key_before(
            #[trigger] all[a].0,
            #[trigger] all[b].0,
        ) by {
            assert(all[a] == before[a]);
            if b < before.len() {
                assert(all[b] == before[b]);
                assert(key_before(before[a].0, before[b].0));
            } else {
                lemma_match_at(front, prefix, a);
                let e = before[a];
                let i = choose|i: int|
                    0 <= i < front.len() && #[trigger] front[i] == (e.0, e.1, Some(e.2))
                        && prefix.is_prefix_of(e.0);
                assert(key_before(s[i].0, s[s.len() - 1].0));
                assert(s[i].0 == e.0);
            }
        }
    }
}

/// The live keys are those that hold a value: as many as a scan without a
/// prefix finds.
pub proof fn live_keys_are_those_with_a_value(s: Seq<EntryView>)
    ensures
        live_count(s) == s.filter(|e: EntryView| e.2 is Some).len(),
        live_count(s) == live_matches(s, Seq::empty()).len(),
    decreases s.len(),
{
    reveal(Seq::filter);
    if s.len() > 0 {
        live_keys_are_those_with_a_value(s.drop_last());
        assert(Seq::<u8>::empty().is_prefix_of(s.last().0));
    }
}

proof fn lemma_last_op_at(ops: Seq<OpView>, i: int)
    requires
        0 <= i < ops.len(),
        forall|j: int| i < j < ops.len() ==> (#[trigger] ops[j]).0 != ops[i].0,
    ensures
        last_op(ops, ops[i].0) == Some(ops[i].1),
    decreases ops.len(),
{
    let key = ops[i].0;
    let rest = ops.drop_first();
    assert forall|j: int| 0 <= j < rest.len() implies #[trigger] rest[j] == ops[j + 1] by {}
    if i > 0 {
        assert(rest[i - 1] == ops[i]);
        lemma_last_op_at(rest, i - 1);
    } else {
        lemma_no_op(rest, key);
    }
}

proof fn lemma_no_op(ops: Seq<OpView>, key: Seq<u8>)
    requires
        forall|j: int| 0 <= j < ops.len() ==> (#[trigger] ops[j]).0 != key,
    ensures
        last_op(ops, key) is None,
    decreases ops.len(),
{
    if ops.len() > 0 {
        let rest = ops.drop_first();
        assert forall|j: int| 0 <= j < rest.len() implies (#[trigger] rest[j]).0 != key by {
            assert(rest[j] == ops[j + 1]);
        }
        lemma_no_op(rest, key);
    }
}

/// A key that was last written below `slot`, or never, holds what the last
/// operation on it in the batch left: the value put there, or nothing after a
/// deletion.
pub proof fn last_operation_on_a_key_counts(
    before: Seq<EntryView>,
    after: Seq<EntryView>,
    slot: u64,
    ops: Seq<OpView>,
    i: int,
)
    requires
        is_applied(before, after, slot, ops),
        0 <= i < ops.len(),
        forall|j: int| i < j < ops.len() ==> (#[trigger] ops[j]).0 != ops[i].0,
        lookup(before, ops[i].0) matches Some((s, _)) ==> s < slot,
    ensures
        lookup(after, ops[i].0) == Some((slot, ops[i].1)),
{
    lemma_last_op_at(ops, i);
    assert(lookup(after, ops[i].0) == applied(
        lookup(before, ops[i].0),
        slot,
        last_op(ops, ops[i].0),
    ));
}

/// A key that no operation names, or that was last written at `slot` or later,
/// is left as it was: a slot is never applied over itself or a later one.
pub proof fn other_and_later_keys_are_kept(
    before: Seq<EntryView>,
    after: Seq<EntryView>,
    slot: u64,
    ops: Seq<OpView>,
    key: Seq<u8>,
)
    requires
        is_applied(before, after, slot, ops),
        (lookup(before, key) matches Some((s, _)) && s >= slot) || forall|j: int|
            0 <= j < ops.len() ==> (#[trigger] ops[j]).0 != key,
    ensures
        lookup(after, key) == lookup(before, key),
{
    assert(lookup(after, key) == applied(lookup(before, key), slot, last_op(ops, key)));
    if forall|j: int| 0 <= j < ops.len() ==> (#[trigger] ops[j]).0 != key {
        lemma_no_op(ops, key);
    }
}

/// `items` are the first of `all`, at most `limit` of them unless `limit` is
/// `0`, and `truncated` tells whether some are left out.
pub open spec fn cut_at_limit(
    all: Seq<(Seq<u8>, u64, Seq<u8>)>,
    limit: usize,
    items: Seq<(Seq<u8>, u64, Seq<u8>)>,
    truncated: bool,
) -> bool {
    if limit != 0 && all.len() > limit {
        truncated && items == all.take(limit as int)
    } else {
        !truncated && items == all
    }
}

/// A scan leaves nothing out but what comes behind as many items as were asked
/// for, and tells exactly then that something is left out. Without a limit it
/// leaves out nothing.
pub proof fn limit_cuts_the_scan_at_its_end(
    all: Seq<(Seq<u8>, u64, Seq<u8>)>,
    limit: usize,
    items: Seq<(Seq<u8>, u64, Seq<u8>)>,
    truncated: bool,
)
    requires
        cut_at_limit(all, limit, items, truncated),
    ensures
        forall|i: int| 0 <= i < items.len() ==> i < all.len() && #[trigger] items[i] == all[i],
        truncated <==> items.len() < all.len(),
        truncated ==> items.len() == limit,
        limit != 0 ==> items.len() <= limit,
        limit == 0 ==> !truncated,
{
}

} // verus!
