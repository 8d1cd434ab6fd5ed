//! Operations, batches and their byte form.
//!
//! A log entry's payload is a batch of operations:
//!
//! ```text
//! [count: u8] then for each operation
//!   [is_delete: u8] [key_len: u32 LE] [key] [value_len: u32 LE] [value]
//! ```
//!
//! An empty payload is a batch without operations: it fills a slot and changes
//! nothing. Bytes behind the last operation are ignored.

use crate::common::wire::{
    copy_bytes, copy_range, get_le, le_bytes, le_value, le_value_reads_back_le_bytes,
    lemma_le_bytes_len, lemma_pow256_values, put_bytes, put_le,
};
use vstd::prelude::*;

verus! {

/// What a key holds: a value, or `None` for a tombstone.
pub type CellView = Option<Seq<u8>>;

/// An operation on one key: the value to put, or `None` to delete.
pub type OpView = (Seq<u8>, Option<Seq<u8>>);

/// What a key holds.
#[derive(Debug)]
pub enum Cell {
    Value(Vec<u8>),
    Tombstone,
}

impl View for Cell {
    type V = CellView;

    open spec fn view(&self) -> CellView {
        match self {
            Cell::Value(v) => Some(v@),
            Cell::Tombstone => None,
        }
    }
}

impl Clone for Cell {
    fn clone(&self) -> (r: Self)
        ensures
            r@ == self@,
    {
        match self {
            Cell::Value(v) => Cell::Value(copy_bytes(v)),
            Cell::Tombstone => Cell::Tombstone,
        }
    }
}

impl Cell {
    /// Whether two cells hold the same.
    pub fn same(&self, other: &Cell) -> (r: bool)
        ensures
            r == (self@ == other@),
    {
        match (self, other) {
            (Cell::Value(a), Cell::Value(b)) => {
                let r: bool = crate::engine::key_order::order_keys(a.as_slice(), b.as_slice())
                    == crate::engine::key_order::KeyOrder::Same;
                r
            },
            (Cell::Tombstone, Cell::Tombstone) => true,
            _ => false,
        }
    }

    /// Whether the cell holds a value.
    pub fn is_live(&self) -> (r: bool)
        ensures
            r == (self@ is Some),
    {
        matches!(self, Cell::Value(_))
    }
}

/// What to do with a key.
#[derive(Debug)]
pub enum Op {
    Put(Vec<u8>),
    Delete,
}

/// One operation of a batch.
#[derive(Debug)]
pub struct BatchOp {
    pub key: Vec<u8>,
    pub op: Op,
}

impl View for BatchOp {
    type V = OpView;

    open spec fn view(&self) -> OpView {
        (
            self.key@,
            match self.op {
                Op::Put(v) => Some(v@),
                Op::Delete => None,
            },
        )
    }
}

/// What a sequence of operations says.
pub open spec fn ops_view(ops: Seq<BatchOp>) -> Seq<OpView> {
    ops.map_values(|o: BatchOp| o@)
}

/// Operations applied together at one slot.
#[derive(Debug)]
pub struct Batch {
    pub ops: Vec<BatchOp>,
}

impl View for Batch {
    type V = Seq<OpView>;

    open spec fn view(&self) -> Seq<OpView> {
        ops_view(self.ops@)
    }
}

/// The value bytes of an operation; a delete has none.
pub open spec fn value_bytes(op: OpView) -> Seq<u8> {
    match op.1 {
        Some(v) => v,
        None => Seq::empty(),
    }
}

/// The byte form of one operation.
pub open spec fn op_bytes(op: OpView) -> Seq<u8> {
    seq![
        if op.1 is None {
            1u8
        } else {
            0u8
        },
    ] + le_bytes(op.0.len(), 4) + op.0 + le_bytes(value_bytes(op).len(), 4) + value_bytes(op)
}

/// The byte forms of operations, one behind the other.
pub open spec fn ops_bytes(ops: Seq<OpView>) -> Seq<u8>
    decreases ops.len(),
{
    if ops.len() == 0 {
        Seq::empty()
    } else {
        op_bytes(ops[0]) + ops_bytes(ops.drop_first())
    }
}

/// The payload of a batch. The count is reduced to one byte.
pub open spec fn payload_bytes(ops: Seq<OpView>) -> Seq<u8> {
    seq![(ops.len() % 256) as u8] + ops_bytes(ops)
}

/// The operation at the head of `s` and the number of bytes it takes, or
/// `None` if `s` ends before the operation does.
#[verifier::opaque]
pub open spec fn parse_op(s: Seq<u8>) -> Option<(OpView, int)> {
    if s.len() < 5 {
        None
    } else {
        let klen = le_value(s.subrange(1, 5)) as int;
        if s.len() < 9 + klen {
            None
        } else {
            let vlen = le_value(s.subrange(5 + klen, 9 + klen)) as int;
            if s.len() < 9 + klen + vlen {
                None
            } else {
                let key = s.subrange(5, 5 + klen);
                let value = s.subrange(9 + klen, 9 + klen + vlen);
                Some(
                    (
                        (
                            key,
                            if s[0] != 0 {
                                None
                            } else {
                                Some(value)
                            },
                        ),
                        9 + klen + vlen,
                    ),
                )
            }
        }
    }
}

/// The first `n` operations in `s`, or `None` if `s` holds fewer.
pub open spec fn parse_ops(s: Seq<u8>, n: nat) -> Option<Seq<OpView>>
    decreases n,
{
    if n == 0 {
        Some(Seq::empty())
    } else {
        match parse_op(s) {
            None => None,
            Some((op, len)) => match parse_ops(s.skip(len), (n - 1) as nat) {
                None => None,
                Some(rest) => Some(seq![op] + rest),
            },
        }
    }
}

/// The batch that a payload spells, or `None` if the payload is cut short.
pub open spec fn parse_payload(s: Seq<u8>) -> Option<Seq<OpView>> {
    if s.len() == 0 {
        Some(Seq::empty())
    } else {
        parse_ops(s.skip(1), s[0] as nat)
    }
}

fn parse_op_at(payload: &[u8], off: usize) -> (r: Option<(BatchOp, usize)>)
    requires
        off <= payload@.len(),
    ensures
        match (r, parse_op(payload@.skip(off as int))) {
            (Some((op, next)), Some((v, len))) => {
                &&& op@ == v
                &&& next == off + len
                &&& off < next <= payload@.len()
            },
            (None, None) => true,
            _ => false,
        },
{
    proof {
        reveal(parse_op);
    }
    let ghost t = payload@.skip(off as int);
    let left: usize = payload.len() - off;
    if left < 5 {
        return None;
    }
    let klen: u64 = get_le(payload, off + 1, 4);
    proof {
        lemma_pow256_values();
        assert(t.subrange(1, 5) =~= payload@.subrange(off + 1, off + 5));
    }
    if ((left - 5) as u64) < klen || ((left - 5) as u64) - klen < 4 {
        return None;
    }
    let key_end: usize = off + 5 + klen as usize;
    let vlen: u64 = get_le(payload, key_end, 4);
    proof {
        assert(t.subrange(5 + klen, 9 + klen) =~= payload@.subrange(
            key_end as int,
            key_end + 4,
        ));
    }
    if ((left - 9) as u64) - klen < vlen {
        return None;
    }
    let next: usize = key_end + 4 + vlen as usize;
    let key: Vec<u8> = copy_range(payload, off + 5, key_end);
    proof {
        assert(t.subrange(5, 5 + klen) =~= payload@.subrange(off + 5, key_end as int));
        assert(t.subrange(9 + klen, 9 + klen + vlen) =~= payload@.subrange(
            key_end + 4,
            next as int,
        ));
        assert(t[0] == payload@[off as int]);
    }
    let op = if payload[off] != 0 {
        Op::Delete
    } else {
        Op::Put(copy_range(payload, key_end + 4, next))
    };
    Some((BatchOp { key, op }, next))
}

impl Batch {
    /// Read the batch that a payload spells.
    pub fn decode(payload: &[u8]) -> (r: Option<Batch>)
        ensures
            match (r, parse_payload(payload@)) {
                (Some(b), Some(v)) => b@ == v,
                (None, None) => true,
                _ => false,
            },
    {
        let mut ops: Vec<BatchOp> = Vec::new();
        if payload.len() == 0 {
            proof {
                assert(ops_view(ops@) =~= Seq::<OpView>::empty());
            }
            return Some(Batch { ops });
        }
        let count: usize = payload[0] as usize;
        let mut off: usize = 1;
        let mut i: usize = 0;
        proof {
            let rest = parse_ops(payload@.skip(1), count as nat);
            if rest is Some {
                assert(ops_view(ops@) + rest->0 =~= rest->0);
            }
        }
        while i < count
            invariant
                i <= count,
                off <= payload@.len(),
                payload@.len() > 0,
                count == payload@[0],
                match (parse_payload(payload@), parse_ops(
                    payload@.skip(off as int),
                    (count - i) as nat,
                )) {
                    (Some(all), Some(rest)) => all == ops_view(ops@) + rest,
                    (None, None) => true,
                    _ => false,
                },
            decreases count - i,
        {
            let ghost before = ops@;
            match parse_op_at(payload, off) {
                None => {
                    return None;
                },
                Some((op, next)) => {
                    let ghost v = op@;
                    ops.push(op);
                    proof {
                        assert(payload@.skip(off as int).skip(next - off) =~= payload@.skip(
                            next as int,
                        ));
                        let rest = parse_ops(payload@.skip(next as int), (count - i - 1) as nat);
                        if rest is Some {
                            assert(ops_view(ops@) + rest->0 =~= ops_view(before) + (seq![v]
                                + rest->0));
                        }
                    }
                    off = next;
                },
            }
            i = i + 1;
        }
        proof {
            assert(ops_view(ops@) + Seq::<OpView>::empty() =~= ops_view(ops@));
        }
        Some(Batch { ops })
    }
}

/// Append the byte form of one operation: put `value` under `key`, or delete
/// the key where there is no value.
pub fn put_op(buf: &mut Vec<u8>, key: &Vec<u8>, value: Option<&Vec<u8>>)
    ensures
        final(buf)@ == old(buf)@ + op_bytes(
            (
                key@,
                match value {
                    Some(v) => Some(v@),
                    None => None,
                },
            ),
        ),
{
    let ghost view: OpView = (
        key@,
        match value {
            Some(v) => Some(v@),
            None => None,
        },
    );
    let ghost start = buf@;
    buf.push(
        if value.is_none() {
            1
        } else {
            0
        },
    );
    put_le(buf, key.len() as u64, 4);
    put_bytes(buf, key.as_slice());
    match value {
        Some(v) => {
            put_le(buf, v.len() as u64, 4);
            put_bytes(buf, v.as_slice());
        },
        None => {
            put_le(buf, 0, 4);
        },
    }
    proof {
        assert(buf@ =~= start + op_bytes(view));
    }
}

/// Every length fits the four bytes that the byte form has for it.
pub open spec fn op_fits(op: OpView) -> bool {
    op.0.len() <= u32::MAX && value_bytes(op).len() <= u32::MAX
}

proof fn lemma_parse_op_reads_back(op: OpView, rest: Seq<u8>)
    requires
        op_fits(op),
    ensures
        parse_op(op_bytes(op) + rest) == Some((op, op_bytes(op).len() as int)),
        (op_bytes(op) + rest).skip(op_bytes(op).len() as int) == rest,
{
    reveal(parse_op);
    let s = op_bytes(op) + rest;
    let klen = op.0.len() as int;
    let vlen = value_bytes(op).len() as int;
    lemma_le_bytes_len(klen as nat, 4);
    lemma_le_bytes_len(vlen as nat, 4);
    lemma_pow256_values();
    le_value_reads_back_le_bytes(klen as nat, 4);
    le_value_reads_back_le_bytes(vlen as nat, 4);
    assert(s.subrange(1, 5) =~= le_bytes(klen as nat, 4));
    assert(s.subrange(5, 5 + klen) =~= op.0);
    assert(s.subrange(5 + klen, 9 + klen) =~= le_bytes(vlen as nat, 4));
    assert(s.subrange(9 + klen, 9 + klen + vlen) =~= value_bytes(op));
    assert(s.skip(op_bytes(op).len() as int) =~= rest);
}

proof fn lemma_parse_ops_reads_back(ops: Seq<OpView>, rest: Seq<u8>)
    requires
        forall|i: int| 0 <= i < ops.len() ==> op_fits(#[trigger] ops[i]),
    ensures
        parse_ops(ops_bytes(ops) + rest, ops.len()) == Some(ops),
    decreases ops.len(),
{
    if ops.len() == 0 {
        assert(ops =~= Seq::empty());
    } else {
        let tail = ops.drop_first();
        let s = ops_bytes(ops) + rest;
        assert(op_fits(ops[0]));
        assert forall|i: int| 0 <= i < tail.len() implies op_fits(#[trigger] tail[i]) by {
            assert(tail[i] == ops[i + 1]);
        }
        lemma_parse_ops_reads_back(tail, rest);
        assert(s =~= op_bytes(ops[0]) + (ops_bytes(tail) + rest));
        lemma_parse_op_reads_back(ops[0], ops_bytes(tail) + rest);
        assert(ops =~= seq![ops[0]] + tail);
    }
}

proof fn lemma_parse_counted(count: u8, body: Seq<u8>)
    ensures
        parse_payload(seq![count] + body) == parse_ops(body, count as nat),
{
    assert((seq![count] + body).skip(1) =~= body);
}

/// Decoding a payload gives back the operations that it was made from, as long
/// as there are at most 255 and every length fits in four bytes.
pub proof fn payload_reads_back(ops: Seq<OpView>)
    requires
        ops.len() <= 255,
        forall|i: int| 0 <= i < ops.len() ==> op_fits(#[trigger] ops[i]),
    ensures
        parse_payload(payload_bytes(ops)) == Some(ops),
{
    assert(payload_bytes(ops) == seq![ops.len() as u8] + ops_bytes(ops));
    lemma_parse_counted(ops.len() as u8, ops_bytes(ops));
    lemma_parse_ops_reads_back(ops, Seq::empty());
    assert(ops_bytes(ops) + Seq::<u8>::empty() =~= ops_bytes(ops));
}

/// Bodies of payloads can be put one behind the other: the byte forms of two
/// runs of operations spell the operations of the first run and then those of
/// the second.
pub proof fn ops_bytes_concatenate(a: Seq<OpView>, b: Seq<OpView>)
    ensures
        ops_bytes(a + b) == ops_bytes(a) + ops_bytes(b),
    decreases a.len(),
{
    if a.len() == 0 {
        assert(a + b =~= b);
        assert(ops_bytes(a) + ops_bytes(b) =~= ops_bytes(b));
    } else {
        ops_bytes_concatenate(a.drop_first(), b);
        assert((a + b).drop_first() =~= a.drop_first() + b);
        assert(ops_bytes(a + b) =~= ops_bytes(a) + ops_bytes(b));
    }
}

/// A difference between two engines at one key.
#[derive(Debug)]
pub struct EngineDiff {
    pub key: Vec<u8>,
    pub left: Option<(u64, Cell)>,
    pub right: Option<(u64, Cell)>,
}

proof fn lemma_parse_op_cut(s: Seq<u8>, k: int)
    requires
        parse_op(s) is Some,
        0 <= k <= s.len(),
    ensures
        k < (parse_op(s)->0).1 ==> parse_op(s.take(k)) is None,
        k >= (parse_op(s)->0).1 ==> parse_op(s.take(k)) == parse_op(s),
{
    reveal(parse_op);
    let cut = s.take(k);
    if k >= 5 {
        assert(cut.subrange(1, 5) =~= s.subrange(1, 5));
        let klen = le_value(s.subrange(1, 5)) as int;
        if k >= 9 + klen {
            assert(cut.subrange(5 + klen, 9 + klen) =~= s.subrange(5 + klen, 9 + klen));
            let vlen = le_value(s.subrange(5 + klen, 9 + klen)) as int;
            if k >= 9 + klen + vlen {
                assert(cut.subrange(5, 5 + klen) =~= s.subrange(5, 5 + klen));
                assert(cut.subrange(9 + klen, 9 + klen + vlen) =~= s.subrange(
                    9 + klen,
                    9 + klen + vlen,
                ));
            }
        }
    }
}

proof fn lemma_parse_ops_cut(ops: Seq<OpView>, k: int)
    requires
        forall|i: int| 0 <= i < ops.len() ==> op_fits(#[trigger] ops[i]),
        0 <= k < ops_bytes(ops).len(),
    ensures
        parse_ops(ops_bytes(ops).take(k), ops.len()) is None,
    decreases ops.len(),
{
    let tail = ops.drop_first();
    let s = ops_bytes(ops);
    let len = op_bytes(ops[0]).len() as int;
    assert(op_fits(ops[0]));
    assert forall|i: int| 0 <= i < tail.len() implies op_fits(#[trigger] tail[i]) by {
        assert(tail[i] == ops[i + 1]);
    }
    lemma_parse_op_reads_back(ops[0], ops_bytes(tail));
    lemma_parse_op_cut(s, k);
    if k >= len {
        lemma_parse_ops_cut(tail, k - len);
        assert(s.take(k).skip(len) =~= ops_bytes(tail).take(k - len));
    }
}

/// A payload that is cut short anywhere behind its count is refused: it does
/// not decode to fewer operations or to a shorter value.
pub proof fn cut_payload_is_refused(ops: Seq<OpView>, k: int)
    requires
        ops.len() <= 255,
        forall|i: int| 0 <= i < ops.len() ==> op_fits(#[trigger] ops[i]),
        1 <= k < payload_bytes(ops).len(),
    ensures
        parse_payload(payload_bytes(ops).take(k)) is None,
{
    let s = payload_bytes(ops);
    lemma_parse_ops_cut(ops, k - 1);
    assert(s.take(k) =~= seq![ops.len() as u8] + ops_bytes(ops).take(k - 1));
    lemma_parse_counted(ops.len() as u8, ops_bytes(ops).take(k - 1));
}

proof fn lemma_parse_ops_len(s: Seq<u8>, n: nat)
    ensures
        parse_ops(s, n) matches Some(ops) ==> ops.len() == n,
    decreases n,
{
    if n > 0 {
        if let Some((op, len)) = parse_op(s) {
            lemma_parse_ops_len(s.skip(len), (n - 1) as nat);
        }
    }
}

/// A payload that decodes has as many operations as its first byte says, and
/// none where it is empty.
pub proof fn first_byte_counts_the_operations(s: Seq<u8>)
    ensures
        parse_payload(s) matches Some(ops) ==> ops.len() == if s.len() == 0 {
            0
        } else {
            s[0] as nat
        },
{
    if s.len() > 0 {
        lemma_parse_ops_len(s.skip(1), s[0] as nat);
    }
}

/// How an operation stands in a payload: a byte that tells a deletion from a
/// write, the length of the key in four bytes, the key, the length of the value
/// in four bytes, and the value.
pub proof fn operation_is_laid_out(op: OpView)
    requires
        op_fits(op),
    ensures
        ({
            let s = op_bytes(op);
            let k = op.0.len() as int;
            let v = value_bytes(op).len() as int;
            &&& s.len() == 9 + k + v
            &&& s[0] == if op.1 is None {
                1u8
            } else {
                0u8
            }
            &&& le_value(s.subrange(1, 5)) == k
            &&& s.subrange(5, 5 + k) == op.0
            &&& le_value(s.subrange(5 + k, 9 + k)) == v
            &&& op.1 matches Some(value) ==> s.subrange(9 + k, 9 + k + v) == value
            &&& op.1 is None ==> v == 0
        }),
{
    let s = op_bytes(op);
    let klen = op.0.len();
    let vlen = value_bytes(op).len();
    lemma_le_bytes_len(klen, 4);
    lemma_le_bytes_len(vlen, 4);
    lemma_pow256_values();
    le_value_reads_back_le_bytes(klen, 4);
    le_value_reads_back_le_bytes(vlen, 4);
    let k = klen as int;
    assert(s.subrange(1, 5) =~= le_bytes(klen, 4));
    assert(s.subrange(5, 5 + k) =~= op.0);
    assert(s.subrange(5 + k, 9 + k) =~= le_bytes(vlen, 4));
    assert(s.subrange(9 + k, 9 + k + vlen as int) =~= value_bytes(op));
}

} // verus!
