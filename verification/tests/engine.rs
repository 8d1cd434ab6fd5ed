//! Engines, batches and the bytes they are written in.

use crowkv::common::scan::{find_dots, parse_number, split, trim};
use crowkv::common::text::decimal;
use crowkv::common::wire::{get_le, put_le};
use crowkv::engine::key_order::{order_keys, starts_with, KeyOrder};
use crowkv::engine::mem_engine::InMemoryEngine;
use crowkv::engine::op::{Batch, BatchOp, Cell, Op};
use crowkv::engine::store_engine::{compare, Engine};

fn put(key: &[u8], value: &[u8]) -> BatchOp {
    BatchOp { key: key.to_vec(), op: Op::Put(value.to_vec()) }
}

fn delete(key: &[u8]) -> BatchOp {
    BatchOp { key: key.to_vec(), op: Op::Delete }
}

fn batch(ops: Vec<BatchOp>) -> Batch {
    Batch { ops }
}

#[test]
fn writes_are_read_back() {
    let mut e = InMemoryEngine::new();
    e.apply(1, &batch(vec![put(b"b", b"1"), put(b"a", b"2"), put(b"b", b"3")]));
    assert_eq!(e.get(b"b"), Some((1, b"3".to_vec())), "the last operation of a batch wins");
    assert_eq!(e.get(b"c"), None);
    e.apply(2, &batch(vec![delete(b"b")]));
    assert_eq!(e.get(b"b"), None);
    assert_eq!(e.live_key_count(), 1);
    e.apply(1, &batch(vec![put(b"b", b"late")]));
    assert_eq!(e.get(b"b"), None, "an earlier slot does not win over a later one");
    e.clear();
    assert_eq!(e.live_key_count(), 0);
}

#[test]
fn replay_changes_nothing() {
    let mut once = InMemoryEngine::new();
    let mut twice = InMemoryEngine::new();
    let b = batch(vec![put(b"a", b"1"), delete(b"z")]);
    once.apply(4, &b);
    twice.apply(4, &b);
    twice.apply(4, &b);
    assert!(compare(&once, &twice).is_empty());
}

#[test]
fn order_of_slots_does_not_matter() {
    let (first, second) = (batch(vec![put(b"a", b"1"), put(b"b", b"1")]), batch(vec![put(b"a", b"2")]));
    let mut forward = InMemoryEngine::new();
    forward.apply(1, &first);
    forward.apply(2, &second);
    let mut backward = InMemoryEngine::new();
    backward.apply(2, &second);
    backward.apply(1, &first);
    assert!(compare(&forward, &backward).is_empty());
}

#[test]
fn scans_go_by_prefix_and_limit() {
    let mut e = InMemoryEngine::new();
    e.apply(1, &batch(vec![put(b"ab", b"1"), put(b"aa", b"2"), put(b"b", b"3"), put(b"ac", b"4")]));
    e.apply(2, &batch(vec![delete(b"ac")]));
    let (items, truncated) = e.scan(b"a", 0);
    let keys: Vec<Vec<u8>> = items.into_iter().map(|(k, _, _)| k).collect();
    assert_eq!(keys, vec![b"aa".to_vec(), b"ab".to_vec()]);
    assert!(!truncated);
    let (items, truncated) = e.scan(b"", 2);
    assert_eq!(items.len(), 2);
    assert!(truncated);
}

#[test]
fn differences_between_engines() {
    let mut left = InMemoryEngine::new();
    let mut right = InMemoryEngine::new();
    left.apply(1, &batch(vec![put(b"a", b"1"), put(b"b", b"1"), put(b"d", b"1")]));
    right.apply(1, &batch(vec![put(b"a", b"1"), put(b"b", b"2"), put(b"c", b"1"), put(b"d", b"1")]));
    let diffs = compare(&left, &right);
    let keys: Vec<Vec<u8>> = diffs.iter().map(|d| d.key.clone()).collect();
    assert_eq!(keys, vec![b"b".to_vec(), b"c".to_vec()]);
    assert!(diffs[1].left.is_none() && diffs[1].right.is_some());
    assert!(matches!(&diffs[0].left, Some((1, Cell::Value(v))) if v == b"1"));

    assert!(compare(&left, &left).is_empty());
    let swapped = compare(&right, &left);
    assert_eq!(swapped.len(), 2);
    for (a, b) in diffs.iter().zip(&swapped) {
        assert_eq!(a.key, b.key);
        assert_eq!(format!("{:?}", a.left), format!("{:?}", b.right));
        assert_eq!(format!("{:?}", a.right), format!("{:?}", b.left));
    }
}

#[test]
fn batches_decode_from_their_bytes() {
    let bytes = [2u8, 0, 1, 0, 0, 0, b'k', 2, 0, 0, 0, b'v', b'w', 1, 1, 0, 0, 0, b'd', 0, 0, 0, 0];
    let b = Batch::decode(&bytes).unwrap();
    assert_eq!(b.ops.len(), 2);
    assert_eq!(b.ops[0].key, b"k".to_vec());
    assert!(matches!(&b.ops[0].op, Op::Put(v) if v == b"vw"));
    assert!(matches!(b.ops[1].op, Op::Delete));
    assert!(Batch::decode(&bytes[..10]).is_none());
    assert!(Batch::decode(&[]).unwrap().ops.is_empty(), "no bytes spell no operation");
}

#[test]
fn keys_are_in_byte_order() {
    assert_eq!(order_keys(b"a", b"b"), KeyOrder::Before);
    assert_eq!(order_keys(b"ab", b"a"), KeyOrder::After);
    assert_eq!(order_keys(b"", b""), KeyOrder::Same);
    assert!(starts_with(b"abc", b"ab") && !starts_with(b"ab", b"abc"));
}

#[test]
fn numbers_on_the_wire_and_in_text() {
    let mut buf = Vec::new();
    put_le(&mut buf, 0x0102_0304, 4);
    assert_eq!(buf, vec![4, 3, 2, 1]);
    assert_eq!(get_le(&buf, 0, 4), 0x0102_0304);
    assert_eq!(decimal(0), "0");
    assert_eq!(decimal(u64::MAX), u64::MAX.to_string());
    assert_eq!(parse_number("+12", 99), Some(12));
    assert_eq!(parse_number("100", 99), None);
    assert_eq!(parse_number("+", 99), None);
    assert_eq!(parse_number("", 99), None);
    assert_eq!(parse_number("-1", 99), None);
    assert_eq!(parse_number(&u64::MAX.to_string(), u64::MAX), Some(u64::MAX));
    assert_eq!(parse_number("18446744073709551616", u64::MAX), None);
}

#[test]
fn texts_are_trimmed_and_split() {
    assert_eq!(trim(" \t a b\u{3000}\n"), "a b");
    assert_eq!(trim(" \u{85}"), "");
    assert_eq!(split("a,,b", ','), vec!["a", "", "b"]);
    assert_eq!(split("", ','), vec![""]);
    assert_eq!(find_dots("1..2"), Some(1));
    assert_eq!(find_dots("1.2"), None);
}
