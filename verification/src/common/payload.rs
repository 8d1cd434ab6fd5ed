//! Shared byte buffers: the payload type that log entries carry.
//!
//! A payload is a [`bytes::Bytes`], so that one allocation serves the retry
//! loop, the fan-out to every peer and the local log at once. Contracts see a
//! buffer only through [`buffer_bytes`], the byte sequence it holds.

use bytes::Bytes;
use vstd::prelude::*;

verus! {

#[verifier::external_type_specification]
#[verifier::external_body]
pub struct ExBytes(bytes::Bytes);

/// The bytes that the buffer `b` holds.
pub uninterp spec fn buffer_bytes(b: Bytes) -> Seq<u8>;

/// `Bytes::from(Vec<u8>)`: the buffer holds the bytes of the vector, in order.
#[verifier::external_body]
pub(crate) fn buffer_from_vec(v: Vec<u8>) -> (b: Bytes)
    ensures
        buffer_bytes(b) == v@,
{
    Bytes::from(v)
}

/// `Bytes::new`: the buffer holds no bytes.
#[verifier::external_body]
pub(crate) fn buffer_empty() -> (b: Bytes)
    ensures
        buffer_bytes(b) == Seq::<u8>::empty(),
{
    Bytes::new()
}

/// `Bytes::clone`: the clone is another handle on the same bytes.
#[verifier::external_body]
pub(crate) fn buffer_clone(b: &Bytes) -> (r: Bytes)
    ensures
        buffer_bytes(r) == buffer_bytes(*b),
{
    b.clone()
}

/// `Bytes::eq`: buffers are equal when they hold the same bytes.
#[verifier::external_body]
pub(crate) fn buffer_eq(a: &Bytes, b: &Bytes) -> (r: bool)
    ensures
        r == (buffer_bytes(*a) == buffer_bytes(*b)),
{
    a == b
}

/// `<[u8]>::to_vec` on the slice that a buffer dereferences to: a fresh vector
/// of the bytes that the buffer holds.
#[verifier::external_body]
pub(crate) fn buffer_to_vec(b: &Bytes) -> (v: Vec<u8>)
    ensures
        v@ == buffer_bytes(*b),
{
    b.to_vec()
}

} // verus!
