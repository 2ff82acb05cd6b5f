//! Buffers of bytes that are shared rather than copied.

use bytes::Bytes;
use vstd::prelude::*;

verus! {

/// The buffer of the crate `bytes`.
#[verifier::external_type_specification]
#[verifier::external_body]
pub struct ExBytes(bytes::Bytes);

/// The bytes that a buffer holds.
pub uninterp spec fn contents(buffer: Bytes) -> Seq<u8>;

/// `Bytes::new`: a new buffer is empty.
#[verifier::external_body]
pub(crate) fn empty() -> (r: Bytes)
    ensures
        contents(r).len() == 0,
{
    Bytes::new()
}

/// `Bytes::len`: how many bytes a buffer holds.
#[verifier::external_body]
pub(crate) fn length(buffer: &Bytes) -> (r: usize)
    ensures
        r == contents(*buffer).len(),
{
    buffer.len()
}

/// `Bytes::slice`: a buffer with some of the bytes, from `start` up to `end`.
#[verifier::external_body]
pub(crate) fn slice(buffer: &Bytes, start: usize, end: usize) -> (r: Bytes)
    requires
        start <= end <= contents(*buffer).len(),
    ensures
        contents(r) == contents(*buffer).subrange(start as int, end as int),
{
    buffer.slice(start..end)
}

/// `Bytes::split_off`: leaves the bytes before `at` and hands out the others.
#[verifier::external_body]
pub(crate) fn split_off(buffer: &mut Bytes, at: usize) -> (r: Bytes)
    requires
        at <= contents(*old(buffer)).len(),
    ensures
        contents(*final(buffer)) == contents(*old(buffer)).subrange(0, at as int),
        contents(r) == contents(*old(buffer)).subrange(
            at as int,
            contents(*old(buffer)).len() as int,
        ),
{
    buffer.split_off(at)
}

/// `Bytes` as a slice, and `to_vec` of it: a copy of the bytes.
#[verifier::external_body]
pub(crate) fn to_vec(buffer: &Bytes) -> (r: Vec<u8>)
    ensures
        r@ == contents(*buffer),
{
    buffer.to_vec()
}

/// `Bytes::from` of a vector: a buffer with its bytes.
#[verifier::external_body]
pub(crate) fn from_vec(bytes: Vec<u8>) -> (r: Bytes)
    ensures
        contents(r) == bytes@,
{
    Bytes::from(bytes)
}

} // verus!
