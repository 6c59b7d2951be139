//! The byte buffers of the crate `bytes`.

use vstd::prelude::*;
use bytes::{BufMut, Bytes, BytesMut};
use crate::integers::be_bytes;

verus! {

/// A buffer that is shared and read.
#[verifier::external_type_specification]
#[verifier::external_body]
pub struct ExBytes(Bytes);

/// A buffer that is filled.
#[verifier::external_type_specification]
#[verifier::external_body]
pub struct ExBytesMut(BytesMut);

/// The bytes that a shared buffer holds.
pub uninterp spec fn contents(buf: Bytes) -> Seq<u8>;

/// The bytes that a buffer holds that is filled.
pub uninterp spec fn contents_mut(buf: BytesMut) -> Seq<u8>;

/// Calls `Bytes::deref`, which hands out the bytes of the buffer.
#[verifier::external_body]
pub(crate) fn bytes_as_slice(buf: &Bytes) -> (r: &[u8])
    ensures
        r@ == contents(*buf),
{
    buf
}

/// Calls `Bytes::split_to`, which takes the first `at` bytes out of the buffer. It panics where
/// there are fewer.
#[verifier::external_body]
pub(crate) fn bytes_split_to(buf: &mut Bytes, at: usize) -> (r: Bytes)
    requires
        at <= contents(*old(buf)).len(),
    ensures
        contents(r) == contents(*old(buf)).take(at as int),
        contents(*final(buf)) == contents(*old(buf)).skip(at as int),
{
    buf.split_to(at)
}

/// Calls `BytesMut::with_capacity`, which makes an empty buffer. It panics where the capacity is
/// more than any allocation may have.
#[verifier::external_body]
pub(crate) fn bytes_mut_with_capacity(capacity: usize) -> (r: BytesMut)
    requires
        capacity <= isize::MAX,
    ensures
        contents_mut(r) == Seq::<u8>::empty(),
{
    BytesMut::with_capacity(capacity)
}

/// Calls `BytesMut::deref`, which hands out the bytes of the buffer.
#[verifier::external_body]
pub(crate) fn bytes_mut_as_slice(buf: &BytesMut) -> (r: &[u8])
    ensures
        r@ == contents_mut(*buf),
{
    buf
}

/// Calls `BufMut::put` of `BytesMut` with a shared buffer, which appends the bytes of the latter.
/// It panics where the result is more than any allocation may hold.
#[verifier::external_body]
pub(crate) fn bytes_mut_put(buf: &mut BytesMut, src: Bytes)
    requires
        contents_mut(*old(buf)).len() + contents(src).len() <= isize::MAX,
    ensures
        contents_mut(*final(buf)) == contents_mut(*old(buf)) + contents(src),
{
    buf.put(src);
}

/// Calls `BufMut::put_u32` of `BytesMut`, which appends the four bytes of the number, the highest
/// first. It panics where the result is more than any allocation may hold.
#[verifier::external_body]
pub(crate) fn bytes_mut_put_u32(buf: &mut BytesMut, n: u32)
    requires
        contents_mut(*old(buf)).len() + 4 <= isize::MAX,
    ensures
        contents_mut(*final(buf)) == contents_mut(*old(buf)) + be_bytes(n as nat, 4),
{
    buf.put_u32(n);
}

/// Calls `BytesMut::split`, which takes all bytes out of the buffer.
#[verifier::external_body]
pub(crate) fn bytes_mut_split(buf: &mut BytesMut) -> (r: BytesMut)
    ensures
        contents_mut(r) == contents_mut(*old(buf)),
        contents_mut(*final(buf)) == Seq::<u8>::empty(),
{
    buf.split()
}

/// Calls `BytesMut::split_to`, which takes the first `at` bytes out of the buffer. It panics
/// where there are fewer.
#[verifier::external_body]
pub(crate) fn bytes_mut_split_to(buf: &mut BytesMut, at: usize) -> (r: BytesMut)
    requires
        at <= contents_mut(*old(buf)).len(),
    ensures
        contents_mut(r) == contents_mut(*old(buf)).take(at as int),
        contents_mut(*final(buf)) == contents_mut(*old(buf)).skip(at as int),
{
    buf.split_to(at)
}

/// Calls `BytesMut::freeze`, which makes the buffer a shared one of the same bytes.
#[verifier::external_body]
pub(crate) fn bytes_mut_freeze(buf: BytesMut) -> (r: Bytes)
    ensures
        contents(r) == contents_mut(buf),
{
    buf.freeze()
}

} // verus!
