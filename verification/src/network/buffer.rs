//! The byte containers of the `bytes` crate: [`Bytes`], which is shared and never
//! changes, and [`BytesMut`], which grows at its end and is consumed at its front.
//!
//! What a container holds is named by [`bytes_content`] and [`buffer_content`];
//! each function here makes one call and says what it does to those bytes.

use bytes::{Buf, BufMut, Bytes, BytesMut};
use vstd::prelude::*;

verus! {

/// `bytes::Bytes`, a cheaply cloned, immutable run of bytes.
#[verifier::external_type_specification]
#[verifier::external_body]
pub struct ExBytes(Bytes);

/// `bytes::BytesMut`, a buffer of bytes.
#[verifier::external_type_specification]
#[verifier::external_body]
pub struct ExBytesMut(BytesMut);

/// The bytes that a `Bytes` holds.
pub uninterp spec fn bytes_content(b: Bytes) -> Seq<u8>;

/// The bytes that a `BytesMut` holds, those to be consumed next first.
pub uninterp spec fn buffer_content(b: BytesMut) -> Seq<u8>;

/// A number as four bytes, the most significant first.
pub open spec fn be_bytes(n: u32) -> Seq<u8> {
    seq![(n / 0x1000000) as u8, (n / 0x10000 % 0x100) as u8, (n / 0x100 % 0x100) as u8, (n % 0x100) as u8]
}

/// Calls `Bytes::from` on a vector: the bytes are those of the vector.
#[verifier::external_body]
pub(crate) fn bytes_from_vec(v: Vec<u8>) -> (b: Bytes)
    ensures
        bytes_content(b) == v@,
{
    Bytes::from(v)
}

/// Calls `Bytes::from` on a text: the bytes are its UTF-8 encoding.
#[verifier::external_body]
pub(crate) fn bytes_from_string(s: String) -> (b: Bytes)
    ensures
        bytes_content(b) == vstd::utf8::encode_utf8(s@),
{
    Bytes::from(s)
}

/// Calls `Bytes::from` on bytes that are always there: the bytes are those.
#[verifier::external_body]
pub(crate) fn bytes_from_static(s: &'static [u8]) -> (b: Bytes)
    ensures
        bytes_content(b) == s@,
{
    Bytes::from(s)
}

/// Calls `Bytes::from` on a boxed slice: the bytes are those of the slice.
#[verifier::external_body]
pub(crate) fn bytes_from_box(s: Box<[u8]>) -> (b: Bytes)
    ensures
        bytes_content(b) == s@,
{
    Bytes::from(s)
}

/// Calls `Bytes::clone`: the clone holds the same bytes.
#[verifier::external_body]
pub(crate) fn bytes_clone(b: &Bytes) -> (c: Bytes)
    ensures
        bytes_content(c) == bytes_content(*b),
{
    b.clone()
}

/// Calls `Bytes::len`, the number of bytes.
#[verifier::external_body]
pub(crate) fn bytes_len(b: &Bytes) -> (n: usize)
    ensures
        n == bytes_content(*b).len(),
{
    b.len()
}

/// Calls `Bytes::is_empty`: whether there are no bytes.
#[verifier::external_body]
pub(crate) fn bytes_is_empty(b: &Bytes) -> (e: bool)
    ensures
        e == (bytes_content(*b).len() == 0),
{
    b.is_empty()
}

/// Calls `Bytes::as_ref`: all the bytes, in order.
#[verifier::external_body]
pub(crate) fn bytes_slice(b: &Bytes) -> (s: &[u8])
    ensures
        s@ == bytes_content(*b),
{
    b.as_ref()
}

/// Calls `BytesMut::with_capacity`: a buffer that holds nothing. A capacity that
/// no allocation can have makes it panic, so it is left out.
#[verifier::external_body]
pub(crate) fn buffer_with_capacity(capacity: usize) -> (b: BytesMut)
    requires
        capacity <= isize::MAX,
    ensures
        buffer_content(b) == Seq::<u8>::empty(),
{
    BytesMut::with_capacity(capacity)
}

/// Calls `BytesMut::len`, the number of bytes.
#[verifier::external_body]
pub(crate) fn buffer_len(b: &BytesMut) -> (n: usize)
    ensures
        n == buffer_content(*b).len(),
{
    b.len()
}

/// Calls `BytesMut::as_ref`: all the bytes, in order.
#[verifier::external_body]
pub(crate) fn buffer_slice(b: &BytesMut) -> (s: &[u8])
    ensures
        s@ == buffer_content(*b),
{
    b.as_ref()
}

/// Calls `BufMut::put_u32`: the number is appended in four bytes, the most
/// significant first. A length that no allocation can have makes it panic, so it
/// is left out.
#[verifier::external_body]
pub(crate) fn buffer_put_u32(b: &mut BytesMut, n: u32)
    requires
        buffer_content(*old(b)).len() + 4 <= isize::MAX,
    ensures
        buffer_content(*final(b)) == buffer_content(*old(b)) + be_bytes(n),
{
    b.put_u32(n)
}

/// Calls `BufMut::put_slice`: the bytes are appended. A length that no allocation
/// can have makes it panic, so it is left out.
#[verifier::external_body]
pub(crate) fn buffer_put_slice(b: &mut BytesMut, data: &[u8])
    requires
        buffer_content(*old(b)).len() + data@.len() <= isize::MAX,
    ensures
        buffer_content(*final(b)) == buffer_content(*old(b)) + data@,
{
    b.put_slice(data)
}

/// Calls `Buf::advance`: the first `count` bytes are consumed. More bytes than
/// there are make it panic, so they are left out.
#[verifier::external_body]
pub(crate) fn buffer_advance(b: &mut BytesMut, count: usize)
    requires
        count <= buffer_content(*old(b)).len(),
    ensures
        buffer_content(*final(b)) == buffer_content(*old(b)).skip(count as int),
{
    b.advance(count)
}

/// Calls `BytesMut::split_to`: the first `count` bytes move to a buffer of their
/// own. More bytes than there are make it panic, so they are left out.
#[verifier::external_body]
pub(crate) fn buffer_split_to(b: &mut BytesMut, count: usize) -> (front: BytesMut)
    requires
        count <= buffer_content(*old(b)).len(),
    ensures
        buffer_content(front) == buffer_content(*old(b)).take(count as int),
        buffer_content(*final(b)) == buffer_content(*old(b)).skip(count as int),
{
    b.split_to(count)
}

/// Calls `BytesMut::freeze`: the same bytes, now immutable.
#[verifier::external_body]
pub(crate) fn buffer_freeze(b: BytesMut) -> (frozen: Bytes)
    ensures
        bytes_content(frozen) == buffer_content(b),
{
    b.freeze()
}

} // verus!
