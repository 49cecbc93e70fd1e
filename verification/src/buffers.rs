//! The byte containers of the `bytes` crate, as this library uses them.
//!
//! A [`Bytes`] or a [`BytesMut`] is opaque to the verifier; [`bytes_seq`] and
//! [`buf_seq`] name the bytes that one holds, in order, and the contracts here
//! say over those names what each operation does. A container never holds more
//! than `isize::MAX` bytes, so an operation that adds bytes asks for the room.

use bytes::{Buf, BufMut, Bytes, BytesMut};
use vstd::prelude::*;

verus! {

/// The immutable, reference-counted byte container `bytes::Bytes`.
#[verifier::external_type_specification]
#[verifier::external_body]
pub struct ExBytes(Bytes);

/// The growable byte buffer `bytes::BytesMut`.
#[verifier::external_type_specification]
#[verifier::external_body]
pub struct ExBytesMut(BytesMut);

/// The bytes that `b` holds, first byte first.
pub uninterp spec fn bytes_seq(b: Bytes) -> Seq<u8>;

/// The bytes that `b` holds, first byte first.
pub uninterp spec fn buf_seq(b: BytesMut) -> Seq<u8>;

/// The two bytes of `n`, most significant first.
pub open spec fn be16(n: u16) -> Seq<u8> {
    seq![(n / 256) as u8, (n % 256) as u8]
}

/// The four bytes of `n`, most significant first.
pub open spec fn be32(n: u32) -> Seq<u8> {
    seq![
        (n / 16777216) as u8,
        (n / 65536 % 256) as u8,
        (n / 256 % 256) as u8,
        (n % 256) as u8,
    ]
}

/// `bytes::Bytes::copy_from_slice`: a new container that holds a copy of the
/// bytes of `data`.
pub assume_specification[ Bytes::copy_from_slice ](data: &[u8]) -> (b: Bytes)
    ensures
        bytes_seq(b) == data@,
;

/// `Clone::clone` of `bytes::Bytes`: another handle on the same bytes.
pub assume_specification[ <Bytes as Clone>::clone ](b: &Bytes) -> (copy: Bytes)
    ensures
        bytes_seq(copy) == bytes_seq(*b),
;

/// `bytes::BytesMut::new`: an empty buffer.
pub assume_specification[ BytesMut::new ]() -> (b: BytesMut)
    ensures
        buf_seq(b) == Seq::<u8>::empty(),
;

/// `bytes::BytesMut::len`: the number of bytes in the buffer.
pub assume_specification[ BytesMut::len ](b: &BytesMut) -> (n: usize)
    ensures
        n == buf_seq(*b).len(),
;

/// `bytes::BytesMut::extend_from_slice`: appends a copy of `extend`.
pub assume_specification[ BytesMut::extend_from_slice ](b: &mut BytesMut, extend: &[u8])
    requires
        buf_seq(*old(b)).len() + extend@.len() <= isize::MAX,
    ensures
        buf_seq(*final(b)) == buf_seq(*old(b)) + extend@,
;

/// `bytes::BytesMut::reserve`: makes room for `additional` more bytes and
/// keeps the contents.
pub assume_specification[ BytesMut::reserve ](b: &mut BytesMut, additional: usize)
    requires
        buf_seq(*old(b)).len() + additional <= isize::MAX,
    ensures
        buf_seq(*final(b)) == buf_seq(*old(b)),
;

/// `bytes::BytesMut::split_to`: takes the first `at` bytes out of the buffer.
pub assume_specification[ BytesMut::split_to ](b: &mut BytesMut, at: usize) -> (front: BytesMut)
    requires
        at <= buf_seq(*old(b)).len(),
    ensures
        buf_seq(front) == buf_seq(*old(b)).take(at as int),
        buf_seq(*final(b)) == buf_seq(*old(b)).skip(at as int),
;

/// `bytes::BytesMut::freeze`: the same bytes in an immutable container.
pub assume_specification[ BytesMut::freeze ](b: BytesMut) -> (frozen: Bytes)
    ensures
        bytes_seq(frozen) == buf_seq(b),
;

/// The dereference of `bytes::Bytes` to a slice: all its bytes, in order.
#[verifier::external_body]
pub(crate) fn bytes_slice(b: &Bytes) -> (s: &[u8])
    ensures
        s@ == bytes_seq(*b),
{
    b
}

/// Indexing of `bytes::BytesMut`: the byte at position `i`.
#[verifier::external_body]
pub(crate) fn byte_at(b: &BytesMut, i: usize) -> (byte: u8)
    requires
        i < buf_seq(*b).len(),
    ensures
        byte == buf_seq(*b)[i as int],
{
    b[i]
}

/// `bytes::BufMut::put_u8` on a `BytesMut`: appends one byte.
#[verifier::external_body]
pub(crate) fn put_u8(b: &mut BytesMut, n: u8)
    requires
        buf_seq(*old(b)).len() + 1 <= isize::MAX,
    ensures
        buf_seq(*final(b)) == buf_seq(*old(b)).push(n),
{
    b.put_u8(n)
}

/// `bytes::BufMut::put_u16` on a `BytesMut`: appends the two bytes of `n`, most
/// significant first.
#[verifier::external_body]
pub(crate) fn put_u16(b: &mut BytesMut, n: u16)
    requires
        buf_seq(*old(b)).len() + 2 <= isize::MAX,
    ensures
        buf_seq(*final(b)) == buf_seq(*old(b)) + be16(n),
{
    b.put_u16(n)
}

/// `bytes::BufMut::put_u32` on a `BytesMut`: appends the four bytes of `n`, most
/// significant first.
#[verifier::external_body]
pub(crate) fn put_u32(b: &mut BytesMut, n: u32)
    requires
        buf_seq(*old(b)).len() + 4 <= isize::MAX,
    ensures
        buf_seq(*final(b)) == buf_seq(*old(b)) + be32(n),
{
    b.put_u32(n)
}

/// `bytes::Buf::advance` on a `BytesMut`: drops the first `cnt` bytes.
#[verifier::external_body]
pub(crate) fn advance(b: &mut BytesMut, cnt: usize)
    requires
        cnt <= buf_seq(*old(b)).len(),
    ensures
        buf_seq(*final(b)) == buf_seq(*old(b)).skip(cnt as int),
{
    b.advance(cnt)
}

/// `bytes::Buf::get_u8` on a `BytesMut`: takes the first byte.
#[verifier::external_body]
pub(crate) fn get_u8(b: &mut BytesMut) -> (n: u8)
    requires
        1 <= buf_seq(*old(b)).len(),
    ensures
        n == buf_seq(*old(b))[0],
        buf_seq(*final(b)) == buf_seq(*old(b)).skip(1),
{
    b.get_u8()
}

/// `bytes::Buf::get_u16` on a `BytesMut`: takes the first two bytes, most
/// significant first.
#[verifier::external_body]
pub(crate) fn get_u16(b: &mut BytesMut) -> (n: u16)
    requires
        2 <= buf_seq(*old(b)).len(),
    ensures
        n == buf_seq(*old(b))[0] * 256 + buf_seq(*old(b))[1],
        buf_seq(*final(b)) == buf_seq(*old(b)).skip(2),
{
    b.get_u16()
}

} // verus!
