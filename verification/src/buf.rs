//! The byte buffers of the `bytes` crate, as the rest of the library sees them.
//!
//! `Bytes` (a read-only, cheaply cloned view of bytes) and `BytesMut` (a growable
//! write buffer) are opaque to Verus. Each is given a name for the bytes it holds,
//! and each method that the library calls goes through one small trusted wrapper
//! whose contract says, over those names, what the method does.
use bytes::{Buf, BufMut, Bytes, BytesMut};
use vstd::prelude::*;

verus! {

#[verifier::external_type_specification]
#[verifier::external_body]
pub struct ExBytes(bytes::Bytes);

#[verifier::external_type_specification]
#[verifier::external_body]
pub struct ExBytesMut(bytes::BytesMut);

/// The bytes that a `Bytes` handle holds, first to last.
pub uninterp spec fn bytes_contents(b: Bytes) -> Seq<u8>;

/// The bytes that a `BytesMut` buffer holds, first to last.
pub uninterp spec fn bytes_mut_contents(b: BytesMut) -> Seq<u8>;

/// The big-endian value of the first two bytes of `s`.
pub open spec fn be_u16(s: Seq<u8>) -> u16
    recommends
        s.len() >= 2,
{
    (s[0] * 256 + s[1]) as u16
}

/// The big-endian value of the first four bytes of `s`.
pub open spec fn be_u32(s: Seq<u8>) -> u32
    recommends
        s.len() >= 4,
{
    (s[0] * 16777216 + s[1] * 65536 + s[2] * 256 + s[3]) as u32
}

/// The big-endian bytes of a `u16`.
pub open spec fn u16_bytes(v: u16) -> Seq<u8> {
    seq![(v / 256) as u8, (v % 256) as u8]
}

/// The big-endian bytes of a `u32`.
pub open spec fn u32_bytes(v: u32) -> Seq<u8> {
    seq![
        (v / 16777216) as u8,
        ((v / 65536) % 256) as u8,
        ((v / 256) % 256) as u8,
        (v % 256) as u8,
    ]
}

/// `Bytes::len`: the number of bytes the handle holds.
#[verifier::external_body]
pub(crate) fn bytes_len(b: &Bytes) -> (n: usize)
    ensures
        n == bytes_contents(*b).len(),
{
    b.len()
}

/// `Bytes` as a slice (`Deref<Target = [u8]>`): the slice holds exactly the bytes
/// of the handle.
#[verifier::external_body]
pub(crate) fn bytes_as_slice(b: &Bytes) -> (s: &[u8])
    ensures
        s@ == bytes_contents(*b),
{
    b
}

/// `Buf::advance` on `Bytes`: drops the first `n` bytes. The source asserts
/// `n <= len`, so that is required here.
#[verifier::external_body]
pub(crate) fn bytes_advance(b: &mut Bytes, n: usize)
    requires
        n <= bytes_contents(*old(b)).len(),
    ensures
        bytes_contents(*final(b)) == bytes_contents(*old(b)).skip(n as int),
{
    b.advance(n)
}

/// `Buf::get_u8` on `Bytes`: returns the first byte and drops it. It panics on an
/// empty buffer, so at least one byte is required.
#[verifier::external_body]
pub(crate) fn bytes_get_u8(b: &mut Bytes) -> (v: u8)
    requires
        bytes_contents(*old(b)).len() >= 1,
    ensures
        v == bytes_contents(*old(b))[0],
        bytes_contents(*final(b)) == bytes_contents(*old(b)).skip(1),
{
    b.get_u8()
}

/// `Buf::get_u16` on `Bytes`: reads the first two bytes as a big-endian `u16` and
/// drops them. It panics when fewer than two bytes remain.
#[verifier::external_body]
pub(crate) fn bytes_get_u16(b: &mut Bytes) -> (v: u16)
    requires
        bytes_contents(*old(b)).len() >= 2,
    ensures
        v == be_u16(bytes_contents(*old(b))),
        bytes_contents(*final(b)) == bytes_contents(*old(b)).skip(2),
{
    b.get_u16()
}

/// `Buf::get_u32` on `Bytes`: reads the first four bytes as a big-endian `u32` and
/// drops them. It panics when fewer than four bytes remain.
#[verifier::external_body]
pub(crate) fn bytes_get_u32(b: &mut Bytes) -> (v: u32)
    requires
        bytes_contents(*old(b)).len() >= 4,
    ensures
        v == be_u32(bytes_contents(*old(b))),
        bytes_contents(*final(b)) == bytes_contents(*old(b)).skip(4),
{
    b.get_u32()
}

/// `Bytes::split_to`: returns the first `at` bytes and leaves the rest in `b`. It
/// panics when `at > len`.
#[verifier::external_body]
pub(crate) fn bytes_split_to(b: &mut Bytes, at: usize) -> (front: Bytes)
    requires
        at <= bytes_contents(*old(b)).len(),
    ensures
        bytes_contents(front) == bytes_contents(*old(b)).take(at as int),
        bytes_contents(*final(b)) == bytes_contents(*old(b)).skip(at as int),
{
    b.split_to(at)
}

/// `Bytes::from(Vec<u8>)`: a handle that holds the bytes of the vector.
#[verifier::external_body]
pub(crate) fn bytes_from_vec(v: Vec<u8>) -> (b: Bytes)
    ensures
        bytes_contents(b) == v@,
{
    Bytes::from(v)
}

/// `Bytes::clone`: a second handle on the same bytes.
pub assume_specification[ <Bytes as Clone>::clone ](b: &Bytes) -> (c: Bytes)
    ensures
        bytes_contents(c) == bytes_contents(*b),
;

/// `BytesMut` as a slice (`Deref<Target = [u8]>`).
#[verifier::external_body]
pub(crate) fn bytes_mut_as_slice(b: &BytesMut) -> (s: &[u8])
    ensures
        s@ == bytes_mut_contents(*b),
{
    b
}

/// `BytesMut::reserve`: makes room for `additional` more bytes; the contents stay
/// as they are. The allocation it makes is capped at `isize::MAX` bytes, past
/// which it panics, so the total must stay within that cap.
#[verifier::external_body]
pub(crate) fn bytes_mut_reserve(b: &mut BytesMut, additional: usize)
    requires
        bytes_mut_contents(*old(b)).len() + additional <= isize::MAX,
    ensures
        bytes_mut_contents(*final(b)) == bytes_mut_contents(*old(b)),
{
    b.reserve(additional)
}

/// `BufMut::put_u8` on `BytesMut`: appends one byte (within the `isize::MAX` cap).
#[verifier::external_body]
pub(crate) fn bytes_mut_put_u8(b: &mut BytesMut, v: u8)
    requires
        bytes_mut_contents(*old(b)).len() + 1 <= isize::MAX,
    ensures
        bytes_mut_contents(*final(b)) == bytes_mut_contents(*old(b)).push(v),
{
    b.put_u8(v)
}

/// `BufMut::put_u16` on `BytesMut`: appends the big-endian bytes of `v`.
#[verifier::external_body]
pub(crate) fn bytes_mut_put_u16(b: &mut BytesMut, v: u16)
    requires
        bytes_mut_contents(*old(b)).len() + 2 <= isize::MAX,
    ensures
        bytes_mut_contents(*final(b)) == bytes_mut_contents(*old(b)) + u16_bytes(v),
{
    b.put_u16(v)
}

/// `BufMut::put_u32` on `BytesMut`: appends the big-endian bytes of `v`.
#[verifier::external_body]
pub(crate) fn bytes_mut_put_u32(b: &mut BytesMut, v: u32)
    requires
        bytes_mut_contents(*old(b)).len() + 4 <= isize::MAX,
    ensures
        bytes_mut_contents(*final(b)) == bytes_mut_contents(*old(b)) + u32_bytes(v),
{
    b.put_u32(v)
}

/// `BytesMut::extend_from_slice`: appends the bytes of `s`.
#[verifier::external_body]
pub(crate) fn bytes_mut_extend_from_slice(b: &mut BytesMut, s: &[u8])
    requires
        bytes_mut_contents(*old(b)).len() + s@.len() <= isize::MAX,
    ensures
        bytes_mut_contents(*final(b)) == bytes_mut_contents(*old(b)) + s@,
{
    b.extend_from_slice(s)
}

/// `buffer[i] = v` on `BytesMut` (through `DerefMut` to a slice): replaces the
/// byte at `i`. Slice indexing panics out of bounds, so `i < len` is required.
#[verifier::external_body]
pub(crate) fn bytes_mut_set(b: &mut BytesMut, i: usize, v: u8)
    requires
        i < bytes_mut_contents(*old(b)).len(),
    ensures
        bytes_mut_contents(*final(b)) == bytes_mut_contents(*old(b)).update(i as int, v),
{
    b[i] = v;
}

/// `BytesMut::split_to`: returns the first `at` bytes and leaves the rest in `b`.
/// It panics when `at > len`.
#[verifier::external_body]
pub(crate) fn bytes_mut_split_to(b: &mut BytesMut, at: usize) -> (front: BytesMut)
    requires
        at <= bytes_mut_contents(*old(b)).len(),
    ensures
        bytes_mut_contents(front) == bytes_mut_contents(*old(b)).take(at as int),
        bytes_mut_contents(*final(b)) == bytes_mut_contents(*old(b)).skip(at as int),
{
    b.split_to(at)
}

/// `BytesMut::freeze`: turns the buffer into a `Bytes` holding the same bytes.
#[verifier::external_body]
pub(crate) fn bytes_mut_freeze(b: BytesMut) -> (f: Bytes)
    ensures
        bytes_contents(f) == bytes_mut_contents(b),
{
    b.freeze()
}

} // verus!
