//! Byte buffers: what the rest of the library relies on of the `bytes` crate.
//!
//! The contents of a [`Bytes`] and of a [`BytesMut`] are sequences of bytes; how
//! much memory stands behind them is left open. No buffer outgrows the largest
//! allocation there is, `isize::MAX` bytes.

use bytes::{Buf, BufMut, Bytes, BytesMut};
use vstd::prelude::*;

verus! {

#[verifier::external_type_specification]
#[verifier::external_body]
pub struct ExBytes(Bytes);

#[verifier::external_type_specification]
#[verifier::external_body]
pub struct ExBytesMut(BytesMut);

/// The bytes that `b` holds.
pub uninterp spec fn bytes_contents(b: Bytes) -> Seq<u8>;

/// The bytes that `b` holds, the ones already consumed left out.
pub uninterp spec fn buffer_contents(b: BytesMut) -> Seq<u8>;

/// The bytes that each of `bs` holds, in order.
pub open spec fn all_contents(bs: Seq<Bytes>) -> Seq<Seq<u8>> {
    bs.map_values(|b: Bytes| bytes_contents(b))
}

/// The four bytes of `n`, the most significant one first.
pub open spec fn be_bytes(n: u32) -> Seq<u8> {
    seq![
        (n / 0x100_0000) as u8,
        (n / 0x1_0000 % 0x100) as u8,
        (n / 0x100 % 0x100) as u8,
        (n % 0x100) as u8,
    ]
}

/// The number that the first four bytes of `s` are, the most significant one first.
pub open spec fn be_value(s: Seq<u8>) -> u32
    recommends
        s.len() >= 4,
{
    (s[0] * 0x100_0000 + s[1] * 0x1_0000 + s[2] * 0x100 + s[3]) as u32
}

pub(crate) proof fn lemma_be_round_trip(n: u32, rest: Seq<u8>)
    ensures
        be_value(be_bytes(n) + rest) == n,
{
    let s: Seq<u8> = be_bytes(n) + rest;
    assert(s[0] == n / 0x100_0000 && s[1] == n / 0x1_0000 % 0x100 && s[2] == n / 0x100 % 0x100
        && s[3] == n % 0x100);
}

/// The number that the four bytes of `s` from `at` on are, the most significant
/// one first.
pub(crate) fn be_at(s: &[u8], at: usize) -> (n: u32)
    requires
        at + 4 <= s@.len(),
    ensures
        n == be_value(s@.skip(at as int)),
{
    s[at] as u32 * 0x100_0000 + s[at + 1] as u32 * 0x1_0000 + s[at + 2] as u32 * 0x100
        + s[at + 3] as u32
}

/// `BytesMut::new` gives an empty buffer.
pub assume_specification[ BytesMut::new ]() -> (b: BytesMut)
    ensures
        buffer_contents(b) == Seq::<u8>::empty(),
;

/// `BytesMut::extend_from_slice` appends the slice. It panics where the buffer
/// would outgrow the largest allocation.
pub assume_specification[ BytesMut::extend_from_slice ](b: &mut BytesMut, extend: &[u8])
    requires
        buffer_contents(*old(b)).len() + extend@.len() <= isize::MAX,
    ensures
        buffer_contents(*final(b)) == buffer_contents(*old(b)) + extend@,
;

/// `BytesMut::split_to` takes the first `at` bytes off the buffer and hands them
/// out. It panics where the buffer holds fewer.
pub assume_specification[ BytesMut::split_to ](b: &mut BytesMut, at: usize) -> (head: BytesMut)
    requires
        at <= buffer_contents(*old(b)).len(),
    ensures
        buffer_contents(head) == buffer_contents(*old(b)).take(at as int),
        buffer_contents(*final(b)) == buffer_contents(*old(b)).skip(at as int),
;

/// `BytesMut::freeze` keeps the bytes.
pub assume_specification[ BytesMut::freeze ](b: BytesMut) -> (frozen: Bytes)
    ensures
        bytes_contents(frozen) == buffer_contents(b),
;

/// `Bytes::clone` keeps the bytes.
pub assume_specification[ <Bytes as Clone>::clone ](b: &Bytes) -> (copy: Bytes)
    ensures
        bytes_contents(copy) == bytes_contents(*b),
;

/// `BytesMut::from` copies the slice into a buffer.
#[verifier::external_body]
pub(crate) fn buffer_from(s: &[u8]) -> (b: BytesMut)
    ensures
        buffer_contents(b) == s@,
{
    BytesMut::from(s)
}

/// A `BytesMut` seen as a slice, through its `Deref`: the bytes that it holds.
#[verifier::external_body]
pub(crate) fn buffer_slice(b: &BytesMut) -> (s: &[u8])
    ensures
        s@ == buffer_contents(*b),
{
    &b[..]
}

/// `BufMut::put_u8` appends one byte. It panics where the buffer would outgrow
/// the largest allocation.
#[verifier::external_body]
pub(crate) fn put_u8(b: &mut BytesMut, n: u8)
    requires
        buffer_contents(*old(b)).len() + 1 <= isize::MAX,
    ensures
        buffer_contents(*final(b)) == buffer_contents(*old(b)).push(n),
{
    b.put_u8(n)
}

/// `BufMut::put_u32` appends the four bytes of `n`, the most significant one
/// first. It panics where the buffer would outgrow the largest allocation.
#[verifier::external_body]
pub(crate) fn put_u32(b: &mut BytesMut, n: u32)
    requires
        buffer_contents(*old(b)).len() + 4 <= isize::MAX,
    ensures
        buffer_contents(*final(b)) == buffer_contents(*old(b)) + be_bytes(n),
{
    b.put_u32(n)
}

/// `Buf::advance` drops the first `n` bytes. It panics where the buffer holds
/// fewer.
#[verifier::external_body]
pub(crate) fn advance(b: &mut BytesMut, n: usize)
    requires
        n <= buffer_contents(*old(b)).len(),
    ensures
        buffer_contents(*final(b)) == buffer_contents(*old(b)).skip(n as int),
{
    b.advance(n)
}

/// `Buf::get_u32` takes four bytes off the buffer and reads them as a number, the
/// most significant one first. It panics where the buffer holds fewer.
#[verifier::external_body]
pub(crate) fn get_u32(b: &mut BytesMut) -> (n: u32)
    requires
        buffer_contents(*old(b)).len() >= 4,
    ensures
        n == be_value(buffer_contents(*old(b))),
        buffer_contents(*final(b)) == buffer_contents(*old(b)).skip(4),
{
    b.get_u32()
}

/// `Bytes::from` keeps the bytes of the vector.
#[verifier::external_body]
pub(crate) fn bytes_from(v: Vec<u8>) -> (b: Bytes)
    ensures
        bytes_contents(b) == v@,
{
    Bytes::from(v)
}

/// A `Bytes` seen as a slice, through its `Deref`: the bytes that it holds.
#[verifier::external_body]
pub(crate) fn bytes_slice(b: &Bytes) -> (s: &[u8])
    ensures
        s@ == bytes_contents(*b),
{
    &b[..]
}

} // verus!
