//! The byte cursors the codecs run on: a shrinking `&[u8]` on the reading
//! side and a growing `Vec<u8>` on the writing side, both driven through the
//! `bytes` crate's `Buf` and `BufMut`.

use vstd::bytes::{
    spec_u128_to_le_bytes, spec_u16_to_le_bytes, spec_u32_from_le_bytes, spec_u32_to_le_bytes,
    spec_u64_to_le_bytes,
};
use vstd::prelude::*;

verus! {

/// `bytes::Buf::remaining` on a byte slice: the number of bytes not yet read,
/// which for a slice is its length.
#[verifier::external_body]
pub(crate) fn remaining(buf: &&[u8]) -> (r: usize)
    ensures
        r == buf@.len(),
{
    bytes::Buf::remaining(buf)
}

/// `bytes::Buf::has_remaining` on a byte slice: whether any byte is left.
#[verifier::external_body]
pub(crate) fn has_remaining(buf: &&[u8]) -> (r: bool)
    ensures
        r == (buf@.len() > 0),
{
    bytes::Buf::has_remaining(buf)
}

/// `bytes::Buf::chunk` on a byte slice: the unread bytes, which for a slice
/// are all of it.
#[verifier::external_body]
pub(crate) fn chunk<'a>(buf: &'a &[u8]) -> (r: &'a [u8])
    ensures
        r@ == buf@,
{
    bytes::Buf::chunk(buf)
}

/// `bytes::Buf::advance` on a byte slice: drops the first `n` bytes. The
/// crate panics when fewer than `n` are left, so that is required.
#[verifier::external_body]
pub(crate) fn advance(buf: &mut &[u8], n: usize)
    requires
        n <= old(buf)@.len(),
    ensures
        final(buf)@ == old(buf)@.skip(n as int),
{
    bytes::Buf::advance(buf, n)
}

/// `bytes::Buf::get_u8` on a byte slice: returns the first byte and drops it.
/// The crate panics on an empty slice, so one byte is required.
#[verifier::external_body]
pub(crate) fn get_u8(buf: &mut &[u8]) -> (r: u8)
    requires
        old(buf)@.len() >= 1,
    ensures
        r == old(buf)@[0],
        final(buf)@ == old(buf)@.skip(1),
{
    bytes::Buf::get_u8(buf)
}

/// `bytes::Buf::get_u32_le` on a byte slice: reads the first four bytes as a
/// little-endian number and drops them. The crate panics when fewer than four
/// are left, so four are required.
#[verifier::external_body]
pub(crate) fn get_u32_le(buf: &mut &[u8]) -> (r: u32)
    requires
        old(buf)@.len() >= 4,
    ensures
        r == spec_u32_from_le_bytes(old(buf)@.subrange(0, 4)),
        final(buf)@ == old(buf)@.skip(4),
{
    bytes::Buf::get_u32_le(buf)
}

/// `bytes::BufMut::put_u8` on a vector: appends the byte.
#[verifier::external_body]
pub(crate) fn put_u8(buf: &mut Vec<u8>, v: u8)
    ensures
        final(buf)@ == old(buf)@.push(v),
{
    bytes::BufMut::put_u8(buf, v)
}

/// `bytes::BufMut::put_u16_le` on a vector: appends the two bytes of `v`,
/// least significant first.
#[verifier::external_body]
pub(crate) fn put_u16_le(buf: &mut Vec<u8>, v: u16)
    ensures
        final(buf)@ == old(buf)@ + spec_u16_to_le_bytes(v),
{
    bytes::BufMut::put_u16_le(buf, v)
}

/// `bytes::BufMut::put_u32_le` on a vector: appends the four bytes of `v`,
/// least significant first.
#[verifier::external_body]
pub(crate) fn put_u32_le(buf: &mut Vec<u8>, v: u32)
    ensures
        final(buf)@ == old(buf)@ + spec_u32_to_le_bytes(v),
{
    bytes::BufMut::put_u32_le(buf, v)
}

/// `bytes::BufMut::put_u64_le` on a vector: appends the eight bytes of `v`,
/// least significant first.
#[verifier::external_body]
pub(crate) fn put_u64_le(buf: &mut Vec<u8>, v: u64)
    ensures
        final(buf)@ == old(buf)@ + spec_u64_to_le_bytes(v),
{
    bytes::BufMut::put_u64_le(buf, v)
}

/// `bytes::BufMut::put_u128_le` on a vector: appends the sixteen bytes of
/// `v`, least significant first.
#[verifier::external_body]
pub(crate) fn put_u128_le(buf: &mut Vec<u8>, v: u128)
    ensures
        final(buf)@ == old(buf)@ + spec_u128_to_le_bytes(v),
{
    bytes::BufMut::put_u128_le(buf, v)
}

/// `bytes::BufMut::put_slice` on a vector: appends the bytes of `src` in
/// order.
#[verifier::external_body]
pub(crate) fn put_slice(buf: &mut Vec<u8>, src: &[u8])
    ensures
        final(buf)@ == old(buf)@ + src@,
{
    bytes::BufMut::put_slice(buf, src)
}

} // verus!
