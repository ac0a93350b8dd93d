//! Four-byte little-endian offsets: reading, writing and validating them.

use crate::buf::{get_u32_le, put_u32_le, remaining};
use crate::error::{DecodeError, DecodeFault};
use vstd::bytes::{spec_u32_from_le_bytes, spec_u32_to_le_bytes, u32_from_le_bytes};
use vstd::prelude::*;
use vstd::slice::slice_subrange;

verus! {

/// The width of an offset slot in a fixed header.
pub const BYTES_PER_LENGTH_OFFSET: usize = 4;

/// The number that the first four bytes of `bytes` spell, least significant
/// byte first.
pub open spec fn spec_offset_at(bytes: Seq<u8>) -> usize
    recommends
        bytes.len() >= 4,
{
    spec_u32_from_le_bytes(bytes.subrange(0, 4)) as usize
}

/// The four bytes an offset is written as: the low 32 bits of `offset`, least
/// significant byte first.
pub open spec fn spec_offset_bytes(offset: usize) -> Seq<u8> {
    spec_u32_to_le_bytes(offset as u32)
}

/// What reading an offset from the front of `bytes` gives.
pub open spec fn spec_read_offset(bytes: Seq<u8>) -> Result<usize, DecodeFault> {
    if bytes.len() < 4 {
        Err(DecodeFault::InvalidLengthPrefix { len: bytes.len() as usize, expected: 4 })
    } else {
        Ok(spec_offset_at(bytes))
    }
}

/// What `sanitize_offset` answers: the first rule that `offset` breaks, in
/// the order in which the rules are tried, or the offset itself.
pub open spec fn spec_sanitize_offset(
    offset: usize,
    previous_offset: Option<usize>,
    num_bytes: usize,
    num_fixed_bytes: Option<usize>,
) -> Result<usize, DecodeFault> {
    if num_fixed_bytes is Some && offset < num_fixed_bytes->Some_0 {
        Err(DecodeFault::OffsetIntoFixedPortion(offset))
    } else if previous_offset is None && num_fixed_bytes is Some && offset
        != num_fixed_bytes->Some_0 {
        Err(DecodeFault::OffsetSkipsVariableBytes(offset))
    } else if offset > num_bytes {
        Err(DecodeFault::OffsetOutOfBounds(offset))
    } else if previous_offset is Some && previous_offset->Some_0 > offset {
        Err(DecodeFault::OffsetsAreDecreasing(offset))
    } else {
        Ok(offset)
    }
}

/// Whether a plain result is the one a specification names, up to the
/// message of a failure.
pub open spec fn answered_as<T>(got: Result<T, DecodeError>, want: Result<T, DecodeFault>) -> bool {
    match (got, want) {
        (Ok(v), Ok(w)) => v == w,
        (Err(e), Err(f)) => e@ == f,
        _ => false,
    }
}

/// Reads an offset from the front of a cursor and moves the cursor past it.
/// With fewer than four bytes left the cursor stays where it is.
pub fn read_offset_from_buf(buf: &mut &[u8]) -> (r: Result<usize, DecodeError>)
    ensures
        answered_as(r, spec_read_offset(old(buf)@)),
        r is Ok ==> final(buf)@ == old(buf)@.skip(4),
        r is Err ==> final(buf)@ == old(buf)@,
{
    let len: usize = remaining(buf);
    let expected: usize = BYTES_PER_LENGTH_OFFSET;

    if len < expected {
        Err(DecodeError::InvalidLengthPrefix { len, expected })
    } else {
        let word: u32 = get_u32_le(buf);
        Ok(word as usize)
    }
}

/// Reads an offset from the first four bytes of a slice.
pub fn read_offset_from_slice(bytes: &[u8]) -> (r: Result<usize, DecodeError>)
    ensures
        answered_as(r, spec_read_offset(bytes@)),
{
    if bytes.len() < BYTES_PER_LENGTH_OFFSET {
        Err(DecodeError::InvalidLengthPrefix { len: bytes.len(), expected: BYTES_PER_LENGTH_OFFSET })
    } else {
        decode_offset(slice_subrange(bytes, 0, BYTES_PER_LENGTH_OFFSET))
    }
}

/// Decodes exactly four bytes as an offset; any other length is refused.
pub fn decode_offset(bytes: &[u8]) -> (r: Result<usize, DecodeError>)
    ensures
        bytes@.len() == 4 ==> r == Ok::<usize, DecodeError>(
            spec_u32_from_le_bytes(bytes@) as usize,
        ),
        bytes@.len() != 4 ==> r is Err && r->Err_0@ == (DecodeFault::InvalidLengthPrefix {
            len: bytes@.len() as usize,
            expected: 4,
        }),
{
    let len: usize = bytes.len();
    let expected: usize = BYTES_PER_LENGTH_OFFSET;

    if len != expected {
        Err(DecodeError::InvalidLengthPrefix { len, expected })
    } else {
        let word: u32 = u32_from_le_bytes(bytes);
        Ok(word as usize)
    }
}

/// Appends `offset` to `buf` as a four-byte slot. Only the low 32 bits are
/// written; an offset that a slot can hold is below 2^32.
pub fn write_offset(offset: usize, buf: &mut Vec<u8>)
    ensures
        final(buf)@ == old(buf)@ + spec_offset_bytes(offset),
{
    let low: u32 = #[verifier::truncate]
    (offset as u32);
    put_u32_le(buf, low);
}

/// Checks `offset` against what is known of the message around it.
///
/// `previous_offset` is the offset read before this one, if any; `num_bytes`
/// is the length of the whole message; `num_fixed_bytes` is the length of the
/// fixed header, where it is known.
pub fn sanitize_offset(
    offset: usize,
    previous_offset: Option<usize>,
    num_bytes: usize,
    num_fixed_bytes: Option<usize>,
) -> (r: Result<usize, DecodeError>)
    ensures
        answered_as(r, spec_sanitize_offset(offset, previous_offset, num_bytes, num_fixed_bytes)),
{
    let into_fixed: bool = match num_fixed_bytes {
        Some(fixed_bytes) => offset < fixed_bytes,
        None => false,
    };
    let skips: bool = match num_fixed_bytes {
        Some(fixed_bytes) => previous_offset.is_none() && offset != fixed_bytes,
        None => false,
    };
    let decreasing: bool = match previous_offset {
        Some(prev) => prev > offset,
        None => false,
    };
    if into_fixed {
        Err(DecodeError::OffsetIntoFixedPortion(offset))
    } else if skips {
        Err(DecodeError::OffsetSkipsVariableBytes(offset))
    } else if offset > num_bytes {
        Err(DecodeError::OffsetOutOfBounds(offset))
    } else if decreasing {
        Err(DecodeError::OffsetsAreDecreasing(offset))
    } else {
        Ok(offset)
    }
}

} // verus!
