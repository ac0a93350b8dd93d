//! Containers: ordered fields of different types.
//!
//! A container's bytes are a fixed header, one slot per field in declaration
//! order, followed by the payloads of its dynamic fields in the same order.
//! The slot of a dynamic field holds the offset of its payload from the start
//! of the container. A field's payload runs to the next offset, and the last
//! payload to the end of the container.
//!
//! The functions here work on a description of the fields, so that one
//! traversal serves a container of any number of fields.

use crate::buf::{advance, remaining};
use crate::decode::SszDecode;
use crate::error::{DecodeError, DecodeFault};
use crate::offset::{read_offset_from_buf, read_offset_from_slice, BYTES_PER_LENGTH_OFFSET};
use vstd::prelude::*;
use vstd::slice::slice_subrange;

verus! {

/// What a container needs to know of one field's type.
#[derive(Clone, Copy, Debug)]
pub struct FieldLayout {
    /// Whether the field's type is static.
    pub is_static: bool,
    /// The width of the field's slot in the header.
    pub fixed_len: usize,
}

/// Whether every field is static.
pub open spec fn spec_all_static(fields: Seq<FieldLayout>) -> bool {
    forall|i: int| 0 <= i < fields.len() ==> (#[trigger] fields[i]).is_static
}

/// The length of the fixed header: the sum of the slot widths.
pub open spec fn spec_header_len(fields: Seq<FieldLayout>) -> nat
    decreases fields.len(),
{
    if fields.len() == 0 {
        0
    } else {
        spec_header_len(fields.drop_last()) + fields.last().fixed_len as nat
    }
}

/// The serialised length of a container whose fields serialise to
/// `lens[i]` bytes each.
pub open spec fn spec_fields_len(fields: Seq<FieldLayout>, lens: Seq<usize>) -> nat
    decreases fields.len(),
{
    if fields.len() == 0 {
        0
    } else {
        spec_fields_len(fields.drop_last(), lens) + (if fields.last().is_static {
            fields.last().fixed_len as nat
        } else {
            (BYTES_PER_LENGTH_OFFSET + lens[fields.len() - 1]) as nat
        })
    }
}

/// The header lengths of prefixes of the fields grow with the prefix.
pub proof fn lemma_header_len_prefix(fields: Seq<FieldLayout>, i: int)
    requires
        0 <= i <= fields.len(),
    ensures
        spec_header_len(fields.take(i)) <= spec_header_len(fields),
        i < fields.len() ==> spec_header_len(fields.take(i + 1)) == spec_header_len(
            fields.take(i),
        ) + fields[i].fixed_len,
    decreases fields.len() - i,
{
    if i == fields.len() {
        assert(fields.take(i) =~= fields);
    } else {
        assert(fields.take(i + 1).drop_last() =~= fields.take(i));
        lemma_header_len_prefix(fields, i + 1);
    }
}

/// Whether a container of these fields is static: all of its fields are.
pub fn container_is_static(fields: &[FieldLayout]) -> (r: bool)
    ensures
        r == spec_all_static(fields@),
{
    let mut i: usize = 0;
    while i < fields.len()
        invariant
            0 <= i <= fields@.len(),
            forall|k: int| 0 <= k < i ==> (#[trigger] fields@[k]).is_static,
        decreases fields@.len() - i,
    {
        if !fields[i].is_static {
            return false;
        }
        i += 1;
    }
    true
}

/// The length of the fixed header of a container of these fields.
pub fn container_header_len(fields: &[FieldLayout]) -> (r: usize)
    requires
        spec_header_len(fields@) <= usize::MAX,
    ensures
        r == spec_header_len(fields@),
{
    let mut len: usize = 0;
    let mut i: usize = 0;
    while i < fields.len()
        invariant
            0 <= i <= fields@.len(),
            spec_header_len(fields@) <= usize::MAX,
            len == spec_header_len(fields@.take(i as int)),
        decreases fields@.len() - i,
    {
        proof {
            lemma_header_len_prefix(fields@, i as int);
            lemma_header_len_prefix(fields@, i as int + 1);
        }
        len = len + fields[i].fixed_len;
        i += 1;
    }
    proof {
        assert(fields@.take(i as int) =~= fields@);
    }
    len
}

/// The width of the slot that a container of these fields takes in the
/// header of a composite around it: its whole length where it is static,
/// else the width of an offset.
pub fn container_fixed_len(fields: &[FieldLayout]) -> (r: usize)
    requires
        spec_header_len(fields@) <= usize::MAX,
    ensures
        r == if spec_all_static(fields@) {
            spec_header_len(fields@)
        } else {
            BYTES_PER_LENGTH_OFFSET as nat
        },
{
    if container_is_static(fields) {
        container_header_len(fields)
    } else {
        BYTES_PER_LENGTH_OFFSET
    }
}

/// One more field adds its slot and, where it is dynamic, its payload.
pub proof fn lemma_fields_len_prefix(fields: Seq<FieldLayout>, lens: Seq<usize>, i: int)
    requires
        0 <= i <= fields.len(),
    ensures
        spec_fields_len(fields.take(i), lens) <= spec_fields_len(fields, lens),
        i < fields.len() ==> spec_fields_len(fields.take(i + 1), lens) == spec_fields_len(
            fields.take(i),
            lens,
        ) + (if fields[i].is_static {
            fields[i].fixed_len as nat
        } else {
            (BYTES_PER_LENGTH_OFFSET + lens[i]) as nat
        }),
    decreases fields.len() - i,
{
    if i == fields.len() {
        assert(fields.take(i) =~= fields);
    } else {
        assert(fields.take(i + 1).drop_last() =~= fields.take(i));
        lemma_fields_len_prefix(fields, lens, i + 1);
    }
}

/// The serialised length of a container value, from the serialised lengths
/// of its fields: a static field counts its slot, a dynamic one its slot and
/// its payload.
pub fn container_bytes_len(fields: &[FieldLayout], lens: &[usize]) -> (r: usize)
    requires
        fields@.len() == lens@.len(),
        spec_fields_len(fields@, lens@) <= usize::MAX,
    ensures
        r == spec_fields_len(fields@, lens@),
{
    let mut len: usize = 0;
    let mut i: usize = 0;
    while i < fields.len()
        invariant
            0 <= i <= fields@.len(),
            fields@.len() == lens@.len(),
            spec_fields_len(fields@, lens@) <= usize::MAX,
            len == spec_fields_len(fields@.take(i as int), lens@),
        decreases fields@.len() - i,
    {
        proof {
            lemma_fields_len_prefix(fields@, lens@, i as int);
            lemma_fields_len_prefix(fields@, lens@, i as int + 1);
        }
        if fields[i].is_static {
            len = len + fields[i].fixed_len;
        } else {
            len = len + BYTES_PER_LENGTH_OFFSET;
            len = len + lens[i];
        }
        i += 1;
    }
    proof {
        assert(fields@.take(i as int) =~= fields@);
    }
    len
}

/// The offsets that the header holds, in field order: one for every dynamic
/// field, read from that field's slot.
pub open spec fn spec_slot_offsets(header: Seq<u8>, fields: Seq<FieldLayout>) -> Seq<usize>
    decreases fields.len(),
{
    if fields.len() == 0 {
        Seq::empty()
    } else {
        let front = spec_slot_offsets(header, fields.drop_last());
        if fields.last().is_static {
            front
        } else {
            let at = spec_header_len(fields.drop_last()) as int;
            front.push(
                vstd::bytes::spec_u32_from_le_bytes(header.subrange(at, at + 4)) as usize,
            )
        }
    }
}

/// Boundary `i` of a list of offsets: offset `i` where there is one, else
/// `total`.
pub open spec fn spec_offset_or_end(offsets: Seq<usize>, total: usize, i: int) -> usize {
    if 0 <= i < offsets.len() {
        offsets[i]
    } else {
        total
    }
}

/// The payload lengths that the first `count` windows of consecutive
/// offsets give, or `OffsetsAreDecreasing` of the start of the first window
/// that ends before it starts.
pub open spec fn spec_window_lengths(offsets: Seq<usize>, total: usize, count: int) -> Result<
    Seq<usize>,
    DecodeFault,
>
    decreases count,
{
    if count <= 0 {
        Ok(Seq::empty())
    } else {
        match spec_window_lengths(offsets, total, count - 1) {
            Err(f) => Err(f),
            Ok(front) => {
                let start = spec_offset_or_end(offsets, total, count - 1);
                let end = spec_offset_or_end(offsets, total, count);
                if start > end {
                    Err(DecodeFault::OffsetsAreDecreasing(start))
                } else {
                    Ok(front.push((end - start) as usize))
                }
            },
        }
    }
}

/// The payload lengths of a container's dynamic fields, in field order.
///
/// `header` is the fixed header, `total` the length of the whole container
/// and `fields` its description. The offsets must not decrease, the last
/// must not pass `total`, and the first must not skip bytes behind the
/// header.
pub open spec fn spec_field_lengths(header: Seq<u8>, fields: Seq<FieldLayout>, total: usize)
    -> Result<Seq<usize>, DecodeFault> {
    let offsets = spec_slot_offsets(header, fields);
    match spec_window_lengths(offsets, total, offsets.len() as int) {
        Err(f) => Err(f),
        Ok(lens) => if offsets.len() > 0 && offsets[0] > spec_header_len(fields) {
            Err(DecodeFault::OffsetSkipsVariableBytes(offsets[0]))
        } else {
            Ok(lens)
        },
    }
}

/// Once a window has failed, taking more windows changes nothing.
pub proof fn lemma_window_failure_stays(offsets: Seq<usize>, total: usize, failed: int, count: int)
    requires
        failed <= count,
        spec_window_lengths(offsets, total, failed) is Err,
    ensures
        spec_window_lengths(offsets, total, count) == spec_window_lengths(offsets, total, failed),
    decreases count - failed,
{
    if failed < count {
        lemma_window_failure_stays(offsets, total, failed, count - 1);
    }
}

/// Where all windows are accepted, the offsets never decrease and none
/// passes the total length; there is one payload length per offset, and
/// window `i` is as long as the step from boundary `i` to the next.
pub proof fn lemma_windows_monotone(offsets: Seq<usize>, total: usize, count: int)
    requires
        0 <= count <= offsets.len(),
        spec_window_lengths(offsets, total, count) is Ok,
    ensures
        spec_window_lengths(offsets, total, count)->Ok_0.len() == count,
        forall|i: int, j: int|
            0 <= i <= j <= count ==> spec_offset_or_end(offsets, total, i) <= spec_offset_or_end(
                offsets,
                total,
                j,
            ),
        forall|i: int|
            0 <= i < count ==> (#[trigger] spec_window_lengths(offsets, total, count)->Ok_0[i])
                == spec_offset_or_end(offsets, total, i + 1) - spec_offset_or_end(
                offsets,
                total,
                i,
            ),
    decreases count,
{
    if count > 0 {
        lemma_windows_monotone(offsets, total, count - 1);
        let front = spec_window_lengths(offsets, total, count - 1)->Ok_0;
        let all = spec_window_lengths(offsets, total, count)->Ok_0;
        assert forall|i: int| 0 <= i < count implies (#[trigger] all[i]) == spec_offset_or_end(
            offsets,
            total,
            i + 1,
        ) - spec_offset_or_end(offsets, total, i) by {
            if i < count - 1 {
                assert(all[i] == front[i]);
            }
        }
    }
}

/// Reads the offsets out of a container's fixed header.
pub fn container_offsets(header: &[u8], fields: &[FieldLayout]) -> (r: Vec<usize>)
    requires
        spec_header_len(fields@) <= header@.len(),
        forall|i: int| 0 <= i < fields@.len() && !(#[trigger] fields@[i]).is_static
            ==> fields@[i].fixed_len == BYTES_PER_LENGTH_OFFSET,
    ensures
        r@ == spec_slot_offsets(header@, fields@),
{
    let mut offsets: Vec<usize> = Vec::new();
    let mut at: usize = 0;
    let mut i: usize = 0;
    let available: usize = header.len();
    while i < fields.len()
        invariant
            0 <= i <= fields@.len(),
            available == header@.len(),
            spec_header_len(fields@) <= header@.len(),
            forall|k: int| 0 <= k < fields@.len() && !(#[trigger] fields@[k]).is_static
                ==> fields@[k].fixed_len == BYTES_PER_LENGTH_OFFSET,
            at == spec_header_len(fields@.take(i as int)),
            offsets@ == spec_slot_offsets(header@, fields@.take(i as int)),
        decreases fields@.len() - i,
    {
        proof {
            lemma_header_len_prefix(fields@, i as int);
            lemma_header_len_prefix(fields@, i as int + 1);
            assert(fields@.take(i as int + 1).drop_last() =~= fields@.take(i as int));
        }
        if !fields[i].is_static {
            let slot = slice_subrange(header, at, at + BYTES_PER_LENGTH_OFFSET);
            assert(slot@.subrange(0, 4) =~= slot@);
            match read_offset_from_slice(slot) {
                Ok(off) => {
                    offsets.push(off);
                },
                Err(_) => {},
            }
        }
        at = at + fields[i].fixed_len;
        i += 1;
    }
    proof {
        assert(fields@.take(i as int) =~= fields@);
    }
    offsets
}

/// Turns a list of offsets into the lengths between them, the last one
/// reaching to `total`.
pub fn offset_lengths(offsets: &[usize], total: usize) -> (r: Result<Vec<usize>, DecodeError>)
    ensures
        match spec_window_lengths(offsets@, total, offsets@.len() as int) {
            Ok(lens) => r matches Ok(out) && out@ == lens,
            Err(f) => r matches Err(e) && e@ == f,
        },
{
    let mut lens: Vec<usize> = Vec::new();
    let mut i: usize = 0;
    while i < offsets.len()
        invariant
            0 <= i <= offsets@.len(),
            spec_window_lengths(offsets@, total, i as int) == Ok::<Seq<usize>, DecodeFault>(
                lens@,
            ),
        decreases offsets@.len() - i,
    {
        let start: usize = offsets[i];
        let end: usize = if i + 1 < offsets.len() {
            offsets[i + 1]
        } else {
            total
        };
        if start > end {
            proof {
                lemma_window_failure_stays(
                    offsets@,
                    total,
                    i as int + 1,
                    offsets@.len() as int,
                );
            }
            return Err(DecodeError::OffsetsAreDecreasing(start));
        }
        lens.push(end - start);
        i += 1;
    }
    Ok(lens)
}

/// The payload lengths of a container's dynamic fields, read off its fixed
/// header. `variable_len` is the number of bytes behind the header.
pub fn container_field_lengths(header: &[u8], fields: &[FieldLayout], variable_len: usize) -> (r:
    Result<Vec<usize>, DecodeError>)
    requires
        header@.len() == spec_header_len(fields@),
        header@.len() + variable_len <= usize::MAX,
        forall|i: int| 0 <= i < fields@.len() && !(#[trigger] fields@[i]).is_static
            ==> fields@[i].fixed_len == BYTES_PER_LENGTH_OFFSET,
    ensures
        match spec_field_lengths(header@, fields@, (header@.len() + variable_len) as usize) {
            Ok(lens) => r matches Ok(out) && out@ == lens,
            Err(f) => r matches Err(e) && e@ == f,
        },
{
    let total: usize = header.len() + variable_len;
    let offsets = container_offsets(header, fields);
    match offset_lengths(offsets.as_slice(), total) {
        Ok(lens) => {
            if offsets.len() > 0 && offsets[0] > header.len() {
                Err(DecodeError::OffsetSkipsVariableBytes(offsets[0]))
            } else {
                Ok(lens)
            }
        },
        Err(e) => Err(e),
    }
}

/// Splits the bytes of a container into its fixed header and what follows.
pub fn container_split(bytes: &[u8], header_len: usize) -> (r: Result<(&[u8], &[u8]), DecodeError>)
    ensures
        bytes@.len() < header_len ==> (r matches Err(e) && e@ == (DecodeFault::InvalidByteLength {
            len: bytes@.len() as usize,
            expected: header_len,
        })),
        bytes@.len() >= header_len ==> (r matches Ok(parts) && parts.0@ == bytes@.subrange(
            0,
            header_len as int,
        ) && parts.1@ == bytes@.subrange(header_len as int, bytes@.len() as int)),
{
    if bytes.len() < header_len {
        Err(DecodeError::InvalidByteLength { len: bytes.len(), expected: header_len })
    } else {
        Ok(bytes.split_at(header_len))
    }
}

/// What one field of a container denotes, given the cursors over the
/// header and the payloads and, for a dynamic field, its payload length.
pub open spec fn spec_decode_field<T: SszDecode>(
    fixed: Seq<u8>,
    variable: Seq<u8>,
    len: usize,
) -> Result<T::V, DecodeFault> {
    if T::spec_is_static() {
        T::spec_decode(fixed)
    } else if fixed.len() < 4 {
        Err(DecodeFault::InvalidLengthPrefix { len: fixed.len() as usize, expected: 4 })
    } else if len > variable.len() {
        Err(DecodeFault::InvalidByteLength { len, expected: variable.len() as usize })
    } else {
        T::spec_decode(variable.subrange(0, len as int))
    }
}

/// Reads one field of a container. A static field is read from the header
/// cursor. A dynamic field skips its offset slot in the header cursor and
/// takes `len` bytes from the payload cursor, which are decoded on their
/// own.
pub fn container_take_field<T: SszDecode>(
    fixed_bytes: &mut &[u8],
    variable_bytes: &mut &[u8],
    len: usize,
) -> (r: Result<T, DecodeError>)
    ensures
        match spec_decode_field::<T>(old(fixed_bytes)@, old(variable_bytes)@, len) {
            Ok(val) => r matches Ok(v) && v.spec_model() == val && v.spec_valid(),
            Err(f) => r matches Err(e) && e@ == f,
        },
        r is Ok ==> T::spec_fixed_len() <= old(fixed_bytes)@.len() && final(fixed_bytes)@ == old(
            fixed_bytes,
        )@.skip(T::spec_fixed_len() as int),
        r is Ok && T::spec_is_static() ==> final(variable_bytes)@ == old(variable_bytes)@,
        r is Ok && !T::spec_is_static() ==> final(variable_bytes)@ == old(variable_bytes)@.skip(
            len as int,
        ) && T::spec_fixed_len() == 4,
{
    if T::is_ssz_static() {
        T::ssz_read(fixed_bytes, variable_bytes)
    } else {
        // skip the slot: the windows of offsets have given the length already
        match read_offset_from_buf(fixed_bytes) {
            Ok(_) => {},
            Err(e) => {
                return Err(e);
            },
        }
        let left: usize = remaining(variable_bytes);
        if len > left {
            return Err(DecodeError::InvalidByteLength { len, expected: left });
        }
        let whole: &[u8] = *variable_bytes;
        let res = T::from_ssz_bytes(slice_subrange(whole, 0, len));
        advance(variable_bytes, len);
        proof {
            T::lemma_dynamic_slot();
        }
        res
    }
}

} // verus!
