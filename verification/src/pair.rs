//! The container of two fields, written as a pair. Its codec runs the
//! container traversal over the two field types; a container of more fields
//! nests pairs or follows the same steps.

use crate::buf::remaining;
use crate::container::{
    container_bytes_len, container_field_lengths, container_split, container_take_field,
    lemma_windows_monotone, spec_decode_field, spec_field_lengths, spec_fields_len,
    spec_header_len, spec_slot_offsets, spec_window_lengths, FieldLayout,
};
use crate::laws::SszRoundTrip;
use crate::decode::SszDecode;
use crate::encode::{SszEncode, SszLayout};
use crate::error::{DecodeError, DecodeFault};
use crate::offset::{spec_offset_bytes, write_offset, BYTES_PER_LENGTH_OFFSET};
use crate::sequence::{bounded_sum, spec_bounded_sum};
use vstd::prelude::*;

verus! {

/// What a value puts into the fixed header of the container around it: its
/// own bytes where its type is static, else a slot that holds `offset`.
pub open spec fn spec_fixed_part<T: SszEncode>(v: &T, offset: usize) -> Seq<u8> {
    if T::spec_is_static() {
        v.spec_ssz()
    } else {
        spec_offset_bytes(offset)
    }
}

/// What a value puts into the variable tail of the container around it:
/// nothing where its type is static, else its own bytes.
pub open spec fn spec_variable_part<T: SszEncode>(v: &T) -> Seq<u8> {
    if T::spec_is_static() {
        Seq::<u8>::empty()
    } else {
        v.spec_ssz()
    }
}

/// Where the payload after this value's payload starts, given that this
/// value's own payload would start at `offset`.
pub open spec fn spec_next_offset<T: SszEncode>(v: &T, offset: usize) -> usize {
    if T::spec_is_static() {
        offset
    } else {
        (offset + v.spec_ssz().len()) as usize
    }
}

/// The most that a field of type `T` adds to a container: its bound, and
/// the slot for its offset where it is dynamic.
pub open spec fn spec_slot_max_len<T: SszLayout>() -> usize {
    if T::spec_is_static() {
        T::spec_max_len()
    } else {
        spec_bounded_sum(BYTES_PER_LENGTH_OFFSET, T::spec_max_len())
    }
}

/// Computes the most that a field adds to a container from what the field
/// type says of itself.
pub fn slot_max_len(is_static: bool, max_len: usize) -> (r: usize)
    ensures
        r == if is_static {
            max_len
        } else {
            spec_bounded_sum(BYTES_PER_LENGTH_OFFSET, max_len)
        },
{
    if is_static {
        max_len
    } else {
        bounded_sum(BYTES_PER_LENGTH_OFFSET, max_len)
    }
}

/// What a container needs to know of the field type `T`.
pub open spec fn spec_layout<T: SszLayout>() -> FieldLayout {
    FieldLayout { is_static: T::spec_is_static(), fixed_len: T::spec_fixed_len() }
}

/// The description of the two fields of a pair.
pub open spec fn spec_pair_fields<A: SszLayout, B: SszLayout>() -> Seq<FieldLayout> {
    seq![spec_layout::<A>(), spec_layout::<B>()]
}

/// The serialisation of the container of `a` and `b`: both slots, then
/// both payloads.
pub open spec fn spec_pair_ssz<A: SszEncode, B: SszEncode>(a: &A, b: &B) -> Seq<u8> {
    let header = (A::spec_fixed_len() + B::spec_fixed_len()) as usize;
    spec_fixed_part(a, header) + spec_fixed_part(b, spec_next_offset(a, header))
        + spec_variable_part(a) + spec_variable_part(b)
}

/// What `bytes` denote as the container of an `A` and a `B`.
///
/// Too short an input for the header fails first. A static container reads
/// its fields one after the other from the front. A dynamic container first
/// turns the offsets in its header into payload lengths, then reads each
/// field from its slot or from its payload.
pub open spec fn spec_decode_pair<A: SszDecode, B: SszDecode>(bytes: Seq<u8>) -> Result<
    (A::V, B::V),
    DecodeFault,
> {
    let header = A::spec_fixed_len() + B::spec_fixed_len();
    if bytes.len() < header {
        Err(
            DecodeFault::InvalidByteLength {
                len: bytes.len() as usize,
                expected: spec_bounded_sum(A::spec_fixed_len(), B::spec_fixed_len()),
            },
        )
    } else if A::spec_is_static() && B::spec_is_static() {
        match A::spec_decode(bytes) {
            Err(f) => Err(f),
            Ok(a) => match B::spec_decode(bytes.skip(A::spec_fixed_len() as int)) {
                Err(f) => Err(f),
                Ok(b) => Ok((a, b)),
            },
        }
    } else {
        let fixed = bytes.subrange(0, header);
        let variable = bytes.subrange(header, bytes.len() as int);
        match spec_field_lengths(fixed, spec_pair_fields::<A, B>(), bytes.len() as usize) {
            Err(f) => Err(f),
            Ok(lens) => {
                let len_a = if A::spec_is_static() {
                    0
                } else {
                    lens[0]
                };
                let len_b = if B::spec_is_static() {
                    0
                } else if A::spec_is_static() {
                    lens[0]
                } else {
                    lens[1]
                };
                match spec_decode_field::<A>(fixed, variable, len_a) {
                    Err(f) => Err(f),
                    Ok(a) => match spec_decode_field::<B>(
                        fixed.skip(A::spec_fixed_len() as int),
                        if A::spec_is_static() {
                            variable
                        } else {
                            variable.skip(len_a as int)
                        },
                        len_b,
                    ) {
                        Err(f) => Err(f),
                        Ok(b) => Ok((a, b)),
                    },
                }
            },
        }
    }
}

/// The length of a pair's serialisation is the sum of what its parts take.
pub proof fn lemma_pair_len<A: SszEncode, B: SszEncode>(a: &A, b: &B)
    requires
        a.spec_valid(),
        b.spec_valid(),
        spec_pair_ssz(a, b).len() <= usize::MAX,
    ensures
        spec_pair_ssz(a, b).len() == A::spec_fixed_len() + B::spec_fixed_len() + spec_variable_part(
            a,
        ).len() + spec_variable_part(b).len(),
        spec_fixed_part(a, 0).len() == A::spec_fixed_len(),
        spec_fixed_part(b, 0).len() == B::spec_fixed_len(),
        a.spec_ssz().len() <= spec_pair_ssz(a, b).len(),
        b.spec_ssz().len() <= spec_pair_ssz(a, b).len(),
{
    vstd::bytes::lemma_auto_spec_u32_to_from_le_bytes();
    A::lemma_dynamic_slot();
    B::lemma_dynamic_slot();
    if A::spec_is_static() {
        a.lemma_fixed_len();
    }
    if B::spec_is_static() {
        b.lemma_fixed_len();
    }
}

impl<A: SszLayout, B: SszLayout> SszLayout for (A, B) {
    type V = (A::V, B::V);

    open spec fn spec_model(&self) -> (A::V, B::V) {
        (self.0.spec_model(), self.1.spec_model())
    }

    open spec fn spec_valid(&self) -> bool {
        self.0.spec_valid() && self.1.spec_valid()
    }

    open spec fn spec_is_static() -> bool {
        A::spec_is_static() && B::spec_is_static()
    }

    open spec fn spec_fixed_len() -> usize {
        if A::spec_is_static() && B::spec_is_static() {
            spec_bounded_sum(A::spec_fixed_len(), B::spec_fixed_len())
        } else {
            BYTES_PER_LENGTH_OFFSET
        }
    }

    proof fn lemma_dynamic_slot() {
    }

    open spec fn spec_max_len() -> usize {
        spec_bounded_sum(spec_slot_max_len::<A>(), spec_slot_max_len::<B>())
    }
}

impl<A: SszEncode, B: SszEncode> SszEncode for (A, B) {
    open spec fn spec_ssz(&self) -> Seq<u8> {
        spec_pair_ssz(&self.0, &self.1)
    }

    proof fn lemma_fixed_len(&self) {
        lemma_pair_len(&self.0, &self.1);
    }

    proof fn lemma_max_len(&self) {
        lemma_pair_len(&self.0, &self.1);
        if self.0.spec_ssz().len() <= usize::MAX {
            self.0.lemma_max_len();
        }
        if self.1.spec_ssz().len() <= usize::MAX {
            self.1.lemma_max_len();
        }
        A::lemma_dynamic_slot();
        B::lemma_dynamic_slot();
        let a_part = spec_fixed_part(&self.0, 0).len() + spec_variable_part(&self.0).len();
        let b_part = spec_fixed_part(&self.1, 0).len() + spec_variable_part(&self.1).len();
        assert(self.spec_ssz().len() == a_part + b_part);
        assert(a_part <= usize::MAX ==> a_part <= spec_slot_max_len::<A>());
        assert(b_part <= usize::MAX ==> b_part <= spec_slot_max_len::<B>());
    }

    fn is_ssz_static() -> bool {
        A::is_ssz_static() && B::is_ssz_static()
    }

    fn ssz_fixed_len() -> usize {
        if A::is_ssz_static() && B::is_ssz_static() {
            bounded_sum(A::ssz_fixed_len(), B::ssz_fixed_len())
        } else {
            BYTES_PER_LENGTH_OFFSET
        }
    }

    fn ssz_max_len() -> usize {
        bounded_sum(
            slot_max_len(A::is_ssz_static(), A::ssz_max_len()),
            slot_max_len(B::is_ssz_static(), B::ssz_max_len()),
        )
    }

    fn ssz_bytes_len(&self) -> usize {
        proof {
            lemma_pair_len(&self.0, &self.1);
        }
        if A::is_ssz_static() && B::is_ssz_static() {
            A::ssz_fixed_len() + B::ssz_fixed_len()
        } else {
            let fields: [FieldLayout; 2] = [
                FieldLayout { is_static: A::is_ssz_static(), fixed_len: A::ssz_fixed_len() },
                FieldLayout { is_static: B::is_ssz_static(), fixed_len: B::ssz_fixed_len() },
            ];
            let lens: [usize; 2] = [self.0.ssz_bytes_len(), self.1.ssz_bytes_len()];
            proof {
                A::lemma_dynamic_slot();
                B::lemma_dynamic_slot();
                lemma_two_fields_len(fields@, lens@);
            }
            container_bytes_len(fields.as_slice(), lens.as_slice())
        }
    }

    fn ssz_write_fixed(&self, offset: &mut usize, buf: &mut Vec<u8>) {
        // a static container is written outright; a dynamic one leaves its
        // offset and is written with the payloads
        if A::is_ssz_static() && B::is_ssz_static() {
            proof {
                lemma_pair_len(&self.0, &self.1);
            }
            self.0.ssz_write_fixed(offset, buf);
            self.1.ssz_write_fixed(offset, buf);
            assert(buf@ =~= old(buf)@ + self.spec_ssz());
        } else {
            write_offset(*offset, buf);
            *offset += self.ssz_bytes_len();
        }
    }

    fn ssz_write_variable(&self, buf: &mut Vec<u8>) {
        if !(A::is_ssz_static() && B::is_ssz_static()) {
            self.ssz_write(buf);
        }
    }

    fn ssz_write(&self, buf: &mut Vec<u8>) {
        proof {
            lemma_pair_len(&self.0, &self.1);
        }
        // the payloads start right behind the header
        let mut offset: usize = A::ssz_fixed_len() + B::ssz_fixed_len();

        self.0.ssz_write_fixed(&mut offset, buf);
        self.1.ssz_write_fixed(&mut offset, buf);

        self.0.ssz_write_variable(buf);
        self.1.ssz_write_variable(buf);
        assert(buf@ =~= old(buf)@ + self.spec_ssz());
    }
}

/// The length of a container of two fields, spelled out.
proof fn lemma_two_fields_len(fields: Seq<FieldLayout>, lens: Seq<usize>)
    requires
        fields.len() == 2,
        lens.len() == 2,
    ensures
        spec_fields_len(fields, lens) == (if fields[0].is_static {
            fields[0].fixed_len as nat
        } else {
            (BYTES_PER_LENGTH_OFFSET + lens[0]) as nat
        }) + (if fields[1].is_static {
            fields[1].fixed_len as nat
        } else {
            (BYTES_PER_LENGTH_OFFSET + lens[1]) as nat
        }),
{
    let one = fields.drop_last();
    assert(one.len() == 1);
    assert(one.drop_last().len() == 0);
    assert(spec_fields_len(one.drop_last(), lens) == 0);
    assert(one.last() == fields[0]);
    assert(spec_fields_len(one, lens) == spec_fields_len(one.drop_last(), lens) + (if one.last().is_static {
        one.last().fixed_len as nat
    } else {
        (BYTES_PER_LENGTH_OFFSET + lens[one.len() - 1]) as nat
    }));
}

impl<A: SszDecode, B: SszDecode> SszDecode for (A, B) {
    open spec fn spec_decode(bytes: Seq<u8>) -> Result<(A::V, B::V), DecodeFault> {
        spec_decode_pair::<A, B>(bytes)
    }

    fn is_ssz_static() -> bool {
        A::is_ssz_static() && B::is_ssz_static()
    }

    fn ssz_fixed_len() -> usize {
        if A::is_ssz_static() && B::is_ssz_static() {
            bounded_sum(A::ssz_fixed_len(), B::ssz_fixed_len())
        } else {
            BYTES_PER_LENGTH_OFFSET
        }
    }

    fn ssz_max_len() -> usize {
        bounded_sum(
            slot_max_len(A::is_ssz_static(), A::ssz_max_len()),
            slot_max_len(B::is_ssz_static(), B::ssz_max_len()),
        )
    }

    fn ssz_read(fixed_bytes: &mut &[u8], variable_bytes: &mut &[u8]) -> (r: Result<
        Self,
        DecodeError,
    >) {
        let header: usize = match A::ssz_fixed_len().checked_add(B::ssz_fixed_len()) {
            Some(h) => h,
            None => usize::MAX,
        };
        if A::is_ssz_static() && B::is_ssz_static() {
            let len: usize = remaining(fixed_bytes);
            if len < header || A::ssz_fixed_len() > usize::MAX - B::ssz_fixed_len() {
                return Err(DecodeError::InvalidByteLength { len, expected: header });
            }
            let a = match A::ssz_read(fixed_bytes, variable_bytes) {
                Ok(a) => a,
                Err(e) => {
                    return Err(e);
                },
            };
            let b = match B::ssz_read(fixed_bytes, variable_bytes) {
                Ok(b) => b,
                Err(e) => {
                    return Err(e);
                },
            };
            proof {
                assert(old(fixed_bytes)@.skip(A::spec_fixed_len() as int).skip(
                    B::spec_fixed_len() as int,
                ) =~= old(fixed_bytes)@.skip(header as int));
            }
            Ok((a, b))
        } else {
            // the whole container lies in the variable bytes
            let whole: &[u8] = *variable_bytes;
            if whole.len() < header || A::ssz_fixed_len() > usize::MAX - B::ssz_fixed_len() {
                return Err(DecodeError::InvalidByteLength { len: whole.len(), expected: header });
            }
            let parts = match container_split(whole, header) {
                Ok(parts) => parts,
                Err(e) => {
                    return Err(e);
                },
            };
            let mut fixed: &[u8] = parts.0;
            let mut variable: &[u8] = parts.1;
            let fields: [FieldLayout; 2] = [
                FieldLayout { is_static: A::is_ssz_static(), fixed_len: A::ssz_fixed_len() },
                FieldLayout { is_static: B::is_ssz_static(), fixed_len: B::ssz_fixed_len() },
            ];
            proof {
                A::lemma_dynamic_slot();
                B::lemma_dynamic_slot();
                lemma_two_fields_header(fields@);
                assert(fields@ =~= spec_pair_fields::<A, B>());
            }
            let lens = match container_field_lengths(fixed, fields.as_slice(), variable.len()) {
                Ok(lens) => lens,
                Err(e) => {
                    return Err(e);
                },
            };
            proof {
                lemma_two_fields_offsets(fixed@, fields@);
                lemma_windows_monotone(
                    spec_slot_offsets(fixed@, fields@),
                    whole@.len() as usize,
                    spec_slot_offsets(fixed@, fields@).len() as int,
                );
            }
            let len_a: usize = if A::is_ssz_static() {
                0
            } else {
                lens[0]
            };
            let len_b: usize = if B::is_ssz_static() {
                0
            } else if A::is_ssz_static() {
                lens[0]
            } else {
                lens[1]
            };
            let a = match container_take_field::<A>(&mut fixed, &mut variable, len_a) {
                Ok(a) => a,
                Err(e) => {
                    return Err(e);
                },
            };
            let b = match container_take_field::<B>(&mut fixed, &mut variable, len_b) {
                Ok(b) => b,
                Err(e) => {
                    return Err(e);
                },
            };
            Ok((a, b))
        }
    }
}

/// The header of a container of two fields is as long as both slots.
proof fn lemma_two_fields_header(fields: Seq<FieldLayout>)
    requires
        fields.len() == 2,
    ensures
        spec_header_len(fields) == fields[0].fixed_len + fields[1].fixed_len,
        spec_header_len(fields.drop_last()) == fields[0].fixed_len,
{
    let one = fields.drop_last();
    assert(one.len() == 1);
    assert(one.drop_last().len() == 0);
    assert(spec_header_len(one.drop_last()) == 0);
    assert(one.last() == fields[0]);
    assert(spec_header_len(one) == spec_header_len(one.drop_last()) + one.last().fixed_len);
}

/// A container of two fields has one offset for each dynamic field, read
/// from that field's slot.
pub proof fn lemma_two_fields_offsets(header: Seq<u8>, fields: Seq<FieldLayout>)
    requires
        fields.len() == 2,
    ensures
        spec_slot_offsets(header, fields).len() == (if fields[0].is_static {
            0nat
        } else {
            1nat
        }) + (if fields[1].is_static {
            0nat
        } else {
            1nat
        }),
        !fields[0].is_static ==> spec_slot_offsets(header, fields)[0]
            == vstd::bytes::spec_u32_from_le_bytes(header.subrange(0, 4)) as usize,
        !fields[1].is_static ==> spec_slot_offsets(header, fields).last()
            == vstd::bytes::spec_u32_from_le_bytes(
            header.subrange(fields[0].fixed_len as int, fields[0].fixed_len + 4),
        ) as usize,
{
    let one = fields.drop_last();
    assert(one.len() == 1);
    assert(one.drop_last().len() == 0);
    assert(spec_slot_offsets(header, one.drop_last()).len() == 0);
    assert(spec_header_len(one.drop_last()) == 0);
    assert(one.last() == fields[0]);
    lemma_two_fields_header(fields);
    assert(spec_slot_offsets(header, one).len() == if fields[0].is_static {
        0nat
    } else {
        1nat
    });
}

/// The lengths that one or two offsets give.
pub proof fn lemma_few_window_lengths(offsets: Seq<usize>, total: usize)
    requires
        offsets.len() <= 2,
    ensures
        offsets.len() == 0 ==> spec_window_lengths(offsets, total, 0) == Ok::<
            Seq<usize>,
            DecodeFault,
        >(Seq::empty()),
        offsets.len() == 1 && offsets[0] <= total ==> spec_window_lengths(offsets, total, 1)
            == Ok::<Seq<usize>, DecodeFault>(seq![(total - offsets[0]) as usize]),
        offsets.len() == 2 && offsets[0] <= offsets[1] <= total ==> spec_window_lengths(
            offsets,
            total,
            2,
        ) == Ok::<Seq<usize>, DecodeFault>(
            seq![(offsets[1] - offsets[0]) as usize, (total - offsets[1]) as usize],
        ),
{
    reveal_with_fuel(spec_window_lengths, 3);
    if offsets.len() == 1 && offsets[0] <= total {
        assert(Seq::<usize>::empty().push((total - offsets[0]) as usize) =~= seq![
            (total - offsets[0]) as usize,
        ]);
    }
    if offsets.len() == 2 && offsets[0] <= offsets[1] <= total {
        assert(Seq::<usize>::empty().push((offsets[1] - offsets[0]) as usize).push(
            (total - offsets[1]) as usize,
        ) =~= seq![(offsets[1] - offsets[0]) as usize, (total - offsets[1]) as usize]);
    }
}

/// Reading back a written offset that fits a slot gives the offset.
pub proof fn lemma_offset_round_trip(offset: usize)
    requires
        offset <= u32::MAX,
    ensures
        spec_offset_bytes(offset).len() == 4,
        vstd::bytes::spec_u32_from_le_bytes(spec_offset_bytes(offset)) as usize == offset,
{
    vstd::bytes::lemma_auto_spec_u32_to_from_le_bytes();
    let word = offset as u32;
    assert(word as usize == offset);
    assert(vstd::bytes::spec_u32_to_le_bytes(word).len() == 4);
    assert(vstd::bytes::spec_u32_from_le_bytes(vstd::bytes::spec_u32_to_le_bytes(word)) == word);
}

impl<A: SszRoundTrip, B: SszRoundTrip> SszRoundTrip for (A, B) {
    open spec fn spec_supported() -> bool {
        A::spec_supported() && B::spec_supported()
    }

    proof fn lemma_round_trip(&self, rest: Seq<u8>) {
        let a = &self.0;
        let b = &self.1;
        lemma_pair_len(a, b);
        A::lemma_dynamic_slot();
        B::lemma_dynamic_slot();
        let header = (A::spec_fixed_len() + B::spec_fixed_len()) as usize;
        let second = spec_next_offset(a, header);
        let bytes = self.spec_ssz() + rest;
        let empty = Seq::<u8>::empty();
        if A::spec_is_static() && B::spec_is_static() {
            assert(bytes =~= a.spec_ssz() + (b.spec_ssz() + rest));
            a.lemma_round_trip(b.spec_ssz() + rest);
            assert(bytes.skip(A::spec_fixed_len() as int) =~= b.spec_ssz() + rest);
            b.lemma_round_trip(rest);
        } else {
            let fields = spec_pair_fields::<A, B>();
            let fixed = bytes.subrange(0, header as int);
            let variable = bytes.subrange(header as int, bytes.len() as int);
            let total = bytes.len() as usize;
            assert(bytes =~= self.spec_ssz());
            assert(fixed =~= spec_fixed_part(a, header) + spec_fixed_part(b, second));
            assert(variable =~= spec_variable_part(a) + spec_variable_part(b));
            lemma_two_fields_header(fields);
            lemma_two_fields_offsets(fixed, fields);
            let offsets = spec_slot_offsets(fixed, fields);
            lemma_few_window_lengths(offsets, total);
            lemma_offset_round_trip(header);
            lemma_offset_round_trip(second);
            if !A::spec_is_static() {
                assert(fixed.subrange(0, 4) =~= spec_offset_bytes(header));
                assert(offsets[0] == header);
            }
            if !B::spec_is_static() {
                assert(fixed.subrange(A::spec_fixed_len() as int, A::spec_fixed_len() + 4)
                    =~= spec_offset_bytes(second));
                assert(offsets.last() == second);
            }
            if A::spec_is_static() {
                // the header holds the first field and the offset of the second
                assert(fixed =~= a.spec_ssz() + spec_offset_bytes(second));
                a.lemma_round_trip(spec_offset_bytes(second));
                assert(fixed.skip(A::spec_fixed_len() as int) =~= spec_offset_bytes(second));
                assert(variable.subrange(0, b.spec_ssz().len() as int) =~= b.spec_ssz());
                b.lemma_round_trip(empty);
                assert(b.spec_ssz() + empty =~= b.spec_ssz());
            } else if B::spec_is_static() {
                // the header holds the offset of the first field and the second
                assert(variable.subrange(0, a.spec_ssz().len() as int) =~= a.spec_ssz());
                a.lemma_round_trip(empty);
                assert(a.spec_ssz() + empty =~= a.spec_ssz());
                assert(fixed.skip(A::spec_fixed_len() as int) =~= b.spec_ssz() + empty);
                b.lemma_round_trip(empty);
            } else {
                assert(variable.subrange(0, a.spec_ssz().len() as int) =~= a.spec_ssz());
                a.lemma_round_trip(empty);
                assert(a.spec_ssz() + empty =~= a.spec_ssz());
                assert(fixed.skip(A::spec_fixed_len() as int) =~= spec_offset_bytes(second));
                assert(variable.skip(a.spec_ssz().len() as int).subrange(
                    0,
                    b.spec_ssz().len() as int,
                ) =~= b.spec_ssz());
                b.lemma_round_trip(empty);
                assert(b.spec_ssz() + empty =~= b.spec_ssz());
            }
        }
    }
}

} // verus!
