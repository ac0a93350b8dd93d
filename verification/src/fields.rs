//! Containers of any number of fields.
//!
//! The fields of a container are written as a chain: `Fields` holds the
//! first field and the fields after it, and `NoFields` ends the chain. The
//! chain is walked once for the header and once for the payloads on the way
//! out, and once on the way in, after the offsets in the header have been
//! turned into payload lengths.

use crate::buf::remaining;
use crate::container::{
    container_field_lengths, container_split, container_take_field, lemma_header_len_prefix,
    spec_all_static, spec_decode_field, spec_field_lengths, spec_header_len,
    spec_offset_or_end, spec_slot_offsets, spec_window_lengths, FieldLayout,
};
use crate::laws::SszRoundTrip;
use crate::decode::SszDecode;
use crate::encode::{SszEncode, SszLayout};
use crate::error::{DecodeError, DecodeFault};
use crate::offset::{spec_offset_bytes, write_offset, BYTES_PER_LENGTH_OFFSET};
use crate::pair::{
    lemma_offset_round_trip, slot_max_len, spec_fixed_part, spec_layout, spec_next_offset, spec_slot_max_len,
    spec_variable_part,
};
use crate::sequence::{bounded_sum, spec_bounded_sum};
use vstd::prelude::*;

verus! {

/// The end of a chain of fields.
#[derive(Clone, Copy, Debug, PartialEq)]
pub struct NoFields;

/// A field and the fields after it.
#[derive(Clone, Debug, PartialEq)]
pub struct Fields<A, R> {
    pub first: A,
    pub rest: R,
}

/// A field that the codec leaves out, and the fields after it. The field is
/// not written, and reading gives it its default value.
#[derive(Clone, Debug, PartialEq)]
pub struct Skipped<A, R> {
    pub first: A,
    pub rest: R,
}

/// A container of the fields `F`.
#[derive(Clone, Debug, PartialEq)]
pub struct Container<F> {
    pub fields: F,
}

/// A length where it fits the machine's word, else the largest word.
pub open spec fn spec_bounded(n: nat) -> usize {
    if n <= usize::MAX {
        n as usize
    } else {
        usize::MAX
    }
}

/// The header of a container grows by the slot of a field put in front.
pub proof fn lemma_header_len_cons(first: FieldLayout, rest: Seq<FieldLayout>)
    ensures
        spec_header_len(seq![first] + rest) == first.fixed_len + spec_header_len(rest),
    decreases rest.len(),
{
    let all = seq![first] + rest;
    if rest.len() == 0 {
        assert(all.drop_last() =~= Seq::<FieldLayout>::empty());
        assert(spec_header_len(all.drop_last()) == 0);
    } else {
        assert(all.drop_last() =~= seq![first] + rest.drop_last());
        assert(all.last() == rest.last());
        lemma_header_len_cons(first, rest.drop_last());
    }
}

/// A chain of fields of a container.
pub trait SszFields: Sized {
    /// What the fields stand for in contracts.
    type V;

    /// The values the fields stand for.
    spec fn spec_fields_model(&self) -> Self::V;

    /// Whether every field is well-formed.
    spec fn spec_fields_valid(&self) -> bool;

    /// The descriptions of the fields, in order.
    spec fn spec_layouts() -> Seq<FieldLayout>;

    /// The slots of the fields, where the first payload starts at `offset`.
    spec fn spec_slots(&self, offset: usize) -> Seq<u8>;

    /// The length of the slots, which is the same wherever the payloads
    /// start.
    spec fn spec_slots_len(&self) -> nat;

    /// The payloads of the dynamic fields.
    spec fn spec_payloads(&self) -> Seq<u8>;

    /// The sum of the fields' buffer bounds, each with its slot.
    spec fn spec_fields_max_len() -> usize;

    /// What the cursors over a header and the payloads behind it denote as
    /// these fields, given one payload length per dynamic field.
    spec fn spec_read_fields(fixed: Seq<u8>, variable: Seq<u8>, lens: Seq<usize>) -> Result<
        Self::V,
        DecodeFault,
    >;

    /// The number of payload bytes that reading these fields takes: the
    /// payload lengths of the dynamic fields, added up.
    spec fn spec_taken(lens: Seq<usize>) -> nat;

    /// The slots are as long wherever the payloads start.
    proof fn lemma_slots_len(&self, offset: usize)
        ensures
            self.spec_slots(offset).len() == self.spec_slots_len(),
    ;

    /// The slots of well-formed fields fill the header exactly, and slots
    /// and payloads together stay within the fields' bound.
    proof fn lemma_slots(&self)
        requires
            self.spec_fields_valid(),
            self.spec_slots_len() + self.spec_payloads().len() <= usize::MAX,
        ensures
            self.spec_slots_len() == spec_header_len(Self::spec_layouts()),
            self.spec_slots_len() + self.spec_payloads().len() <= Self::spec_fields_max_len(),
    ;

    /// Static fields have no payloads.
    proof fn lemma_static_payloads(&self)
        requires
            spec_all_static(Self::spec_layouts()),
        ensures
            self.spec_payloads().len() == 0,
    ;

    /// The slot of every dynamic field is as wide as an offset.
    proof fn lemma_layouts()
        ensures
            forall|i: int|
                0 <= i < Self::spec_layouts().len() && !(#[trigger] Self::spec_layouts()[i]).is_static
                    ==> Self::spec_layouts()[i].fixed_len == BYTES_PER_LENGTH_OFFSET,
    ;

    /// Whether all fields are static.
    fn all_static() -> (r: bool)
        ensures
            r == spec_all_static(Self::spec_layouts()),
    ;

    /// The length of the header, where it fits the machine's word.
    fn header_len() -> (r: Option<usize>)
        ensures
            match r {
                Some(n) => n == spec_header_len(Self::spec_layouts()),
                None => spec_header_len(Self::spec_layouts()) > usize::MAX,
            },
    ;

    fn fields_max_len() -> (r: usize)
        ensures
            r == Self::spec_fields_max_len(),
    ;

    /// Appends the descriptions of the fields.
    fn layouts(out: &mut Vec<FieldLayout>)
        ensures
            final(out)@ == old(out)@ + Self::spec_layouts(),
    ;

    /// The length of the payloads.
    fn payloads_len(&self) -> (r: usize)
        requires
            self.spec_fields_valid(),
            self.spec_slots_len() <= usize::MAX,
            self.spec_payloads().len() <= usize::MAX,
        ensures
            r == self.spec_payloads().len(),
    ;

    /// Writes the header: every field's slot, in order.
    fn write_slots(&self, offset: &mut usize, buf: &mut Vec<u8>)
        requires
            self.spec_fields_valid(),
            self.spec_slots_len() <= usize::MAX,
            *old(offset) + self.spec_payloads().len() <= usize::MAX,
        ensures
            final(buf)@ == old(buf)@ + self.spec_slots(*old(offset)),
            *final(offset) == *old(offset) + self.spec_payloads().len(),
    ;

    /// Writes the payloads of the dynamic fields, in order.
    fn write_payloads(&self, buf: &mut Vec<u8>)
        requires
            self.spec_fields_valid(),
            self.spec_slots_len() <= usize::MAX,
            self.spec_payloads().len() <= usize::MAX,
        ensures
            final(buf)@ == old(buf)@ + self.spec_payloads(),
    ;

    /// Reads the fields, in order, each from its slot or from its payload.
    /// On success the header cursor has moved past the slots of these fields
    /// and the payload cursor past the payloads that were taken.
    fn read_fields(fixed_bytes: &mut &[u8], variable_bytes: &mut &[u8], lens: &[usize]) -> (r:
        Result<Self, DecodeError>)
        ensures
            match Self::spec_read_fields(old(fixed_bytes)@, old(variable_bytes)@, lens@) {
                Ok(m) => r matches Ok(v) && v.spec_fields_model() == m && v.spec_fields_valid(),
                Err(f) => r matches Err(e) && e@ == f,
            },
            r is Ok ==> spec_header_len(Self::spec_layouts()) <= old(fixed_bytes)@.len()
                && final(fixed_bytes)@ == old(fixed_bytes)@.skip(
                spec_header_len(Self::spec_layouts()) as int,
            ),
            r is Ok ==> Self::spec_taken(lens@) <= old(variable_bytes)@.len()
                && final(variable_bytes)@ == old(variable_bytes)@.skip(
                Self::spec_taken(lens@) as int,
            ),
    ;
}

impl SszFields for NoFields {
    type V = ();

    open spec fn spec_fields_model(&self) -> () {
        ()
    }

    open spec fn spec_fields_valid(&self) -> bool {
        true
    }

    open spec fn spec_layouts() -> Seq<FieldLayout> {
        Seq::empty()
    }

    open spec fn spec_slots(&self, offset: usize) -> Seq<u8> {
        Seq::empty()
    }

    open spec fn spec_slots_len(&self) -> nat {
        0
    }

    open spec fn spec_payloads(&self) -> Seq<u8> {
        Seq::empty()
    }

    open spec fn spec_fields_max_len() -> usize {
        0
    }

    open spec fn spec_read_fields(fixed: Seq<u8>, variable: Seq<u8>, lens: Seq<usize>) -> Result<
        (),
        DecodeFault,
    > {
        Ok(())
    }

    open spec fn spec_taken(lens: Seq<usize>) -> nat {
        0
    }

    proof fn lemma_slots_len(&self, offset: usize) {
    }

    proof fn lemma_slots(&self) {
    }

    proof fn lemma_static_payloads(&self) {
    }

    proof fn lemma_layouts() {
    }

    fn all_static() -> bool {
        true
    }

    fn header_len() -> Option<usize> {
        Some(0)
    }

    fn fields_max_len() -> usize {
        0
    }

    fn layouts(out: &mut Vec<FieldLayout>) {
        assert(out@ + Seq::<FieldLayout>::empty() =~= out@);
    }

    fn payloads_len(&self) -> usize {
        0
    }

    fn write_slots(&self, offset: &mut usize, buf: &mut Vec<u8>) {
        assert(buf@ + Seq::<u8>::empty() =~= buf@);
    }

    fn write_payloads(&self, buf: &mut Vec<u8>) {
        assert(buf@ + Seq::<u8>::empty() =~= buf@);
    }

    fn read_fields(fixed_bytes: &mut &[u8], variable_bytes: &mut &[u8], lens: &[usize]) -> (r:
        Result<Self, DecodeError>)
        ensures
            r is Ok,
            final(fixed_bytes)@ == old(fixed_bytes)@,
            final(variable_bytes)@ == old(variable_bytes)@,
    {
        assert(fixed_bytes@.skip(0) =~= fixed_bytes@);
        assert(variable_bytes@.skip(0) =~= variable_bytes@);
        Ok(NoFields)
    }
}

impl<A: SszEncode + SszDecode, R: SszFields> SszFields for Fields<A, R> {
    type V = (A::V, R::V);

    open spec fn spec_fields_model(&self) -> (A::V, R::V) {
        (self.first.spec_model(), self.rest.spec_fields_model())
    }

    open spec fn spec_fields_valid(&self) -> bool {
        self.first.spec_valid() && self.rest.spec_fields_valid()
    }

    open spec fn spec_layouts() -> Seq<FieldLayout> {
        seq![spec_layout::<A>()] + R::spec_layouts()
    }

    open spec fn spec_slots(&self, offset: usize) -> Seq<u8> {
        spec_fixed_part(&self.first, offset) + self.rest.spec_slots(
            spec_next_offset(&self.first, offset),
        )
    }

    open spec fn spec_slots_len(&self) -> nat {
        spec_fixed_part(&self.first, 0).len() + self.rest.spec_slots_len()
    }

    open spec fn spec_payloads(&self) -> Seq<u8> {
        spec_variable_part(&self.first) + self.rest.spec_payloads()
    }

    open spec fn spec_fields_max_len() -> usize {
        spec_bounded_sum(spec_slot_max_len::<A>(), R::spec_fields_max_len())
    }

    open spec fn spec_read_fields(fixed: Seq<u8>, variable: Seq<u8>, lens: Seq<usize>) -> Result<
        (A::V, R::V),
        DecodeFault,
    > {
        if !A::spec_is_static() && lens.len() == 0 {
            Err(DecodeFault::OutOfBoundsByte { i: 0 })
        } else {
            let len = if A::spec_is_static() {
                0
            } else {
                lens[0]
            };
            match spec_decode_field::<A>(fixed, variable, len) {
                Err(f) => Err(f),
                Ok(a) => match R::spec_read_fields(
                    fixed.skip(A::spec_fixed_len() as int),
                    if A::spec_is_static() {
                        variable
                    } else {
                        variable.skip(len as int)
                    },
                    if A::spec_is_static() {
                        lens
                    } else {
                        lens.skip(1)
                    },
                ) {
                    Err(f) => Err(f),
                    Ok(rest) => Ok((a, rest)),
                },
            }
        }
    }

    open spec fn spec_taken(lens: Seq<usize>) -> nat {
        if A::spec_is_static() {
            R::spec_taken(lens)
        } else if lens.len() == 0 {
            0
        } else {
            lens[0] as nat + R::spec_taken(lens.skip(1))
        }
    }

    proof fn lemma_slots_len(&self, offset: usize) {
        vstd::bytes::lemma_auto_spec_u32_to_from_le_bytes();
        self.rest.lemma_slots_len(spec_next_offset(&self.first, offset));
    }

    proof fn lemma_slots(&self) {
        vstd::bytes::lemma_auto_spec_u32_to_from_le_bytes();
        A::lemma_dynamic_slot();
        lemma_header_len_cons(spec_layout::<A>(), R::spec_layouts());
        if A::spec_is_static() {
            self.first.lemma_fixed_len();
        }
        self.first.lemma_max_len();
        self.rest.lemma_slots();
    }

    proof fn lemma_static_payloads(&self) {
        let all = Self::spec_layouts();
        let tail = R::spec_layouts();
        assert(all[0].is_static);
        assert forall|i: int| 0 <= i < tail.len() implies (#[trigger] tail[i]).is_static by {
            assert(all[i + 1] == tail[i]);
        }
        self.rest.lemma_static_payloads();
    }

    proof fn lemma_layouts() {
        A::lemma_dynamic_slot();
        R::lemma_layouts();
        let all = Self::spec_layouts();
        assert forall|i: int| 0 <= i < all.len() && !(#[trigger] all[i]).is_static implies all[i].fixed_len
            == BYTES_PER_LENGTH_OFFSET by {
            if i > 0 {
                assert(all[i] == R::spec_layouts()[i - 1]);
            }
        }
    }

    fn all_static() -> bool {
        let first = <A as SszEncode>::is_ssz_static();
        let rest = R::all_static();
        proof {
            let all = Self::spec_layouts();
            let tail = R::spec_layouts();
            if first && rest {
                assert forall|i: int| 0 <= i < all.len() implies (#[trigger] all[i]).is_static by {
                    if i > 0 {
                        assert(all[i] == tail[i - 1]);
                    }
                }
            } else if !first {
                assert(!all[0].is_static);
            } else {
                let k = choose|k: int| 0 <= k < tail.len() && !(#[trigger] tail[k]).is_static;
                assert(all[k + 1] == tail[k]);
            }
        }
        first && rest
    }

    fn header_len() -> Option<usize> {
        proof {
            lemma_header_len_cons(spec_layout::<A>(), R::spec_layouts());
        }
        match R::header_len() {
            Some(rest) => <A as SszEncode>::ssz_fixed_len().checked_add(rest),
            None => None,
        }
    }

    fn fields_max_len() -> usize {
        bounded_sum(slot_max_len(<A as SszEncode>::is_ssz_static(), <A as SszEncode>::ssz_max_len()), R::fields_max_len())
    }

    fn layouts(out: &mut Vec<FieldLayout>) {
        out.push(FieldLayout { is_static: <A as SszEncode>::is_ssz_static(), fixed_len: <A as SszEncode>::ssz_fixed_len() });
        R::layouts(out);
        assert(out@ =~= old(out)@ + Self::spec_layouts());
    }

    fn payloads_len(&self) -> usize {
        let rest: usize = self.rest.payloads_len();
        if <A as SszEncode>::is_ssz_static() {
            rest
        } else {
            self.first.ssz_bytes_len() + rest
        }
    }

    fn write_slots(&self, offset: &mut usize, buf: &mut Vec<u8>) {
        proof {
            vstd::bytes::lemma_auto_spec_u32_to_from_le_bytes();
        }
        self.first.ssz_write_fixed(offset, buf);
        self.rest.write_slots(offset, buf);
        assert(buf@ =~= old(buf)@ + self.spec_slots(*old(offset)));
    }

    fn write_payloads(&self, buf: &mut Vec<u8>) {
        self.first.ssz_write_variable(buf);
        self.rest.write_payloads(buf);
        assert(buf@ =~= old(buf)@ + self.spec_payloads());
    }

    fn read_fields(fixed_bytes: &mut &[u8], variable_bytes: &mut &[u8], lens: &[usize]) -> (r:
        Result<Self, DecodeError>) {
        proof {
            lemma_header_len_cons(spec_layout::<A>(), R::spec_layouts());
        }
        let is_static = <A as SszEncode>::is_ssz_static();
        if !is_static && lens.len() == 0 {
            return Err(DecodeError::OutOfBoundsByte { i: 0 });
        }
        let len: usize = if is_static {
            0
        } else {
            lens[0]
        };
        let first = match container_take_field::<A>(fixed_bytes, variable_bytes, len) {
            Ok(a) => a,
            Err(e) => {
                return Err(e);
            },
        };
        let left: &[usize] = if is_static {
            lens
        } else {
            vstd::slice::slice_subrange(lens, 1, lens.len())
        };
        let rest = match R::read_fields(fixed_bytes, variable_bytes, left) {
            Ok(r) => r,
            Err(e) => {
                return Err(e);
            },
        };
        proof {
            assert(old(fixed_bytes)@.skip(A::spec_fixed_len() as int).skip(
                spec_header_len(R::spec_layouts()) as int,
            ) =~= old(fixed_bytes)@.skip(spec_header_len(Self::spec_layouts()) as int));
            if !A::spec_is_static() {
                assert(left@ =~= lens@.skip(1));
                assert(old(variable_bytes)@.skip(len as int).skip(R::spec_taken(left@) as int)
                    =~= old(variable_bytes)@.skip(Self::spec_taken(lens@) as int));
            }
        }
        Ok(Fields { first, rest })
    }
}

/// The serialisation of a container of `fields`: the header, in which the
/// first payload starts right behind the header, and the payloads.
pub open spec fn spec_container_ssz<F: SszFields>(fields: &F) -> Seq<u8> {
    fields.spec_slots(spec_bounded(spec_header_len(F::spec_layouts()))) + fields.spec_payloads()
}

/// What `bytes` denote as a container of the fields `F`.
///
/// Too short an input for the header fails first. A static container reads
/// its fields one after the other from the front. A dynamic container first
/// turns the offsets in its header into payload lengths, then reads each
/// field from its slot or from its payload.
pub open spec fn spec_decode_container<F: SszFields>(bytes: Seq<u8>) -> Result<F::V, DecodeFault> {
    let header = spec_header_len(F::spec_layouts());
    if bytes.len() < header {
        Err(
            DecodeFault::InvalidByteLength {
                len: bytes.len() as usize,
                expected: spec_bounded(header),
            },
        )
    } else if spec_all_static(F::spec_layouts()) {
        F::spec_read_fields(bytes, Seq::empty(), Seq::empty())
    } else {
        let fixed = bytes.subrange(0, header as int);
        let variable = bytes.subrange(header as int, bytes.len() as int);
        match spec_field_lengths(fixed, F::spec_layouts(), bytes.len() as usize) {
            Err(f) => Err(f),
            Ok(lens) => F::spec_read_fields(fixed, variable, lens),
        }
    }
}

impl<F: SszFields> SszLayout for Container<F> {
    type V = F::V;

    open spec fn spec_model(&self) -> F::V {
        self.fields.spec_fields_model()
    }

    open spec fn spec_valid(&self) -> bool {
        self.fields.spec_fields_valid()
    }

    open spec fn spec_is_static() -> bool {
        spec_all_static(F::spec_layouts())
    }

    open spec fn spec_fixed_len() -> usize {
        if spec_all_static(F::spec_layouts()) {
            spec_bounded(spec_header_len(F::spec_layouts()))
        } else {
            BYTES_PER_LENGTH_OFFSET
        }
    }

    proof fn lemma_dynamic_slot() {
    }

    open spec fn spec_max_len() -> usize {
        F::spec_fields_max_len()
    }
}

impl<F: SszFields> SszEncode for Container<F> {
    open spec fn spec_ssz(&self) -> Seq<u8> {
        spec_container_ssz(&self.fields)
    }

    proof fn lemma_fixed_len(&self) {
        let header = spec_bounded(spec_header_len(F::spec_layouts()));
        self.fields.lemma_slots_len(header);
        self.fields.lemma_slots();
        if spec_all_static(F::spec_layouts()) {
            self.fields.lemma_static_payloads();
        }
    }

    proof fn lemma_max_len(&self) {
        let header = spec_bounded(spec_header_len(F::spec_layouts()));
        self.fields.lemma_slots_len(header);
        self.fields.lemma_slots();
    }

    fn is_ssz_static() -> bool {
        F::all_static()
    }

    fn ssz_fixed_len() -> usize {
        if F::all_static() {
            match F::header_len() {
                Some(n) => n,
                None => usize::MAX,
            }
        } else {
            BYTES_PER_LENGTH_OFFSET
        }
    }

    fn ssz_max_len() -> usize {
        F::fields_max_len()
    }

    fn ssz_bytes_len(&self) -> usize {
        proof {
            let header = spec_bounded(spec_header_len(F::spec_layouts()));
            self.fields.lemma_slots_len(header);
            self.fields.lemma_slots();
        }
        let header: usize = match F::header_len() {
            Some(n) => n,
            None => usize::MAX,
        };
        header + self.fields.payloads_len()
    }

    fn ssz_write_fixed(&self, offset: &mut usize, buf: &mut Vec<u8>) {
        // a static container is written outright; a dynamic one leaves its
        // offset and is written with the payloads
        if F::all_static() {
            self.ssz_write(buf);
        } else {
            write_offset(*offset, buf);
            *offset += self.ssz_bytes_len();
        }
    }

    fn ssz_write_variable(&self, buf: &mut Vec<u8>) {
        if !F::all_static() {
            self.ssz_write(buf);
        }
    }

    fn ssz_write(&self, buf: &mut Vec<u8>) {
        proof {
            let header = spec_bounded(spec_header_len(F::spec_layouts()));
            self.fields.lemma_slots_len(header);
            self.fields.lemma_slots();
        }
        // the payloads start right behind the header
        let mut offset: usize = match F::header_len() {
            Some(n) => n,
            None => usize::MAX,
        };

        self.fields.write_slots(&mut offset, buf);
        self.fields.write_payloads(buf);
        assert(buf@ =~= old(buf)@ + self.spec_ssz());
    }
}

impl<F: SszFields> SszDecode for Container<F> {
    open spec fn spec_decode(bytes: Seq<u8>) -> Result<F::V, DecodeFault> {
        spec_decode_container::<F>(bytes)
    }

    fn is_ssz_static() -> bool {
        F::all_static()
    }

    fn ssz_fixed_len() -> usize {
        if F::all_static() {
            match F::header_len() {
                Some(n) => n,
                None => usize::MAX,
            }
        } else {
            BYTES_PER_LENGTH_OFFSET
        }
    }

    fn ssz_max_len() -> usize {
        F::fields_max_len()
    }

    fn ssz_read(fixed_bytes: &mut &[u8], variable_bytes: &mut &[u8]) -> (r: Result<
        Self,
        DecodeError,
    >) {
        let lens: Vec<usize> = Vec::new();
        if F::all_static() {
            let len: usize = remaining(fixed_bytes);
            let header: usize = match F::header_len() {
                Some(n) => n,
                None => {
                    return Err(DecodeError::InvalidByteLength { len, expected: usize::MAX });
                },
            };
            if len < header {
                return Err(DecodeError::InvalidByteLength { len, expected: header });
            }
            let front: &[u8] = *fixed_bytes;
            let mut none: &[u8] = vstd::slice::slice_subrange(front, 0, 0);
            assert(none@ =~= Seq::<u8>::empty());
            assert(lens@ =~= Seq::<usize>::empty());
            match F::read_fields(fixed_bytes, &mut none, lens.as_slice()) {
                Ok(fields) => Ok(Container { fields }),
                Err(e) => Err(e),
            }
        } else {
            // the whole container lies in the variable bytes
            let whole: &[u8] = *variable_bytes;
            let total: usize = whole.len();
            let header: usize = match F::header_len() {
                Some(n) => n,
                None => {
                    return Err(
                        DecodeError::InvalidByteLength { len: whole.len(), expected: usize::MAX },
                    );
                },
            };
            let parts = match container_split(whole, header) {
                Ok(parts) => parts,
                Err(e) => {
                    return Err(e);
                },
            };
            let mut fixed: &[u8] = parts.0;
            let mut variable: &[u8] = parts.1;
            let mut fields: Vec<FieldLayout> = Vec::new();
            F::layouts(&mut fields);
            proof {
                F::lemma_layouts();
                assert(fields@ =~= F::spec_layouts());
            }
            let lens = match container_field_lengths(fixed, fields.as_slice(), variable.len()) {
                Ok(lens) => lens,
                Err(e) => {
                    return Err(e);
                },
            };
            match F::read_fields(&mut fixed, &mut variable, lens.as_slice()) {
                Ok(fields) => Ok(Container { fields }),
                Err(e) => Err(e),
            }
        }
    }
}

impl<A: Default, R: SszFields> SszFields for Skipped<A, R> {
    type V = R::V;

    open spec fn spec_fields_model(&self) -> R::V {
        self.rest.spec_fields_model()
    }

    open spec fn spec_fields_valid(&self) -> bool {
        self.rest.spec_fields_valid()
    }

    open spec fn spec_layouts() -> Seq<FieldLayout> {
        R::spec_layouts()
    }

    open spec fn spec_slots(&self, offset: usize) -> Seq<u8> {
        self.rest.spec_slots(offset)
    }

    open spec fn spec_slots_len(&self) -> nat {
        self.rest.spec_slots_len()
    }

    open spec fn spec_payloads(&self) -> Seq<u8> {
        self.rest.spec_payloads()
    }

    open spec fn spec_fields_max_len() -> usize {
        R::spec_fields_max_len()
    }

    open spec fn spec_read_fields(fixed: Seq<u8>, variable: Seq<u8>, lens: Seq<usize>) -> Result<
        R::V,
        DecodeFault,
    > {
        R::spec_read_fields(fixed, variable, lens)
    }

    open spec fn spec_taken(lens: Seq<usize>) -> nat {
        R::spec_taken(lens)
    }

    proof fn lemma_slots_len(&self, offset: usize) {
        self.rest.lemma_slots_len(offset);
    }

    proof fn lemma_slots(&self) {
        self.rest.lemma_slots();
    }

    proof fn lemma_static_payloads(&self) {
        self.rest.lemma_static_payloads();
    }

    proof fn lemma_layouts() {
        R::lemma_layouts();
    }

    fn all_static() -> bool {
        R::all_static()
    }

    fn header_len() -> Option<usize> {
        R::header_len()
    }

    fn fields_max_len() -> usize {
        R::fields_max_len()
    }

    fn layouts(out: &mut Vec<FieldLayout>) {
        R::layouts(out);
    }

    fn payloads_len(&self) -> usize {
        self.rest.payloads_len()
    }

    fn write_slots(&self, offset: &mut usize, buf: &mut Vec<u8>) {
        self.rest.write_slots(offset, buf);
    }

    fn write_payloads(&self, buf: &mut Vec<u8>) {
        self.rest.write_payloads(buf);
    }

    fn read_fields(fixed_bytes: &mut &[u8], variable_bytes: &mut &[u8], lens: &[usize]) -> (r:
        Result<Self, DecodeError>) {
        match R::read_fields(fixed_bytes, variable_bytes, lens) {
            Ok(rest) => Ok(Skipped { first: A::default(), rest }),
            Err(e) => Err(e),
        }
    }
}

/// The offsets in a header are the offset in the first slot, where the
/// first field is dynamic, and the offsets in the header behind that slot.
pub proof fn lemma_slot_offsets_cons(header: Seq<u8>, first: FieldLayout, rest: Seq<FieldLayout>)
    requires
        spec_header_len(seq![first] + rest) <= header.len(),
        forall|i: int| 0 <= i < rest.len() && !(#[trigger] rest[i]).is_static ==> rest[i].fixed_len
            == BYTES_PER_LENGTH_OFFSET,
    ensures
        spec_slot_offsets(header, seq![first] + rest) == (if first.is_static {
            Seq::<usize>::empty()
        } else {
            seq![vstd::bytes::spec_u32_from_le_bytes(header.subrange(0, 4)) as usize]
        }) + spec_slot_offsets(header.skip(first.fixed_len as int), rest),
    decreases rest.len(),
{
    let all = seq![first] + rest;
    let head = if first.is_static {
        Seq::<usize>::empty()
    } else {
        seq![vstd::bytes::spec_u32_from_le_bytes(header.subrange(0, 4)) as usize]
    };
    let behind = header.skip(first.fixed_len as int);
    lemma_header_len_cons(first, rest);
    if rest.len() == 0 {
        assert(all.drop_last() =~= Seq::<FieldLayout>::empty());
        assert(spec_header_len(all.drop_last()) == 0);
        assert(spec_slot_offsets(header, all.drop_last()) =~= Seq::<usize>::empty());
        assert(spec_slot_offsets(behind, rest) =~= Seq::<usize>::empty());
        assert(spec_slot_offsets(header, all) =~= head + spec_slot_offsets(behind, rest));
    } else {
        let front = rest.drop_last();
        assert(all.drop_last() =~= seq![first] + front);
        assert(all.last() == rest.last());
        lemma_header_len_cons(first, front);
        lemma_header_len_prefix(rest, rest.len() - 1);
        assert(rest.take(rest.len() - 1) =~= front);
        assert forall|i: int| 0 <= i < front.len() && !(#[trigger] front[i]).is_static implies front[i].fixed_len
            == BYTES_PER_LENGTH_OFFSET by {
            assert(front[i] == rest[i]);
        }
        lemma_slot_offsets_cons(header, first, front);
        if !rest.last().is_static {
            let at = spec_header_len(front) as int;
            assert(rest[rest.len() - 1].fixed_len == BYTES_PER_LENGTH_OFFSET);
            assert(behind.subrange(at, at + 4) =~= header.subrange(
                first.fixed_len + at,
                first.fixed_len + at + 4,
            ));
        }
        assert(spec_slot_offsets(header, all) =~= head + spec_slot_offsets(behind, rest));
    }
}

/// Where every offset and the length behind it add up to the next offset,
/// and the last to the total, the windows give exactly those lengths.
pub proof fn lemma_window_lengths_chain(
    offsets: Seq<usize>,
    total: usize,
    lens: Seq<usize>,
    count: int,
)
    requires
        offsets.len() == lens.len(),
        0 <= count <= offsets.len(),
        forall|i: int|
            0 <= i < offsets.len() ==> spec_offset_or_end(offsets, total, i + 1) == (
            #[trigger] offsets[i]) + lens[i],
    ensures
        spec_window_lengths(offsets, total, count) == Ok::<Seq<usize>, DecodeFault>(
            lens.take(count),
        ),
    decreases count,
{
    if count == 0 {
        assert(lens.take(0) =~= Seq::<usize>::empty());
    } else {
        lemma_window_lengths_chain(offsets, total, lens, count - 1);
        let start = offsets[count - 1];
        assert(spec_offset_or_end(offsets, total, count) == start + lens[count - 1]);
        assert(lens.take(count) =~= lens.take(count - 1).push(lens[count - 1]));
    }
}

/// A chain of fields whose values come back from their own bytes.
pub trait SszFieldsRoundTrip: SszFields {
    /// Whether every field type is one whose values all come back.
    spec fn spec_fields_supported() -> bool;

    /// The offsets that the slots hold, where the first payload starts at
    /// `offset`.
    spec fn spec_written_offsets(&self, offset: usize) -> Seq<usize>;

    /// The lengths of the payloads, in field order.
    spec fn spec_payload_lens(&self) -> Seq<usize>;

    /// The slots hold the written offsets; every written offset and the
    /// payload behind it add up to the next offset, the last to the end of
    /// the payloads; and reading the slots and payloads back with those
    /// payload lengths gives the fields, whatever follows them.
    proof fn lemma_fields_round_trip(
        &self,
        offset: usize,
        more_fixed: Seq<u8>,
        more_variable: Seq<u8>,
        more_lens: Seq<usize>,
    )
        requires
            Self::spec_fields_supported(),
            self.spec_fields_valid(),
            self.spec_slots_len() + self.spec_payloads().len() <= u32::MAX,
            offset + self.spec_payloads().len() <= u32::MAX,
        ensures
            spec_slot_offsets(self.spec_slots(offset) + more_fixed, Self::spec_layouts())
                == self.spec_written_offsets(offset),
            self.spec_written_offsets(offset).len() == self.spec_payload_lens().len(),
            self.spec_written_offsets(offset).len() > 0 ==> self.spec_written_offsets(offset)[0]
                == offset,
            forall|i: int|
                0 <= i < self.spec_written_offsets(offset).len() ==> spec_offset_or_end(
                    self.spec_written_offsets(offset),
                    (offset + self.spec_payloads().len()) as usize,
                    i + 1,
                ) == (#[trigger] self.spec_written_offsets(offset)[i]) + self.spec_payload_lens()[i],
            spec_all_static(Self::spec_layouts()) ==> self.spec_payload_lens().len() == 0,
            self.spec_written_offsets(offset).len() == 0 ==> self.spec_payloads().len() == 0,
            Self::spec_read_fields(
                self.spec_slots(offset) + more_fixed,
                self.spec_payloads() + more_variable,
                self.spec_payload_lens() + more_lens,
            ) == Ok::<Self::V, DecodeFault>(self.spec_fields_model()),
    ;
}

impl SszFieldsRoundTrip for NoFields {
    open spec fn spec_fields_supported() -> bool {
        true
    }

    open spec fn spec_written_offsets(&self, offset: usize) -> Seq<usize> {
        Seq::empty()
    }

    open spec fn spec_payload_lens(&self) -> Seq<usize> {
        Seq::empty()
    }

    proof fn lemma_fields_round_trip(
        &self,
        offset: usize,
        more_fixed: Seq<u8>,
        more_variable: Seq<u8>,
        more_lens: Seq<usize>,
    ) {
        assert(spec_slot_offsets(self.spec_slots(offset) + more_fixed, Self::spec_layouts())
            =~= Seq::<usize>::empty());
    }
}

impl<A: SszRoundTrip, R: SszFieldsRoundTrip> SszFieldsRoundTrip for Fields<A, R> {
    open spec fn spec_fields_supported() -> bool {
        A::spec_supported() && R::spec_fields_supported()
    }

    open spec fn spec_written_offsets(&self, offset: usize) -> Seq<usize> {
        (if A::spec_is_static() {
            Seq::<usize>::empty()
        } else {
            seq![offset]
        }) + self.rest.spec_written_offsets(spec_next_offset(&self.first, offset))
    }

    open spec fn spec_payload_lens(&self) -> Seq<usize> {
        (if A::spec_is_static() {
            Seq::<usize>::empty()
        } else {
            seq![self.first.spec_ssz().len() as usize]
        }) + self.rest.spec_payload_lens()
    }

    proof fn lemma_fields_round_trip(
        &self,
        offset: usize,
        more_fixed: Seq<u8>,
        more_variable: Seq<u8>,
        more_lens: Seq<usize>,
    ) {
        let a = &self.first;
        let next = spec_next_offset(a, offset);
        let empty = Seq::<u8>::empty();
        let header = self.spec_slots(offset) + more_fixed;
        let behind = self.rest.spec_slots(next) + more_fixed;
        let end = (offset + self.spec_payloads().len()) as usize;
        A::lemma_dynamic_slot();
        R::lemma_layouts();
        self.lemma_slots_len(offset);
        self.rest.lemma_slots_len(next);
        self.lemma_slots();
        self.rest.lemma_slots();
        lemma_header_len_cons(spec_layout::<A>(), R::spec_layouts());
        if A::spec_is_static() {
            a.lemma_fixed_len();
        }
        lemma_offset_round_trip(offset);
        assert(header.skip(A::spec_fixed_len() as int) =~= behind);
        self.rest.lemma_fields_round_trip(
            next,
            more_fixed,
            more_variable,
            more_lens,
        );
        // the offsets in the header
        lemma_slot_offsets_cons(header, spec_layout::<A>(), R::spec_layouts());
        if !A::spec_is_static() {
            assert(header.subrange(0, 4) =~= spec_offset_bytes(offset));
        }
        let written = self.spec_written_offsets(offset);
        let lens = self.spec_payload_lens();
        let rest_written = self.rest.spec_written_offsets(next);
        let rest_lens = self.rest.spec_payload_lens();
        assert(spec_slot_offsets(header, Self::spec_layouts()) =~= written);
        // the chain of offsets and lengths
        assert(end == next + self.rest.spec_payloads().len());
        assert forall|i: int| 0 <= i < written.len() implies spec_offset_or_end(
            written,
            end,
            i + 1,
        ) == (#[trigger] written[i]) + lens[i] by {
            if A::spec_is_static() {
                assert(written =~= rest_written);
                assert(lens =~= rest_lens);
                assert(written[i] == rest_written[i]);
            } else if i == 0 {
                if rest_written.len() > 0 {
                    assert(written[1] == rest_written[0]);
                }
            } else {
                assert(written[i] == rest_written[i - 1]);
                assert(lens[i] == rest_lens[i - 1]);
                if i + 1 < written.len() {
                    assert(written[i + 1] == rest_written[i]);
                }
                assert(spec_offset_or_end(rest_written, end, i) == rest_written[i - 1]
                    + rest_lens[i - 1]);
            }
        }
        if spec_all_static(Self::spec_layouts()) {
            let all = Self::spec_layouts();
            let tail = R::spec_layouts();
            assert(all[0].is_static);
            assert forall|i: int| 0 <= i < tail.len() implies (#[trigger] tail[i]).is_static by {
                assert(all[i + 1] == tail[i]);
            }
        }
        // reading back
        let fixed = header;
        let variable = self.spec_payloads() + more_variable;
        let all_lens = lens + more_lens;
        if A::spec_is_static() {
            assert(fixed =~= a.spec_ssz() + behind);
            a.lemma_round_trip(behind);
            assert(variable =~= self.rest.spec_payloads() + more_variable);
            assert(all_lens =~= rest_lens + more_lens);
        } else {
            let len = a.spec_ssz().len() as usize;
            assert(all_lens[0] == len);
            assert(variable.subrange(0, len as int) =~= a.spec_ssz());
            a.lemma_round_trip(empty);
            assert(a.spec_ssz() + empty =~= a.spec_ssz());
            assert(variable.skip(len as int) =~= self.rest.spec_payloads() + more_variable);
            assert(all_lens.skip(1) =~= rest_lens + more_lens);
        }
    }
}

impl<A: Default, R: SszFieldsRoundTrip> SszFieldsRoundTrip for Skipped<A, R> {
    open spec fn spec_fields_supported() -> bool {
        R::spec_fields_supported()
    }

    open spec fn spec_written_offsets(&self, offset: usize) -> Seq<usize> {
        self.rest.spec_written_offsets(offset)
    }

    open spec fn spec_payload_lens(&self) -> Seq<usize> {
        self.rest.spec_payload_lens()
    }

    proof fn lemma_fields_round_trip(
        &self,
        offset: usize,
        more_fixed: Seq<u8>,
        more_variable: Seq<u8>,
        more_lens: Seq<usize>,
    ) {
        self.rest.lemma_fields_round_trip(offset, more_fixed, more_variable, more_lens);
    }
}

impl<F: SszFieldsRoundTrip> SszRoundTrip for Container<F> {
    open spec fn spec_supported() -> bool {
        F::spec_fields_supported()
    }

    proof fn lemma_round_trip(&self, rest: Seq<u8>) {
        let fields = &self.fields;
        let layouts = F::spec_layouts();
        let header = spec_bounded(spec_header_len(layouts));
        let none8 = Seq::<u8>::empty();
        let none = Seq::<usize>::empty();
        fields.lemma_slots_len(header);
        fields.lemma_slots();
        let bytes = self.spec_ssz() + rest;
        if spec_all_static(layouts) {
            fields.lemma_static_payloads();
            fields.lemma_fields_round_trip(header, rest, none8, none);
            assert(bytes =~= fields.spec_slots(header) + rest);
            assert(fields.spec_payloads() + none8 =~= none8);
            assert(fields.spec_payload_lens() + none =~= none);
        } else {
            let total = bytes.len() as usize;
            let fixed = bytes.subrange(0, header as int);
            let variable = bytes.subrange(header as int, bytes.len() as int);
            fields.lemma_fields_round_trip(header, none8, none8, none);
            assert(fixed =~= fields.spec_slots(header) + none8);
            assert(variable =~= fields.spec_payloads() + none8);
            let written = fields.spec_written_offsets(header);
            let lens = fields.spec_payload_lens();
            lemma_window_lengths_chain(written, total, lens, written.len() as int);
            assert(lens.take(written.len() as int) =~= lens);
            assert(lens + none =~= lens);
        }
    }
}

} // verus!
