//! What every encodable type offers.

use crate::offset::{spec_offset_bytes, BYTES_PER_LENGTH_OFFSET};
use vstd::prelude::*;

verus! {

/// The facts about a type's serialised shape that hold of the type alone,
/// and which of its values are well-formed.
pub trait SszLayout {
    /// What a value of the type stands for in contracts.
    type V;

    /// The value this one stands for.
    spec fn spec_model(&self) -> Self::V;

    /// Whether this value keeps the bounds its type promises. Constructors
    /// and decoders only hand out such values.
    spec fn spec_valid(&self) -> bool;

    /// Whether every value of the type serialises to the same number of bytes.
    spec fn spec_is_static() -> bool;

    /// The width of the type's slot in a fixed header: the serialised length
    /// for a static type, the width of an offset for a dynamic one.
    spec fn spec_fixed_len() -> usize;

    /// The type's bound for sizing buffers.
    spec fn spec_max_len() -> usize;

    /// The slot of a dynamic type is as wide as an offset.
    proof fn lemma_dynamic_slot()
        ensures
            !Self::spec_is_static() ==> Self::spec_fixed_len() == BYTES_PER_LENGTH_OFFSET,
    ;
}

/// A type with an SSZ serialisation.
///
/// `spec_ssz` is the serialisation itself; every writing method is stated
/// against it. All lengths count bytes.
pub trait SszEncode: Sized + SszLayout {
    /// The bytes this value serialises to.
    spec fn spec_ssz(&self) -> Seq<u8>;

    /// Every well-formed value of a static type serialises to exactly the
    /// type's fixed length.
    proof fn lemma_fixed_len(&self)
        requires
            self.spec_valid(),
            self.spec_ssz().len() <= usize::MAX,
        ensures
            Self::spec_is_static() ==> self.spec_ssz().len() == Self::spec_fixed_len(),
    ;

    /// No well-formed value serialises to more bytes than the type's bound.
    proof fn lemma_max_len(&self)
        requires
            self.spec_valid(),
            self.spec_ssz().len() <= usize::MAX,
        ensures
            self.spec_ssz().len() <= Self::spec_max_len(),
    ;

    fn is_ssz_static() -> (r: bool)
        ensures
            r == Self::spec_is_static(),
    ;

    fn ssz_fixed_len() -> (r: usize)
        ensures
            r == Self::spec_fixed_len(),
    ;

    fn ssz_max_len() -> (r: usize)
        ensures
            r == Self::spec_max_len(),
    ;

    /// The exact serialised length of this value.
    fn ssz_bytes_len(&self) -> (r: usize)
        requires
            self.spec_valid(),
            self.spec_ssz().len() <= usize::MAX,
        ensures
            r == self.spec_ssz().len(),
    ;

    /// Writes this value's part of a fixed header: the value itself for a
    /// static type; for a dynamic type the offset, which then moves on by the
    /// value's length.
    fn ssz_write_fixed(&self, offset: &mut usize, buf: &mut Vec<u8>)
        requires
            self.spec_valid(),
            self.spec_ssz().len() <= usize::MAX,
            !Self::spec_is_static() ==> *old(offset) + self.spec_ssz().len() <= usize::MAX,
        ensures
            Self::spec_is_static() ==> final(buf)@ == old(buf)@ + self.spec_ssz() && *final(offset)
                == *old(offset),
            !Self::spec_is_static() ==> final(buf)@ == old(buf)@ + spec_offset_bytes(*old(offset))
                && *final(offset) == *old(offset) + self.spec_ssz().len(),
    ;

    /// Writes this value's part of a variable tail: nothing for a static
    /// type, the value itself for a dynamic one.
    fn ssz_write_variable(&self, buf: &mut Vec<u8>)
        requires
            self.spec_valid(),
            self.spec_ssz().len() <= usize::MAX,
        ensures
            Self::spec_is_static() ==> final(buf)@ == old(buf)@,
            !Self::spec_is_static() ==> final(buf)@ == old(buf)@ + self.spec_ssz(),
    ;

    /// Appends the standalone serialisation of this value.
    fn ssz_write(&self, buf: &mut Vec<u8>)
        requires
            self.spec_valid(),
            self.spec_ssz().len() <= usize::MAX,
        ensures
            final(buf)@ == old(buf)@ + self.spec_ssz(),
    ;

    /// Serialises into a fresh vector of the right capacity.
    fn to_ssz(&self) -> (r: Vec<u8>)
        requires
            self.spec_valid(),
            self.spec_ssz().len() <= usize::MAX,
        ensures
            r@ == self.spec_ssz(),
    {
        let mut buf: Vec<u8> = Vec::with_capacity(self.ssz_bytes_len());
        self.ssz_write(&mut buf);
        buf
    }

    /// Serialises onto the end of a vector, reserving the room first.
    fn to_ssz_with_vec(&self, buf: &mut Vec<u8>)
        requires
            self.spec_valid(),
            self.spec_ssz().len() <= usize::MAX,
        ensures
            final(buf)@ == old(buf)@ + self.spec_ssz(),
    {
        buf.reserve(self.ssz_bytes_len());
        self.ssz_write(buf);
    }
}

} // verus!
