//! The vector: exactly `N` items of one type. A vector is static where its
//! item type is, and dynamic otherwise.

use crate::buf::{advance, chunk};
use crate::decode::SszDecode;
use crate::encode::{SszEncode, SszLayout};
use crate::error::{collect_message, vector_message, DecodeError, DecodeFault};
use crate::offset::{
    read_offset_from_slice, sanitize_offset, spec_offset_at, spec_sanitize_offset, write_offset,
    BYTES_PER_LENGTH_OFFSET,
};
use crate::sequence::{
    lemma_sequence_max_len,
    bounded_product, items_bytes_len, lemma_concat_static_len, read_static_items,
    read_window_items, sequence_max_len, spec_all_valid, spec_bounded_product,
    spec_decode_chunks, spec_decode_items, spec_deep, spec_sequence, spec_sequence_max_len,
    write_items, TryFromIter,
};
use vstd::prelude::*;
use vstd::slice::slice_subrange;

verus! {

/// A sequence of exactly `N` items.
#[derive(Clone, Debug, PartialEq)]
pub struct FixedVector<T, const N: usize> {
    items: Vec<T>,
}

impl<T, const N: usize> View for FixedVector<T, N> {
    type V = Seq<T>;

    closed spec fn view(&self) -> Seq<T> {
        self.items@
    }
}

impl<T, const N: usize> FixedVector<T, N> {
    /// Wraps `vec` where it has exactly `N` items.
    pub fn new(vec: Vec<T>) -> (r: Result<Self, DecodeError>)
        ensures
            vec@.len() == N ==> (r matches Ok(l) && l@ == vec@),
            vec@.len() != N ==> (r matches Err(e) && e@ == DecodeFault::BytesInvalid),
    {
        if vec.len() == N {
            Ok(Self { items: vec })
        } else {
            Err(DecodeError::BytesInvalid(collect_message(vec.len(), N)))
        }
    }

    /// The number of items in the vector.
    pub fn len(&self) -> (r: usize)
        ensures
            r == self@.len(),
    {
        self.items.len()
    }

    /// Whether the vector has no items.
    pub fn is_empty(&self) -> (r: bool)
        ensures
            r == (self@.len() == 0),
    {
        self.items.len() == 0
    }

    /// The number of items every vector of this type holds.
    pub fn capacity() -> (r: usize)
        ensures
            r == N,
    {
        N
    }

    /// The items, in order.
    pub fn as_slice(&self) -> (r: &[T])
        ensures
            r@ == self@,
    {
        self.items.as_slice()
    }

    /// Gives up the vector for its items.
    pub fn into_vec(self) -> (r: Vec<T>)
        ensures
            r@ == self@,
    {
        self.items
    }
}

impl<T, const N: usize> TryFromIter<T> for FixedVector<T, N> {
    open spec fn spec_accepts(count: nat) -> bool {
        count == N
    }

    open spec fn spec_items(&self) -> Seq<T> {
        self@
    }

    fn try_from_iter(items: Vec<T>) -> (r: Result<Self, DecodeError>) {
        let r = Self::new(items);
        assert(Self::spec_accepts(items@.len()) == (items@.len() == N));
        assert(r matches Ok(l) ==> l.spec_items() == l@);
        r
    }
}

/// What `bytes` denote as a vector of exactly `count` items.
///
/// A vector of no items is denoted by any bytes. Items of a static type are
/// read from the front of `bytes`, which must hold all of them. Items of a
/// dynamic type are preceded by one offset each, the first of which must
/// point right behind the offsets.
pub open spec fn spec_decode_vector<T: SszDecode>(bytes: Seq<u8>, count: usize) -> Result<
    Seq<T::V>,
    DecodeFault,
> {
    if count == 0 {
        Ok(Seq::empty())
    } else if T::spec_is_static() {
        let width = T::spec_fixed_len();
        if width == 0 {
            Err(DecodeFault::ZeroLengthItem)
        } else if bytes.len() < count * width {
            Err(DecodeFault::BytesInvalid)
        } else {
            spec_decode_chunks::<T>(bytes, width as int, count as int)
        }
    } else {
        if bytes.len() == 0 {
            Err(DecodeFault::BytesInvalid)
        } else if bytes.len() < 4 * count {
            Err(
                DecodeFault::InvalidByteLength {
                    len: bytes.len() as usize,
                    expected: spec_bounded_product(BYTES_PER_LENGTH_OFFSET, count),
                },
            )
        } else {
            match spec_sanitize_offset(
                spec_offset_at(bytes),
                None,
                bytes.len() as usize,
                Some((4 * count) as usize),
            ) {
                Err(f) => Err(f),
                Ok(_) => spec_decode_items::<T>(
                    bytes.subrange(0, 4 * count),
                    bytes.subrange(4 * count, bytes.len() as int),
                ),
            }
        }
    }
}

impl<T: SszLayout, const N: usize> SszLayout for FixedVector<T, N> {
    type V = Seq<T::V>;

    open spec fn spec_model(&self) -> Seq<T::V> {
        spec_deep(self@)
    }

    open spec fn spec_valid(&self) -> bool {
        self@.len() == N && spec_all_valid(self@)
    }

    open spec fn spec_is_static() -> bool {
        T::spec_is_static()
    }

    open spec fn spec_fixed_len() -> usize {
        if T::spec_is_static() {
            spec_bounded_product(T::spec_fixed_len(), N)
        } else {
            BYTES_PER_LENGTH_OFFSET
        }
    }

    proof fn lemma_dynamic_slot() {
    }

    open spec fn spec_max_len() -> usize {
        spec_sequence_max_len::<T>(N)
    }
}

impl<T: SszEncode, const N: usize> SszEncode for FixedVector<T, N> {
    open spec fn spec_ssz(&self) -> Seq<u8> {
        spec_sequence(self@)
    }

    proof fn lemma_fixed_len(&self) {
        if T::spec_is_static() {
            lemma_concat_static_len(self@);
        }
    }

    proof fn lemma_max_len(&self) {
        lemma_sequence_max_len::<T>(self@, N);
    }

    fn is_ssz_static() -> bool {
        T::is_ssz_static()
    }

    fn ssz_fixed_len() -> usize {
        if T::is_ssz_static() {
            bounded_product(T::ssz_fixed_len(), N)
        } else {
            BYTES_PER_LENGTH_OFFSET
        }
    }

    fn ssz_max_len() -> usize {
        sequence_max_len(T::is_ssz_static(), T::ssz_fixed_len(), T::ssz_max_len(), N)
    }

    fn ssz_bytes_len(&self) -> usize {
        items_bytes_len(self.items.as_slice())
    }

    fn ssz_write_fixed(&self, offset: &mut usize, buf: &mut Vec<u8>) {
        if T::is_ssz_static() {
            self.ssz_write(buf);
        } else {
            write_offset(*offset, buf);
            *offset += self.ssz_bytes_len();
        }
    }

    fn ssz_write_variable(&self, buf: &mut Vec<u8>) {
        if !T::is_ssz_static() {
            self.ssz_write(buf);
        }
    }

    fn ssz_write(&self, buf: &mut Vec<u8>) {
        write_items(self.items.as_slice(), buf);
    }
}

impl<T: SszDecode, const N: usize> SszDecode for FixedVector<T, N> {
    open spec fn spec_decode(bytes: Seq<u8>) -> Result<Seq<T::V>, DecodeFault> {
        spec_decode_vector::<T>(bytes, N)
    }

    fn is_ssz_static() -> bool {
        T::is_ssz_static()
    }

    fn ssz_fixed_len() -> usize {
        if T::is_ssz_static() {
            bounded_product(T::ssz_fixed_len(), N)
        } else {
            BYTES_PER_LENGTH_OFFSET
        }
    }

    fn ssz_max_len() -> usize {
        sequence_max_len(T::is_ssz_static(), T::ssz_fixed_len(), T::ssz_max_len(), N)
    }

    fn ssz_read(fixed_bytes: &mut &[u8], variable_bytes: &mut &[u8]) -> (r: Result<
        Self,
        DecodeError,
    >) {
        if T::is_ssz_static() {
            // the items lie at the front of the fixed bytes
            let res = match read_vector_items::<T>(chunk(fixed_bytes), N) {
                Ok(out) => Ok(Self { items: out }),
                Err(e) => {
                    return Err(e);
                },
            };
            advance(fixed_bytes, bounded_product(T::ssz_fixed_len(), N));
            res
        } else {
            // the items lie in the variable bytes, behind one offset each
            match read_vector_items::<T>(chunk(variable_bytes), N) {
                Ok(out) => Ok(Self { items: out }),
                Err(e) => Err(e),
            }
        }
    }
}

/// Decodes the items of a vector of exactly `len` items. Items of a static
/// type are read from the front of `bytes`; items of a dynamic type take all
/// of `bytes`.
pub fn read_vector_items<T: SszDecode>(bytes: &[u8], len: usize) -> (r: Result<Vec<T>, DecodeError>)
    ensures
        match spec_decode_vector::<T>(bytes@, len) {
            Ok(vals) => r matches Ok(out) && spec_deep(out@) == vals && spec_all_valid(out@)
                && out@.len() == len,
            Err(f) => r matches Err(e) && e@ == f,
        },
        r is Ok && T::spec_is_static() ==> T::spec_fixed_len() * len <= bytes@.len(),
{
    if len == 0 {
        let out: Vec<T> = Vec::new();
        assert(spec_deep(out@) =~= Seq::<T::V>::empty());
        assert(T::spec_fixed_len() * len == 0) by (nonlinear_arith)
            requires
                len == 0,
        ;
        Ok(out)
    } else if T::is_ssz_static() {
        let width: usize = T::ssz_fixed_len();
        if width == 0 {
            return Err(DecodeError::ZeroLengthItem);
        }
        let left: usize = bytes.len();
        let wanted: usize = match len.checked_mul(width) {
            Some(w) => w,
            None => {
                return Err(DecodeError::BytesInvalid(vector_message(left / width, len)));
            },
        };
        if left < wanted {
            return Err(DecodeError::BytesInvalid(vector_message(left / width, len)));
        }
        assert(width * len == len * width) by (nonlinear_arith);
        read_static_items::<T>(bytes, width, len)
    } else {
        if bytes.len() == 0 {
            return Err(DecodeError::BytesInvalid(vector_message(0, len)));
        }
        let header: usize = match len.checked_mul(BYTES_PER_LENGTH_OFFSET) {
            Some(h) => h,
            None => {
                return Err(
                    DecodeError::InvalidByteLength { len: bytes.len(), expected: usize::MAX },
                );
            },
        };
        if bytes.len() < header {
            return Err(DecodeError::InvalidByteLength { len: bytes.len(), expected: header });
        }
        let first_offset: usize = match read_offset_from_slice(bytes) {
            Ok(off) => off,
            Err(e) => {
                return Err(e);
            },
        };
        match sanitize_offset(first_offset, None, bytes.len(), Some(header)) {
            Ok(_) => {},
            Err(e) => {
                return Err(e);
            },
        }
        let mut var_items = slice_subrange(bytes, header, bytes.len());
        read_window_items::<T>(slice_subrange(bytes, 0, header), &mut var_items)
    }
}

} // verus!
