//! The list: at most `N` items of one type. A list is always dynamic.

use crate::buf::chunk;
use crate::decode::SszDecode;
use crate::encode::{SszEncode, SszLayout};
use crate::error::{collect_message, count_message, DecodeError, DecodeFault};
use crate::offset::{
    read_offset_from_slice, sanitize_offset, spec_read_offset, spec_sanitize_offset,
    write_offset, BYTES_PER_LENGTH_OFFSET,
};
use crate::sequence::{
    lemma_sequence_max_len,
    items_bytes_len, read_static_items, read_window_items, sequence_max_len, spec_all_valid,
    spec_decode_chunks, spec_decode_items, spec_deep, spec_sequence, spec_sequence_max_len,
    write_items, TryFromIter,
};
use vstd::prelude::*;
use vstd::slice::slice_subrange;

verus! {

/// A sequence of at most `N` items.
#[derive(Clone, Debug, PartialEq)]
pub struct VariableList<T, const N: usize> {
    items: Vec<T>,
}

impl<T, const N: usize> View for VariableList<T, N> {
    type V = Seq<T>;

    closed spec fn view(&self) -> Seq<T> {
        self.items@
    }
}

impl<T, const N: usize> VariableList<T, N> {
    /// Wraps `vec` where it has at most `N` items.
    pub fn new(vec: Vec<T>) -> (r: Result<Self, DecodeError>)
        ensures
            vec@.len() <= N ==> (r matches Ok(l) && l@ == vec@),
            vec@.len() > N ==> (r matches Err(e) && e@ == DecodeFault::BytesInvalid),
    {
        if vec.len() <= N {
            Ok(Self { items: vec })
        } else {
            Err(DecodeError::BytesInvalid(collect_message(vec.len(), N)))
        }
    }

    /// The list without items.
    pub fn empty() -> (r: Self)
        ensures
            r@ == Seq::<T>::empty(),
    {
        Self { items: Vec::new() }
    }

    /// The number of items in the list.
    pub fn len(&self) -> (r: usize)
        ensures
            r == self@.len(),
    {
        self.items.len()
    }

    /// Whether the list has no items.
    pub fn is_empty(&self) -> (r: bool)
        ensures
            r == (self@.len() == 0),
    {
        self.items.len() == 0
    }

    /// The largest number of items a list of this type holds.
    pub fn max_len() -> (r: usize)
        ensures
            r == N,
    {
        N
    }

    /// Appends `value` where the list is not full, else leaves it as it is.
    pub fn push(&mut self, value: T) -> (r: Result<(), DecodeError>)
        ensures
            old(self)@.len() < N ==> r is Ok && final(self)@ == old(self)@.push(value),
            old(self)@.len() >= N ==> (r matches Err(e) && e@ == DecodeFault::BytesInvalid)
                && final(self)@ == old(self)@,
    {
        if self.items.len() < N {
            self.items.push(value);
            Ok(())
        } else {
            Err(DecodeError::BytesInvalid(collect_message(self.items.len(), N)))
        }
    }

    /// The items, in order.
    pub fn as_slice(&self) -> (r: &[T])
        ensures
            r@ == self@,
    {
        self.items.as_slice()
    }

    /// Gives up the list for its items.
    pub fn into_vec(self) -> (r: Vec<T>)
        ensures
            r@ == self@,
    {
        self.items
    }
}

impl<T, const N: usize> TryFromIter<T> for VariableList<T, N> {
    open spec fn spec_accepts(count: nat) -> bool {
        count <= N
    }

    open spec fn spec_items(&self) -> Seq<T> {
        self@
    }

    fn try_from_iter(items: Vec<T>) -> (r: Result<Self, DecodeError>) {
        let r = Self::new(items);
        assert(Self::spec_accepts(items@.len()) == (items@.len() <= N));
        assert(r matches Ok(l) ==> l.spec_items() == l@);
        r
    }
}

/// What `bytes` denote as a list of at most `bound` items.
///
/// No bytes denote the empty list. Items of a static type are counted by
/// dividing the length by the item width; bytes left over after the last
/// whole item are ignored. Items of a dynamic type are counted by the first
/// offset, which is also the length of the run of offsets.
pub open spec fn spec_decode_list<T: SszDecode>(bytes: Seq<u8>, bound: usize) -> Result<
    Seq<T::V>,
    DecodeFault,
> {
    if bytes.len() == 0 {
        Ok(Seq::empty())
    } else if T::spec_is_static() {
        let width = T::spec_fixed_len();
        if width == 0 {
            Err(DecodeFault::ZeroLengthItem)
        } else if bytes.len() / (width as nat) > bound {
            Err(DecodeFault::BytesInvalid)
        } else {
            spec_decode_chunks::<T>(bytes, width as int, (bytes.len() / (width as nat)) as int)
        }
    } else {
        match spec_read_offset(bytes) {
            Err(f) => Err(f),
            Ok(first) => match spec_sanitize_offset(
                first,
                None,
                bytes.len() as usize,
                Some(first),
            ) {
                Err(f) => Err(f),
                Ok(_) => if first % 4 != 0 || first < 4 {
                    Err(DecodeFault::InvalidListFixedBytesLen(first))
                } else if first / 4 > bound {
                    Err(DecodeFault::BytesInvalid)
                } else {
                    spec_decode_items::<T>(
                        bytes.subrange(0, first as int),
                        bytes.subrange(first as int, bytes.len() as int),
                    )
                },
            },
        }
    }
}

impl<T: SszLayout, const N: usize> SszLayout for VariableList<T, N> {
    type V = Seq<T::V>;

    open spec fn spec_model(&self) -> Seq<T::V> {
        spec_deep(self@)
    }

    open spec fn spec_valid(&self) -> bool {
        self@.len() <= N && spec_all_valid(self@)
    }

    open spec fn spec_is_static() -> bool {
        false
    }

    open spec fn spec_fixed_len() -> usize {
        BYTES_PER_LENGTH_OFFSET
    }

    proof fn lemma_dynamic_slot() {
    }

    open spec fn spec_max_len() -> usize {
        spec_sequence_max_len::<T>(N)
    }
}

impl<T: SszEncode, const N: usize> SszEncode for VariableList<T, N> {
    open spec fn spec_ssz(&self) -> Seq<u8> {
        spec_sequence(self@)
    }

    proof fn lemma_fixed_len(&self) {
    }

    proof fn lemma_max_len(&self) {
        lemma_sequence_max_len::<T>(self@, N);
    }

    fn is_ssz_static() -> bool {
        false
    }

    fn ssz_fixed_len() -> usize {
        BYTES_PER_LENGTH_OFFSET
    }

    fn ssz_max_len() -> usize {
        sequence_max_len(T::is_ssz_static(), T::ssz_fixed_len(), T::ssz_max_len(), N)
    }

    fn ssz_bytes_len(&self) -> usize {
        items_bytes_len(self.items.as_slice())
    }

    fn ssz_write_fixed(&self, offset: &mut usize, buf: &mut Vec<u8>) {
        write_offset(*offset, buf);
        *offset += self.ssz_bytes_len();
    }

    fn ssz_write_variable(&self, buf: &mut Vec<u8>) {
        self.ssz_write(buf);
    }

    fn ssz_write(&self, buf: &mut Vec<u8>) {
        write_items(self.items.as_slice(), buf);
    }
}

impl<T: SszDecode, const N: usize> SszDecode for VariableList<T, N> {
    open spec fn spec_decode(bytes: Seq<u8>) -> Result<Seq<T::V>, DecodeFault> {
        spec_decode_list::<T>(bytes, N)
    }

    fn is_ssz_static() -> bool {
        false
    }

    fn ssz_fixed_len() -> usize {
        BYTES_PER_LENGTH_OFFSET
    }

    fn ssz_max_len() -> usize {
        sequence_max_len(T::is_ssz_static(), T::ssz_fixed_len(), T::ssz_max_len(), N)
    }

    fn ssz_read(fixed_bytes: &mut &[u8], variable_bytes: &mut &[u8]) -> (r: Result<
        Self,
        DecodeError,
    >) {
        // a list lies in the variable bytes, all of them
        match read_list_items::<T>(chunk(variable_bytes), N) {
            Ok(out) => {
                let list = Self { items: out };
                Ok(list)
            },
            Err(e) => Err(e),
        }
    }
}

/// Decodes the items of a list of at most `max_len` items from all of
/// `bytes`.
pub fn read_list_items<T: SszDecode>(bytes: &[u8], max_len: usize) -> (r: Result<
    Vec<T>,
    DecodeError,
>)
    ensures
        match spec_decode_list::<T>(bytes@, max_len) {
            Ok(vals) => r matches Ok(out) && spec_deep(out@) == vals && spec_all_valid(out@)
                && out@.len() <= max_len,
            Err(f) => r matches Err(e) && e@ == f,
        },
{
    if bytes.len() == 0 {
        let out: Vec<T> = Vec::new();
        assert(spec_deep(out@) =~= Seq::<T::V>::empty());
        Ok(out)
    } else if T::is_ssz_static() {
        let width: usize = T::ssz_fixed_len();
        if width == 0 {
            return Err(DecodeError::ZeroLengthItem);
        }
        let num_items: usize = bytes.len() / width;

        if num_items > max_len {
            return Err(DecodeError::BytesInvalid(count_message("List", num_items, max_len)));
        }
        proof {
            let len = bytes@.len();
            assert((len / (width as nat)) * width <= len) by (nonlinear_arith)
                requires
                    width > 0,
            ;
        }
        read_static_items::<T>(bytes, width, num_items)
    } else {
        let first_offset: usize = match read_offset_from_slice(bytes) {
            Ok(off) => off,
            Err(e) => {
                return Err(e);
            },
        };
        match sanitize_offset(first_offset, None, bytes.len(), Some(first_offset)) {
            Ok(_) => {},
            Err(e) => {
                return Err(e);
            },
        }
        if first_offset % BYTES_PER_LENGTH_OFFSET != 0 || first_offset < BYTES_PER_LENGTH_OFFSET {
            return Err(DecodeError::InvalidListFixedBytesLen(first_offset));
        }
        // the first offset is also the length of the run of offsets
        let num_items: usize = first_offset / BYTES_PER_LENGTH_OFFSET;

        if num_items > max_len {
            return Err(
                DecodeError::BytesInvalid(
                    count_message("Variable length list", num_items, max_len),
                ),
            );
        }
        let mut var_items = slice_subrange(bytes, first_offset, bytes.len());
        read_window_items::<T>(slice_subrange(bytes, 0, first_offset), &mut var_items)
    }
}

} // verus!
