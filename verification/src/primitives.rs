//! The codecs of the scalar types: unsigned integers, booleans and byte
//! arrays. All of them are static.

use crate::buf::{
    advance, chunk, get_u8, put_slice, put_u128_le, put_u16_le, put_u32_le, put_u64_le, put_u8,
    remaining,
};
use crate::decode::SszDecode;
use crate::encode::{SszEncode, SszLayout};
use crate::error::{bool_message, DecodeError, DecodeFault};
use vstd::bytes::{
    spec_u128_from_le_bytes, spec_u128_to_le_bytes, spec_u16_from_le_bytes, spec_u16_to_le_bytes,
    spec_u32_from_le_bytes, spec_u32_to_le_bytes, spec_u64_from_le_bytes, spec_u64_to_le_bytes,
    u128_from_le_bytes, u16_from_le_bytes, u32_from_le_bytes, u64_from_le_bytes,
};
use vstd::prelude::*;
use vstd::slice::slice_subrange;

verus! {

/// What a fixed-width read of `width` bytes answers on too short an input.
pub open spec fn spec_short(bytes: Seq<u8>, width: usize) -> DecodeFault {
    DecodeFault::InvalidByteLength { len: bytes.len() as usize, expected: width }
}

impl SszLayout for u8 {
    type V = u8;

    open spec fn spec_model(&self) -> u8 {
        *self
    }

    open spec fn spec_valid(&self) -> bool {
        true
    }

    open spec fn spec_is_static() -> bool {
        true
    }

    open spec fn spec_fixed_len() -> usize {
        1
    }

    proof fn lemma_dynamic_slot() {
    }

    open spec fn spec_max_len() -> usize {
        1
    }
}

impl SszEncode for u8 {
    open spec fn spec_ssz(&self) -> Seq<u8> {
        seq![*self]
    }

    proof fn lemma_fixed_len(&self) {
    }

    proof fn lemma_max_len(&self) {
    }

    fn is_ssz_static() -> bool {
        true
    }

    fn ssz_fixed_len() -> usize {
        1
    }

    fn ssz_max_len() -> usize {
        1
    }

    fn ssz_bytes_len(&self) -> usize {
        1
    }

    fn ssz_write_fixed(&self, offset: &mut usize, buf: &mut Vec<u8>) {
        self.ssz_write(buf);
    }

    fn ssz_write_variable(&self, buf: &mut Vec<u8>) {
    }

    fn ssz_write(&self, buf: &mut Vec<u8>) {
        put_u8(buf, *self);
    }
}

impl SszDecode for u8 {
    open spec fn spec_decode(bytes: Seq<u8>) -> Result<u8, DecodeFault> {
        if bytes.len() < 1 {
            Err(spec_short(bytes, 1))
        } else {
            Ok(bytes[0])
        }
    }

    fn is_ssz_static() -> bool {
        true
    }

    fn ssz_fixed_len() -> usize {
        1
    }

    fn ssz_max_len() -> usize {
        1
    }

    fn ssz_read(fixed_bytes: &mut &[u8], variable_bytes: &mut &[u8]) -> (r: Result<
        Self,
        DecodeError,
    >)
        ensures
            r is Err ==> final(fixed_bytes)@ == old(fixed_bytes)@,
    {
        let len: usize = remaining(fixed_bytes);
        let expected: usize = 1;

        if len < expected {
            Err(DecodeError::InvalidByteLength { len, expected })
        } else {
            Ok(get_u8(fixed_bytes))
        }
    }
}

impl SszLayout for u16 {
    type V = u16;

    open spec fn spec_model(&self) -> u16 {
        *self
    }

    open spec fn spec_valid(&self) -> bool {
        true
    }

    open spec fn spec_is_static() -> bool {
        true
    }

    open spec fn spec_fixed_len() -> usize {
        2
    }

    proof fn lemma_dynamic_slot() {
    }

    open spec fn spec_max_len() -> usize {
        2
    }
}

impl SszEncode for u16 {
    open spec fn spec_ssz(&self) -> Seq<u8> {
        spec_u16_to_le_bytes(*self)
    }

    proof fn lemma_fixed_len(&self) {
        vstd::bytes::lemma_auto_spec_u16_to_from_le_bytes();
    }

    proof fn lemma_max_len(&self) {
        vstd::bytes::lemma_auto_spec_u16_to_from_le_bytes();
    }

    fn is_ssz_static() -> bool {
        true
    }

    fn ssz_fixed_len() -> usize {
        2
    }

    fn ssz_max_len() -> usize {
        2
    }

    fn ssz_bytes_len(&self) -> usize {
        proof {
            vstd::bytes::lemma_auto_spec_u16_to_from_le_bytes();
        }
        2
    }

    fn ssz_write_fixed(&self, offset: &mut usize, buf: &mut Vec<u8>) {
        self.ssz_write(buf);
    }

    fn ssz_write_variable(&self, buf: &mut Vec<u8>) {
    }

    fn ssz_write(&self, buf: &mut Vec<u8>) {
        put_u16_le(buf, *self);
    }
}

impl SszDecode for u16 {
    open spec fn spec_decode(bytes: Seq<u8>) -> Result<u16, DecodeFault> {
        if bytes.len() < 2 {
            Err(spec_short(bytes, 2))
        } else {
            Ok(spec_u16_from_le_bytes(bytes.subrange(0, 2)))
        }
    }

    fn is_ssz_static() -> bool {
        true
    }

    fn ssz_fixed_len() -> usize {
        2
    }

    fn ssz_max_len() -> usize {
        2
    }

    fn ssz_read(fixed_bytes: &mut &[u8], variable_bytes: &mut &[u8]) -> (r: Result<
        Self,
        DecodeError,
    >)
        ensures
            r is Err ==> final(fixed_bytes)@ == old(fixed_bytes)@,
    {
        let len: usize = remaining(fixed_bytes);
        let expected: usize = 2;

        if len < expected {
            Err(DecodeError::InvalidByteLength { len, expected })
        } else {
            let number: u16 = u16_from_le_bytes(slice_subrange(chunk(fixed_bytes), 0, 2));
            advance(fixed_bytes, 2);
            Ok(number)
        }
    }
}

impl SszLayout for u32 {
    type V = u32;

    open spec fn spec_model(&self) -> u32 {
        *self
    }

    open spec fn spec_valid(&self) -> bool {
        true
    }

    open spec fn spec_is_static() -> bool {
        true
    }

    open spec fn spec_fixed_len() -> usize {
        4
    }

    proof fn lemma_dynamic_slot() {
    }

    open spec fn spec_max_len() -> usize {
        4
    }
}

impl SszEncode for u32 {
    open spec fn spec_ssz(&self) -> Seq<u8> {
        spec_u32_to_le_bytes(*self)
    }

    proof fn lemma_fixed_len(&self) {
        vstd::bytes::lemma_auto_spec_u32_to_from_le_bytes();
    }

    proof fn lemma_max_len(&self) {
        vstd::bytes::lemma_auto_spec_u32_to_from_le_bytes();
    }

    fn is_ssz_static() -> bool {
        true
    }

    fn ssz_fixed_len() -> usize {
        4
    }

    fn ssz_max_len() -> usize {
        4
    }

    fn ssz_bytes_len(&self) -> usize {
        proof {
            vstd::bytes::lemma_auto_spec_u32_to_from_le_bytes();
        }
        4
    }

    fn ssz_write_fixed(&self, offset: &mut usize, buf: &mut Vec<u8>) {
        self.ssz_write(buf);
    }

    fn ssz_write_variable(&self, buf: &mut Vec<u8>) {
    }

    fn ssz_write(&self, buf: &mut Vec<u8>) {
        put_u32_le(buf, *self);
    }
}

impl SszDecode for u32 {
    open spec fn spec_decode(bytes: Seq<u8>) -> Result<u32, DecodeFault> {
        if bytes.len() < 4 {
            Err(spec_short(bytes, 4))
        } else {
            Ok(spec_u32_from_le_bytes(bytes.subrange(0, 4)))
        }
    }

    fn is_ssz_static() -> bool {
        true
    }

    fn ssz_fixed_len() -> usize {
        4
    }

    fn ssz_max_len() -> usize {
        4
    }

    fn ssz_read(fixed_bytes: &mut &[u8], variable_bytes: &mut &[u8]) -> (r: Result<
        Self,
        DecodeError,
    >)
        ensures
            r is Err ==> final(fixed_bytes)@ == old(fixed_bytes)@,
    {
        let len: usize = remaining(fixed_bytes);
        let expected: usize = 4;

        if len < expected {
            Err(DecodeError::InvalidByteLength { len, expected })
        } else {
            let number: u32 = u32_from_le_bytes(slice_subrange(chunk(fixed_bytes), 0, 4));
            advance(fixed_bytes, 4);
            Ok(number)
        }
    }
}

impl SszLayout for u64 {
    type V = u64;

    open spec fn spec_model(&self) -> u64 {
        *self
    }

    open spec fn spec_valid(&self) -> bool {
        true
    }

    open spec fn spec_is_static() -> bool {
        true
    }

    open spec fn spec_fixed_len() -> usize {
        8
    }

    proof fn lemma_dynamic_slot() {
    }

    open spec fn spec_max_len() -> usize {
        8
    }
}

impl SszEncode for u64 {
    open spec fn spec_ssz(&self) -> Seq<u8> {
        spec_u64_to_le_bytes(*self)
    }

    proof fn lemma_fixed_len(&self) {
        vstd::bytes::lemma_auto_spec_u64_to_from_le_bytes();
    }

    proof fn lemma_max_len(&self) {
        vstd::bytes::lemma_auto_spec_u64_to_from_le_bytes();
    }

    fn is_ssz_static() -> bool {
        true
    }

    fn ssz_fixed_len() -> usize {
        8
    }

    fn ssz_max_len() -> usize {
        8
    }

    fn ssz_bytes_len(&self) -> usize {
        proof {
            vstd::bytes::lemma_auto_spec_u64_to_from_le_bytes();
        }
        8
    }

    fn ssz_write_fixed(&self, offset: &mut usize, buf: &mut Vec<u8>) {
        self.ssz_write(buf);
    }

    fn ssz_write_variable(&self, buf: &mut Vec<u8>) {
    }

    fn ssz_write(&self, buf: &mut Vec<u8>) {
        put_u64_le(buf, *self);
    }
}

impl SszDecode for u64 {
    open spec fn spec_decode(bytes: Seq<u8>) -> Result<u64, DecodeFault> {
        if bytes.len() < 8 {
            Err(spec_short(bytes, 8))
        } else {
            Ok(spec_u64_from_le_bytes(bytes.subrange(0, 8)))
        }
    }

    fn is_ssz_static() -> bool {
        true
    }

    fn ssz_fixed_len() -> usize {
        8
    }

    fn ssz_max_len() -> usize {
        8
    }

    fn ssz_read(fixed_bytes: &mut &[u8], variable_bytes: &mut &[u8]) -> (r: Result<
        Self,
        DecodeError,
    >)
        ensures
            r is Err ==> final(fixed_bytes)@ == old(fixed_bytes)@,
    {
        let len: usize = remaining(fixed_bytes);
        let expected: usize = 8;

        if len < expected {
            Err(DecodeError::InvalidByteLength { len, expected })
        } else {
            let number: u64 = u64_from_le_bytes(slice_subrange(chunk(fixed_bytes), 0, 8));
            advance(fixed_bytes, 8);
            Ok(number)
        }
    }
}

impl SszLayout for u128 {
    type V = u128;

    open spec fn spec_model(&self) -> u128 {
        *self
    }

    open spec fn spec_valid(&self) -> bool {
        true
    }

    open spec fn spec_is_static() -> bool {
        true
    }

    open spec fn spec_fixed_len() -> usize {
        16
    }

    proof fn lemma_dynamic_slot() {
    }

    open spec fn spec_max_len() -> usize {
        16
    }
}

impl SszEncode for u128 {
    open spec fn spec_ssz(&self) -> Seq<u8> {
        spec_u128_to_le_bytes(*self)
    }

    proof fn lemma_fixed_len(&self) {
        vstd::bytes::lemma_auto_spec_u128_to_from_le_bytes();
    }

    proof fn lemma_max_len(&self) {
        vstd::bytes::lemma_auto_spec_u128_to_from_le_bytes();
    }

    fn is_ssz_static() -> bool {
        true
    }

    fn ssz_fixed_len() -> usize {
        16
    }

    fn ssz_max_len() -> usize {
        16
    }

    fn ssz_bytes_len(&self) -> usize {
        proof {
            vstd::bytes::lemma_auto_spec_u128_to_from_le_bytes();
        }
        16
    }

    fn ssz_write_fixed(&self, offset: &mut usize, buf: &mut Vec<u8>) {
        self.ssz_write(buf);
    }

    fn ssz_write_variable(&self, buf: &mut Vec<u8>) {
    }

    fn ssz_write(&self, buf: &mut Vec<u8>) {
        put_u128_le(buf, *self);
    }
}

impl SszDecode for u128 {
    open spec fn spec_decode(bytes: Seq<u8>) -> Result<u128, DecodeFault> {
        if bytes.len() < 16 {
            Err(spec_short(bytes, 16))
        } else {
            Ok(spec_u128_from_le_bytes(bytes.subrange(0, 16)))
        }
    }

    fn is_ssz_static() -> bool {
        true
    }

    fn ssz_fixed_len() -> usize {
        16
    }

    fn ssz_max_len() -> usize {
        16
    }

    fn ssz_read(fixed_bytes: &mut &[u8], variable_bytes: &mut &[u8]) -> (r: Result<
        Self,
        DecodeError,
    >)
        ensures
            r is Err ==> final(fixed_bytes)@ == old(fixed_bytes)@,
    {
        let len: usize = remaining(fixed_bytes);
        let expected: usize = 16;

        if len < expected {
            Err(DecodeError::InvalidByteLength { len, expected })
        } else {
            let number: u128 = u128_from_le_bytes(slice_subrange(chunk(fixed_bytes), 0, 16));
            advance(fixed_bytes, 16);
            Ok(number)
        }
    }
}

impl SszLayout for bool {
    type V = bool;

    open spec fn spec_model(&self) -> bool {
        *self
    }

    open spec fn spec_valid(&self) -> bool {
        true
    }

    open spec fn spec_is_static() -> bool {
        true
    }

    open spec fn spec_fixed_len() -> usize {
        1
    }

    proof fn lemma_dynamic_slot() {
    }

    open spec fn spec_max_len() -> usize {
        1
    }
}

impl SszEncode for bool {
    open spec fn spec_ssz(&self) -> Seq<u8> {
        seq![if *self { 1u8 } else { 0u8 }]
    }

    proof fn lemma_fixed_len(&self) {
    }

    proof fn lemma_max_len(&self) {
    }

    fn is_ssz_static() -> bool {
        true
    }

    fn ssz_fixed_len() -> usize {
        1
    }

    fn ssz_max_len() -> usize {
        1
    }

    fn ssz_bytes_len(&self) -> usize {
        1
    }

    fn ssz_write_fixed(&self, offset: &mut usize, buf: &mut Vec<u8>) {
        self.ssz_write(buf);
    }

    fn ssz_write_variable(&self, buf: &mut Vec<u8>) {
    }

    fn ssz_write(&self, buf: &mut Vec<u8>) {
        let byte: u8 = if *self { 1 } else { 0 };
        let bytes: [u8; 1] = [byte];
        put_slice(buf, bytes.as_slice());
        assert(bytes@ =~= self.spec_ssz());
    }
}

impl SszDecode for bool {
    open spec fn spec_decode(bytes: Seq<u8>) -> Result<bool, DecodeFault> {
        if bytes.len() < 1 {
            Err(spec_short(bytes, 1))
        } else if bytes[0] == 0 {
            Ok(false)
        } else if bytes[0] == 1 {
            Ok(true)
        } else {
            Err(DecodeFault::BytesInvalid)
        }
    }

    fn is_ssz_static() -> bool {
        true
    }

    fn ssz_fixed_len() -> usize {
        1
    }

    fn ssz_max_len() -> usize {
        1
    }

    fn ssz_read(fixed_bytes: &mut &[u8], variable_bytes: &mut &[u8]) -> (r: Result<
        Self,
        DecodeError,
    >)
        ensures
            old(fixed_bytes)@.len() >= 1 ==> final(fixed_bytes)@ == old(fixed_bytes)@.skip(1),
            old(fixed_bytes)@.len() < 1 ==> final(fixed_bytes)@ == old(fixed_bytes)@,
    {
        let len: usize = remaining(fixed_bytes);
        let expected: usize = 1;

        if len < expected {
            Err(DecodeError::InvalidByteLength { len, expected })
        } else {
            let num: u8 = get_u8(fixed_bytes);
            if num == 0 {
                Ok(false)
            } else if num == 1 {
                Ok(true)
            } else {
                Err(DecodeError::BytesInvalid(bool_message(num)))
            }
        }
    }
}

/// `TryFrom<&[u8]>` for a byte array, unwrapped: the array that holds the
/// bytes of the slice. It fails on a slice of another length, so the length
/// is required.
#[verifier::external_body]
fn array_from_slice<const N: usize>(bytes: &[u8]) -> (r: [u8; N])
    requires
        bytes@.len() == N,
    ensures
        r@ == bytes@,
{
    <[u8; N]>::try_from(bytes).unwrap()
}

impl<const N: usize> SszLayout for [u8; N] {
    type V = Seq<u8>;

    open spec fn spec_model(&self) -> Seq<u8> {
        self@
    }

    open spec fn spec_valid(&self) -> bool {
        true
    }

    open spec fn spec_is_static() -> bool {
        true
    }

    open spec fn spec_fixed_len() -> usize {
        N
    }

    proof fn lemma_dynamic_slot() {
    }

    open spec fn spec_max_len() -> usize {
        N
    }
}

impl<const N: usize> SszEncode for [u8; N] {
    open spec fn spec_ssz(&self) -> Seq<u8> {
        self@
    }

    proof fn lemma_fixed_len(&self) {
    }

    proof fn lemma_max_len(&self) {
    }

    fn is_ssz_static() -> bool {
        true
    }

    fn ssz_fixed_len() -> usize {
        N
    }

    fn ssz_max_len() -> usize {
        N
    }

    fn ssz_bytes_len(&self) -> usize {
        N
    }

    fn ssz_write_fixed(&self, offset: &mut usize, buf: &mut Vec<u8>) {
        self.ssz_write(buf);
    }

    fn ssz_write_variable(&self, buf: &mut Vec<u8>) {
    }

    fn ssz_write(&self, buf: &mut Vec<u8>) {
        put_slice(buf, self.as_slice());
    }
}

impl<const N: usize> SszDecode for [u8; N] {
    open spec fn spec_decode(bytes: Seq<u8>) -> Result<Seq<u8>, DecodeFault> {
        if bytes.len() < N {
            Err(spec_short(bytes, N))
        } else {
            Ok(bytes.subrange(0, N as int))
        }
    }

    fn is_ssz_static() -> bool {
        true
    }

    fn ssz_fixed_len() -> usize {
        N
    }

    fn ssz_max_len() -> usize {
        N
    }

    fn ssz_read(fixed_bytes: &mut &[u8], variable_bytes: &mut &[u8]) -> (r: Result<
        Self,
        DecodeError,
    >)
        ensures
            r is Err ==> final(fixed_bytes)@ == old(fixed_bytes)@,
    {
        let len: usize = remaining(fixed_bytes);
        let expected: usize = N;

        if len < expected {
            Err(DecodeError::InvalidByteLength { len, expected })
        } else {
            let bytes: [u8; N] = array_from_slice(slice_subrange(chunk(fixed_bytes), 0, N));
            advance(fixed_bytes, N);
            Ok(bytes)
        }
    }
}

} // verus!
