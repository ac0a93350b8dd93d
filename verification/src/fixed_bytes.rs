//! The codecs of the fixed-size byte strings and wide numbers of
//! `alloy_primitives` and `ethereum_types`. Each is static and serialises to
//! its bytes as they stand; a number's bytes are little-endian.
//!
//! These types are opaque here. What each holds has a name, and the two
//! calls that turn a value into bytes and back are stated over that name.

use crate::buf::{advance, chunk, put_slice, remaining};
use crate::decode::SszDecode;
use crate::encode::{SszEncode, SszLayout};
use crate::error::{DecodeError, DecodeFault};
use crate::laws::SszRoundTrip;
use crate::primitives::spec_short;
use vstd::prelude::*;
use vstd::slice::slice_subrange;

verus! {

/// `alloy_primitives::Address`, a string of 20 bytes. Nothing of its inside is
/// visible here.
#[verifier::external_type_specification]
#[verifier::external_body]
pub struct ExAddress(alloy_primitives::Address);

/// `alloy_primitives::Bloom`, a string of 256 bytes. Nothing of its inside is
/// visible here.
#[verifier::external_type_specification]
#[verifier::external_body]
pub struct ExBloom(alloy_primitives::Bloom);

/// `alloy_primitives::Uint`, an unsigned number of `BITS` bits, of which the
/// codec knows `U128` and `U256`. Nothing of its inside is visible here.
#[verifier::external_type_specification]
#[verifier::external_body]
pub struct ExUint<const BITS: usize, const LIMBS: usize>(alloy_primitives::Uint<BITS, LIMBS>);

/// `ethereum_types::H32`, a string of 4 bytes. Nothing of its inside is
/// visible here.
#[verifier::external_type_specification]
#[verifier::external_body]
pub struct ExH32(ethereum_types::H32);

/// `ethereum_types::H160`, a string of 20 bytes. Nothing of its inside is
/// visible here.
#[verifier::external_type_specification]
#[verifier::external_body]
pub struct ExH160(ethereum_types::H160);

/// `ethereum_types::H256`, a string of 32 bytes. Nothing of its inside is
/// visible here.
#[verifier::external_type_specification]
#[verifier::external_body]
pub struct ExH256(ethereum_types::H256);

/// The bytes that an address holds.
pub uninterp spec fn spec_address_bytes(v: alloy_primitives::Address) -> Seq<u8>;

/// `alloy_primitives::Address::as_slice`: the 20 bytes of the value, in order.
#[verifier::external_body]
fn address_as_bytes(v: &alloy_primitives::Address) -> (r: &[u8])
    ensures
        r@ == spec_address_bytes(*v),
        r@.len() == 20,
{
    v.as_slice()
}

/// `alloy_primitives::Address::from_slice`: the value that holds the 20 bytes given. The call panics on
/// another number of bytes, so that number is required.
#[verifier::external_body]
fn address_from_bytes(bytes: &[u8]) -> (r: alloy_primitives::Address)
    requires
        bytes@.len() == 20,
    ensures
        spec_address_bytes(r) == bytes@,
{
    alloy_primitives::Address::from_slice(bytes)
}

/// The bytes of the value. From the result a caller also learns that the
/// value is well-formed, which the writing methods ask for.
pub fn address_bytes(v: &alloy_primitives::Address) -> (r: &[u8])
    ensures
        r@ == spec_address_bytes(*v),
        v.spec_valid(),
{
    address_as_bytes(v)
}

impl SszLayout for alloy_primitives::Address {
    type V = Seq<u8>;

    open spec fn spec_model(&self) -> Seq<u8> {
        spec_address_bytes(*self)
    }

    open spec fn spec_valid(&self) -> bool {
        spec_address_bytes(*self).len() == 20
    }

    open spec fn spec_is_static() -> bool {
        true
    }

    open spec fn spec_fixed_len() -> usize {
        20
    }

    proof fn lemma_dynamic_slot() {
    }

    open spec fn spec_max_len() -> usize {
        20
    }
}

impl SszEncode for alloy_primitives::Address {
    open spec fn spec_ssz(&self) -> Seq<u8> {
        spec_address_bytes(*self)
    }

    proof fn lemma_fixed_len(&self) {
    }

    proof fn lemma_max_len(&self) {
    }

    fn is_ssz_static() -> bool {
        true
    }

    fn ssz_fixed_len() -> usize {
        20
    }

    fn ssz_max_len() -> usize {
        20
    }

    fn ssz_bytes_len(&self) -> usize {
        20
    }

    fn ssz_write_fixed(&self, offset: &mut usize, buf: &mut Vec<u8>) {
        self.ssz_write(buf);
    }

    fn ssz_write_variable(&self, buf: &mut Vec<u8>) {
    }

    fn ssz_write(&self, buf: &mut Vec<u8>) {
        put_slice(buf, address_as_bytes(self));
    }
}

impl SszDecode for alloy_primitives::Address {
    open spec fn spec_decode(bytes: Seq<u8>) -> Result<Seq<u8>, DecodeFault> {
        if bytes.len() < 20 {
            Err(spec_short(bytes, 20))
        } else {
            Ok(bytes.subrange(0, 20))
        }
    }

    fn is_ssz_static() -> bool {
        true
    }

    fn ssz_fixed_len() -> usize {
        20
    }

    fn ssz_max_len() -> usize {
        20
    }

    fn ssz_read(fixed_bytes: &mut &[u8], variable_bytes: &mut &[u8]) -> (r: Result<
        Self,
        DecodeError,
    >)
        ensures
            r is Err ==> final(fixed_bytes)@ == old(fixed_bytes)@,
    {
        let len: usize = remaining(fixed_bytes);
        let expected: usize = 20;

        if len < expected {
            Err(DecodeError::InvalidByteLength { len, expected })
        } else {
            let value = address_from_bytes(slice_subrange(chunk(fixed_bytes), 0, 20));
            advance(fixed_bytes, 20);
            Ok(value)
        }
    }
}

impl SszRoundTrip for alloy_primitives::Address {
    open spec fn spec_supported() -> bool {
        true
    }

    proof fn lemma_round_trip(&self, rest: Seq<u8>) {
        assert((self.spec_ssz() + rest).subrange(0, 20) =~= self.spec_ssz());
    }
}

/// The bytes that a bloom filter holds.
pub uninterp spec fn spec_bloom_bytes(v: alloy_primitives::Bloom) -> Seq<u8>;

/// `alloy_primitives::Bloom::as_slice`: the 256 bytes of the value, in order.
#[verifier::external_body]
fn bloom_as_bytes(v: &alloy_primitives::Bloom) -> (r: &[u8])
    ensures
        r@ == spec_bloom_bytes(*v),
        r@.len() == 256,
{
    v.as_slice()
}

/// `alloy_primitives::Bloom::from_slice`: the value that holds the 256 bytes given. The call panics on
/// another number of bytes, so that number is required.
#[verifier::external_body]
fn bloom_from_bytes(bytes: &[u8]) -> (r: alloy_primitives::Bloom)
    requires
        bytes@.len() == 256,
    ensures
        spec_bloom_bytes(r) == bytes@,
{
    alloy_primitives::Bloom::from_slice(bytes)
}

/// The bytes of the value. From the result a caller also learns that the
/// value is well-formed, which the writing methods ask for.
pub fn bloom_bytes(v: &alloy_primitives::Bloom) -> (r: &[u8])
    ensures
        r@ == spec_bloom_bytes(*v),
        v.spec_valid(),
{
    bloom_as_bytes(v)
}

impl SszLayout for alloy_primitives::Bloom {
    type V = Seq<u8>;

    open spec fn spec_model(&self) -> Seq<u8> {
        spec_bloom_bytes(*self)
    }

    open spec fn spec_valid(&self) -> bool {
        spec_bloom_bytes(*self).len() == 256
    }

    open spec fn spec_is_static() -> bool {
        true
    }

    open spec fn spec_fixed_len() -> usize {
        256
    }

    proof fn lemma_dynamic_slot() {
    }

    open spec fn spec_max_len() -> usize {
        256
    }
}

impl SszEncode for alloy_primitives::Bloom {
    open spec fn spec_ssz(&self) -> Seq<u8> {
        spec_bloom_bytes(*self)
    }

    proof fn lemma_fixed_len(&self) {
    }

    proof fn lemma_max_len(&self) {
    }

    fn is_ssz_static() -> bool {
        true
    }

    fn ssz_fixed_len() -> usize {
        256
    }

    fn ssz_max_len() -> usize {
        256
    }

    fn ssz_bytes_len(&self) -> usize {
        256
    }

    fn ssz_write_fixed(&self, offset: &mut usize, buf: &mut Vec<u8>) {
        self.ssz_write(buf);
    }

    fn ssz_write_variable(&self, buf: &mut Vec<u8>) {
    }

    fn ssz_write(&self, buf: &mut Vec<u8>) {
        put_slice(buf, bloom_as_bytes(self));
    }
}

impl SszDecode for alloy_primitives::Bloom {
    open spec fn spec_decode(bytes: Seq<u8>) -> Result<Seq<u8>, DecodeFault> {
        if bytes.len() < 256 {
            Err(spec_short(bytes, 256))
        } else {
            Ok(bytes.subrange(0, 256))
        }
    }

    fn is_ssz_static() -> bool {
        true
    }

    fn ssz_fixed_len() -> usize {
        256
    }

    fn ssz_max_len() -> usize {
        256
    }

    fn ssz_read(fixed_bytes: &mut &[u8], variable_bytes: &mut &[u8]) -> (r: Result<
        Self,
        DecodeError,
    >)
        ensures
            r is Err ==> final(fixed_bytes)@ == old(fixed_bytes)@,
    {
        let len: usize = remaining(fixed_bytes);
        let expected: usize = 256;

        if len < expected {
            Err(DecodeError::InvalidByteLength { len, expected })
        } else {
            let value = bloom_from_bytes(slice_subrange(chunk(fixed_bytes), 0, 256));
            advance(fixed_bytes, 256);
            Ok(value)
        }
    }
}

impl SszRoundTrip for alloy_primitives::Bloom {
    open spec fn spec_supported() -> bool {
        true
    }

    proof fn lemma_round_trip(&self, rest: Seq<u8>) {
        assert((self.spec_ssz() + rest).subrange(0, 256) =~= self.spec_ssz());
    }
}

/// The bytes that a 256-bit number holds, least significant first.
pub uninterp spec fn spec_u256_bytes(v: alloy_primitives::U256) -> Seq<u8>;

/// `alloy_primitives::U256::as_le_slice`: the 32 bytes of the value, in order.
#[verifier::external_body]
fn u256_as_bytes(v: &alloy_primitives::U256) -> (r: &[u8])
    ensures
        r@ == spec_u256_bytes(*v),
        r@.len() == 32,
{
    v.as_le_slice()
}

/// `alloy_primitives::U256::from_le_slice`: the value that holds the 32 bytes given. The call panics on
/// another number of bytes, so that number is required.
#[verifier::external_body]
fn u256_from_bytes(bytes: &[u8]) -> (r: alloy_primitives::U256)
    requires
        bytes@.len() == 32,
    ensures
        spec_u256_bytes(r) == bytes@,
{
    alloy_primitives::U256::from_le_slice(bytes)
}

/// The bytes of the value. From the result a caller also learns that the
/// value is well-formed, which the writing methods ask for.
pub fn u256_bytes(v: &alloy_primitives::U256) -> (r: &[u8])
    ensures
        r@ == spec_u256_bytes(*v),
        v.spec_valid(),
{
    u256_as_bytes(v)
}

impl SszLayout for alloy_primitives::U256 {
    type V = Seq<u8>;

    open spec fn spec_model(&self) -> Seq<u8> {
        spec_u256_bytes(*self)
    }

    open spec fn spec_valid(&self) -> bool {
        spec_u256_bytes(*self).len() == 32
    }

    open spec fn spec_is_static() -> bool {
        true
    }

    open spec fn spec_fixed_len() -> usize {
        32
    }

    proof fn lemma_dynamic_slot() {
    }

    open spec fn spec_max_len() -> usize {
        32
    }
}

impl SszEncode for alloy_primitives::U256 {
    open spec fn spec_ssz(&self) -> Seq<u8> {
        spec_u256_bytes(*self)
    }

    proof fn lemma_fixed_len(&self) {
    }

    proof fn lemma_max_len(&self) {
    }

    fn is_ssz_static() -> bool {
        true
    }

    fn ssz_fixed_len() -> usize {
        32
    }

    fn ssz_max_len() -> usize {
        32
    }

    fn ssz_bytes_len(&self) -> usize {
        32
    }

    fn ssz_write_fixed(&self, offset: &mut usize, buf: &mut Vec<u8>) {
        self.ssz_write(buf);
    }

    fn ssz_write_variable(&self, buf: &mut Vec<u8>) {
    }

    fn ssz_write(&self, buf: &mut Vec<u8>) {
        put_slice(buf, u256_as_bytes(self));
    }
}

impl SszDecode for alloy_primitives::U256 {
    open spec fn spec_decode(bytes: Seq<u8>) -> Result<Seq<u8>, DecodeFault> {
        if bytes.len() < 32 {
            Err(spec_short(bytes, 32))
        } else {
            Ok(bytes.subrange(0, 32))
        }
    }

    fn is_ssz_static() -> bool {
        true
    }

    fn ssz_fixed_len() -> usize {
        32
    }

    fn ssz_max_len() -> usize {
        32
    }

    fn ssz_read(fixed_bytes: &mut &[u8], variable_bytes: &mut &[u8]) -> (r: Result<
        Self,
        DecodeError,
    >)
        ensures
            r is Err ==> final(fixed_bytes)@ == old(fixed_bytes)@,
    {
        let len: usize = remaining(fixed_bytes);
        let expected: usize = 32;

        if len < expected {
            Err(DecodeError::InvalidByteLength { len, expected })
        } else {
            let value = u256_from_bytes(slice_subrange(chunk(fixed_bytes), 0, 32));
            advance(fixed_bytes, 32);
            Ok(value)
        }
    }
}

impl SszRoundTrip for alloy_primitives::U256 {
    open spec fn spec_supported() -> bool {
        true
    }

    proof fn lemma_round_trip(&self, rest: Seq<u8>) {
        assert((self.spec_ssz() + rest).subrange(0, 32) =~= self.spec_ssz());
    }
}

/// The bytes that a 128-bit number holds, least significant first.
pub uninterp spec fn spec_big_u128_bytes(v: alloy_primitives::U128) -> Seq<u8>;

/// `alloy_primitives::U128::as_le_slice`: the 16 bytes of the value, in order.
#[verifier::external_body]
fn big_u128_as_bytes(v: &alloy_primitives::U128) -> (r: &[u8])
    ensures
        r@ == spec_big_u128_bytes(*v),
        r@.len() == 16,
{
    v.as_le_slice()
}

/// `alloy_primitives::U128::from_le_slice`: the value that holds the 16 bytes given. The call panics on
/// another number of bytes, so that number is required.
#[verifier::external_body]
fn big_u128_from_bytes(bytes: &[u8]) -> (r: alloy_primitives::U128)
    requires
        bytes@.len() == 16,
    ensures
        spec_big_u128_bytes(r) == bytes@,
{
    alloy_primitives::U128::from_le_slice(bytes)
}

/// The bytes of the value. From the result a caller also learns that the
/// value is well-formed, which the writing methods ask for.
pub fn big_u128_bytes(v: &alloy_primitives::U128) -> (r: &[u8])
    ensures
        r@ == spec_big_u128_bytes(*v),
        v.spec_valid(),
{
    big_u128_as_bytes(v)
}

impl SszLayout for alloy_primitives::U128 {
    type V = Seq<u8>;

    open spec fn spec_model(&self) -> Seq<u8> {
        spec_big_u128_bytes(*self)
    }

    open spec fn spec_valid(&self) -> bool {
        spec_big_u128_bytes(*self).len() == 16
    }

    open spec fn spec_is_static() -> bool {
        true
    }

    open spec fn spec_fixed_len() -> usize {
        16
    }

    proof fn lemma_dynamic_slot() {
    }

    open spec fn spec_max_len() -> usize {
        16
    }
}

impl SszEncode for alloy_primitives::U128 {
    open spec fn spec_ssz(&self) -> Seq<u8> {
        spec_big_u128_bytes(*self)
    }

    proof fn lemma_fixed_len(&self) {
    }

    proof fn lemma_max_len(&self) {
    }

    fn is_ssz_static() -> bool {
        true
    }

    fn ssz_fixed_len() -> usize {
        16
    }

    fn ssz_max_len() -> usize {
        16
    }

    fn ssz_bytes_len(&self) -> usize {
        16
    }

    fn ssz_write_fixed(&self, offset: &mut usize, buf: &mut Vec<u8>) {
        self.ssz_write(buf);
    }

    fn ssz_write_variable(&self, buf: &mut Vec<u8>) {
    }

    fn ssz_write(&self, buf: &mut Vec<u8>) {
        put_slice(buf, big_u128_as_bytes(self));
    }
}

impl SszDecode for alloy_primitives::U128 {
    open spec fn spec_decode(bytes: Seq<u8>) -> Result<Seq<u8>, DecodeFault> {
        if bytes.len() < 16 {
            Err(spec_short(bytes, 16))
        } else {
            Ok(bytes.subrange(0, 16))
        }
    }

    fn is_ssz_static() -> bool {
        true
    }

    fn ssz_fixed_len() -> usize {
        16
    }

    fn ssz_max_len() -> usize {
        16
    }

    fn ssz_read(fixed_bytes: &mut &[u8], variable_bytes: &mut &[u8]) -> (r: Result<
        Self,
        DecodeError,
    >)
        ensures
            r is Err ==> final(fixed_bytes)@ == old(fixed_bytes)@,
    {
        let len: usize = remaining(fixed_bytes);
        let expected: usize = 16;

        if len < expected {
            Err(DecodeError::InvalidByteLength { len, expected })
        } else {
            let value = big_u128_from_bytes(slice_subrange(chunk(fixed_bytes), 0, 16));
            advance(fixed_bytes, 16);
            Ok(value)
        }
    }
}

impl SszRoundTrip for alloy_primitives::U128 {
    open spec fn spec_supported() -> bool {
        true
    }

    proof fn lemma_round_trip(&self, rest: Seq<u8>) {
        assert((self.spec_ssz() + rest).subrange(0, 16) =~= self.spec_ssz());
    }
}

/// The bytes that a 4-byte hash holds.
pub uninterp spec fn spec_h32_bytes(v: ethereum_types::H32) -> Seq<u8>;

/// `ethereum_types::H32::as_bytes`: the 4 bytes of the value, in order.
#[verifier::external_body]
fn h32_as_bytes(v: &ethereum_types::H32) -> (r: &[u8])
    ensures
        r@ == spec_h32_bytes(*v),
        r@.len() == 4,
{
    v.as_bytes()
}

/// `ethereum_types::H32::from_slice`: the value that holds the 4 bytes given. The call panics on
/// another number of bytes, so that number is required.
#[verifier::external_body]
fn h32_from_bytes(bytes: &[u8]) -> (r: ethereum_types::H32)
    requires
        bytes@.len() == 4,
    ensures
        spec_h32_bytes(r) == bytes@,
{
    ethereum_types::H32::from_slice(bytes)
}

/// The bytes of the value. From the result a caller also learns that the
/// value is well-formed, which the writing methods ask for.
pub fn h32_bytes(v: &ethereum_types::H32) -> (r: &[u8])
    ensures
        r@ == spec_h32_bytes(*v),
        v.spec_valid(),
{
    h32_as_bytes(v)
}

impl SszLayout for ethereum_types::H32 {
    type V = Seq<u8>;

    open spec fn spec_model(&self) -> Seq<u8> {
        spec_h32_bytes(*self)
    }

    open spec fn spec_valid(&self) -> bool {
        spec_h32_bytes(*self).len() == 4
    }

    open spec fn spec_is_static() -> bool {
        true
    }

    open spec fn spec_fixed_len() -> usize {
        4
    }

    proof fn lemma_dynamic_slot() {
    }

    open spec fn spec_max_len() -> usize {
        4
    }
}

impl SszEncode for ethereum_types::H32 {
    open spec fn spec_ssz(&self) -> Seq<u8> {
        spec_h32_bytes(*self)
    }

    proof fn lemma_fixed_len(&self) {
    }

    proof fn lemma_max_len(&self) {
    }

    fn is_ssz_static() -> bool {
        true
    }

    fn ssz_fixed_len() -> usize {
        4
    }

    fn ssz_max_len() -> usize {
        4
    }

    fn ssz_bytes_len(&self) -> usize {
        4
    }

    fn ssz_write_fixed(&self, offset: &mut usize, buf: &mut Vec<u8>) {
        self.ssz_write(buf);
    }

    fn ssz_write_variable(&self, buf: &mut Vec<u8>) {
    }

    fn ssz_write(&self, buf: &mut Vec<u8>) {
        put_slice(buf, h32_as_bytes(self));
    }
}

impl SszDecode for ethereum_types::H32 {
    open spec fn spec_decode(bytes: Seq<u8>) -> Result<Seq<u8>, DecodeFault> {
        if bytes.len() < 4 {
            Err(spec_short(bytes, 4))
        } else {
            Ok(bytes.subrange(0, 4))
        }
    }

    fn is_ssz_static() -> bool {
        true
    }

    fn ssz_fixed_len() -> usize {
        4
    }

    fn ssz_max_len() -> usize {
        4
    }

    fn ssz_read(fixed_bytes: &mut &[u8], variable_bytes: &mut &[u8]) -> (r: Result<
        Self,
        DecodeError,
    >)
        ensures
            r is Err ==> final(fixed_bytes)@ == old(fixed_bytes)@,
    {
        let len: usize = remaining(fixed_bytes);
        let expected: usize = 4;

        if len < expected {
            Err(DecodeError::InvalidByteLength { len, expected })
        } else {
            let value = h32_from_bytes(slice_subrange(chunk(fixed_bytes), 0, 4));
            advance(fixed_bytes, 4);
            Ok(value)
        }
    }
}

impl SszRoundTrip for ethereum_types::H32 {
    open spec fn spec_supported() -> bool {
        true
    }

    proof fn lemma_round_trip(&self, rest: Seq<u8>) {
        assert((self.spec_ssz() + rest).subrange(0, 4) =~= self.spec_ssz());
    }
}

/// The bytes that a 20-byte hash holds.
pub uninterp spec fn spec_h160_bytes(v: ethereum_types::H160) -> Seq<u8>;

/// `ethereum_types::H160::as_bytes`: the 20 bytes of the value, in order.
#[verifier::external_body]
fn h160_as_bytes(v: &ethereum_types::H160) -> (r: &[u8])
    ensures
        r@ == spec_h160_bytes(*v),
        r@.len() == 20,
{
    v.as_bytes()
}

/// `ethereum_types::H160::from_slice`: the value that holds the 20 bytes given. The call panics on
/// another number of bytes, so that number is required.
#[verifier::external_body]
fn h160_from_bytes(bytes: &[u8]) -> (r: ethereum_types::H160)
    requires
        bytes@.len() == 20,
    ensures
        spec_h160_bytes(r) == bytes@,
{
    ethereum_types::H160::from_slice(bytes)
}

/// The bytes of the value. From the result a caller also learns that the
/// value is well-formed, which the writing methods ask for.
pub fn h160_bytes(v: &ethereum_types::H160) -> (r: &[u8])
    ensures
        r@ == spec_h160_bytes(*v),
        v.spec_valid(),
{
    h160_as_bytes(v)
}

impl SszLayout for ethereum_types::H160 {
    type V = Seq<u8>;

    open spec fn spec_model(&self) -> Seq<u8> {
        spec_h160_bytes(*self)
    }

    open spec fn spec_valid(&self) -> bool {
        spec_h160_bytes(*self).len() == 20
    }

    open spec fn spec_is_static() -> bool {
        true
    }

    open spec fn spec_fixed_len() -> usize {
        20
    }

    proof fn lemma_dynamic_slot() {
    }

    open spec fn spec_max_len() -> usize {
        20
    }
}

impl SszEncode for ethereum_types::H160 {
    open spec fn spec_ssz(&self) -> Seq<u8> {
        spec_h160_bytes(*self)
    }

    proof fn lemma_fixed_len(&self) {
    }

    proof fn lemma_max_len(&self) {
    }

    fn is_ssz_static() -> bool {
        true
    }

    fn ssz_fixed_len() -> usize {
        20
    }

    fn ssz_max_len() -> usize {
        20
    }

    fn ssz_bytes_len(&self) -> usize {
        20
    }

    fn ssz_write_fixed(&self, offset: &mut usize, buf: &mut Vec<u8>) {
        self.ssz_write(buf);
    }

    fn ssz_write_variable(&self, buf: &mut Vec<u8>) {
    }

    fn ssz_write(&self, buf: &mut Vec<u8>) {
        put_slice(buf, h160_as_bytes(self));
    }
}

impl SszDecode for ethereum_types::H160 {
    open spec fn spec_decode(bytes: Seq<u8>) -> Result<Seq<u8>, DecodeFault> {
        if bytes.len() < 20 {
            Err(spec_short(bytes, 20))
        } else {
            Ok(bytes.subrange(0, 20))
        }
    }

    fn is_ssz_static() -> bool {
        true
    }

    fn ssz_fixed_len() -> usize {
        20
    }

    fn ssz_max_len() -> usize {
        20
    }

    fn ssz_read(fixed_bytes: &mut &[u8], variable_bytes: &mut &[u8]) -> (r: Result<
        Self,
        DecodeError,
    >)
        ensures
            r is Err ==> final(fixed_bytes)@ == old(fixed_bytes)@,
    {
        let len: usize = remaining(fixed_bytes);
        let expected: usize = 20;

        if len < expected {
            Err(DecodeError::InvalidByteLength { len, expected })
        } else {
            let value = h160_from_bytes(slice_subrange(chunk(fixed_bytes), 0, 20));
            advance(fixed_bytes, 20);
            Ok(value)
        }
    }
}

impl SszRoundTrip for ethereum_types::H160 {
    open spec fn spec_supported() -> bool {
        true
    }

    proof fn lemma_round_trip(&self, rest: Seq<u8>) {
        assert((self.spec_ssz() + rest).subrange(0, 20) =~= self.spec_ssz());
    }
}

/// The bytes that a 32-byte hash holds.
pub uninterp spec fn spec_h256_bytes(v: ethereum_types::H256) -> Seq<u8>;

/// `ethereum_types::H256::as_bytes`: the 32 bytes of the value, in order.
#[verifier::external_body]
fn h256_as_bytes(v: &ethereum_types::H256) -> (r: &[u8])
    ensures
        r@ == spec_h256_bytes(*v),
        r@.len() == 32,
{
    v.as_bytes()
}

/// `ethereum_types::H256::from_slice`: the value that holds the 32 bytes given. The call panics on
/// another number of bytes, so that number is required.
#[verifier::external_body]
pub(crate) fn h256_from_bytes(bytes: &[u8]) -> (r: ethereum_types::H256)
    requires
        bytes@.len() == 32,
    ensures
        spec_h256_bytes(r) == bytes@,
{
    ethereum_types::H256::from_slice(bytes)
}

/// The bytes of the value. From the result a caller also learns that the
/// value is well-formed, which the writing methods ask for.
pub fn h256_bytes(v: &ethereum_types::H256) -> (r: &[u8])
    ensures
        r@ == spec_h256_bytes(*v),
        v.spec_valid(),
{
    h256_as_bytes(v)
}

impl SszLayout for ethereum_types::H256 {
    type V = Seq<u8>;

    open spec fn spec_model(&self) -> Seq<u8> {
        spec_h256_bytes(*self)
    }

    open spec fn spec_valid(&self) -> bool {
        spec_h256_bytes(*self).len() == 32
    }

    open spec fn spec_is_static() -> bool {
        true
    }

    open spec fn spec_fixed_len() -> usize {
        32
    }

    proof fn lemma_dynamic_slot() {
    }

    open spec fn spec_max_len() -> usize {
        32
    }
}

impl SszEncode for ethereum_types::H256 {
    open spec fn spec_ssz(&self) -> Seq<u8> {
        spec_h256_bytes(*self)
    }

    proof fn lemma_fixed_len(&self) {
    }

    proof fn lemma_max_len(&self) {
    }

    fn is_ssz_static() -> bool {
        true
    }

    fn ssz_fixed_len() -> usize {
        32
    }

    fn ssz_max_len() -> usize {
        32
    }

    fn ssz_bytes_len(&self) -> usize {
        32
    }

    fn ssz_write_fixed(&self, offset: &mut usize, buf: &mut Vec<u8>) {
        self.ssz_write(buf);
    }

    fn ssz_write_variable(&self, buf: &mut Vec<u8>) {
    }

    fn ssz_write(&self, buf: &mut Vec<u8>) {
        put_slice(buf, h256_as_bytes(self));
    }
}

impl SszDecode for ethereum_types::H256 {
    open spec fn spec_decode(bytes: Seq<u8>) -> Result<Seq<u8>, DecodeFault> {
        if bytes.len() < 32 {
            Err(spec_short(bytes, 32))
        } else {
            Ok(bytes.subrange(0, 32))
        }
    }

    fn is_ssz_static() -> bool {
        true
    }

    fn ssz_fixed_len() -> usize {
        32
    }

    fn ssz_max_len() -> usize {
        32
    }

    fn ssz_read(fixed_bytes: &mut &[u8], variable_bytes: &mut &[u8]) -> (r: Result<
        Self,
        DecodeError,
    >)
        ensures
            r is Err ==> final(fixed_bytes)@ == old(fixed_bytes)@,
    {
        let len: usize = remaining(fixed_bytes);
        let expected: usize = 32;

        if len < expected {
            Err(DecodeError::InvalidByteLength { len, expected })
        } else {
            let value = h256_from_bytes(slice_subrange(chunk(fixed_bytes), 0, 32));
            advance(fixed_bytes, 32);
            Ok(value)
        }
    }
}

impl SszRoundTrip for ethereum_types::H256 {
    open spec fn spec_supported() -> bool {
        true
    }

    proof fn lemma_round_trip(&self, rest: Seq<u8>) {
        assert((self.spec_ssz() + rest).subrange(0, 32) =~= self.spec_ssz());
    }
}

} // verus!
