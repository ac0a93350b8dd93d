//! Bit collections: the bit vector of exactly `N` bits and the bit list of
//! at most `N` bits.
//!
//! Bits are packed eight to a byte, the first bit in the lowest place. A bit
//! list is closed by one more bit, always set, behind its last bit: the
//! highest set bit of the last byte marks where the list ends.

use crate::buf::{advance, chunk, put_u8};
use crate::decode::SszDecode;
use crate::encode::{SszEncode, SszLayout};
use crate::error::{bits_message, DecodeError, DecodeFault};
use crate::laws::SszRoundTrip;
use crate::offset::{write_offset, BYTES_PER_LENGTH_OFFSET};
use crate::sequence::{bounded_sum, spec_bounded_sum};
use vstd::prelude::*;
use vstd::slice::slice_subrange;

verus! {

/// The place value of bit `k` of a byte.
pub open spec fn spec_weight(k: int) -> int {
    if k == 0 {
        1
    } else if k == 1 {
        2
    } else if k == 2 {
        4
    } else if k == 3 {
        8
    } else if k == 4 {
        16
    } else if k == 5 {
        32
    } else if k == 6 {
        64
    } else {
        128
    }
}

/// Bit `i` of a bit sequence as a number; bits behind the end count as
/// unset.
pub open spec fn spec_bit(bits: Seq<bool>, i: int) -> int {
    if 0 <= i < bits.len() && bits[i] {
        1
    } else {
        0
    }
}

/// Byte `j` of the packed form of `bits`.
pub open spec fn spec_packed_byte(bits: Seq<bool>, j: int) -> u8 {
    (spec_bit(bits, 8 * j) + 2 * spec_bit(bits, 8 * j + 1) + 4 * spec_bit(bits, 8 * j + 2) + 8
        * spec_bit(bits, 8 * j + 3) + 16 * spec_bit(bits, 8 * j + 4) + 32 * spec_bit(
        bits,
        8 * j + 5,
    ) + 64 * spec_bit(bits, 8 * j + 6) + 128 * spec_bit(bits, 8 * j + 7)) as u8
}

/// The first `count` bytes of the packed form of `bits`.
pub open spec fn spec_packed(bits: Seq<bool>, count: nat) -> Seq<u8> {
    Seq::new(count, |j: int| spec_packed_byte(bits, j))
}

/// Whether bit `i` is set in packed bytes.
pub open spec fn spec_bit_set(bytes: Seq<u8>, i: int) -> bool {
    (bytes[i / 8] as int / spec_weight(i % 8)) % 2 == 1
}

/// The first `count` bits of packed bytes.
pub open spec fn spec_unpacked(bytes: Seq<u8>, count: nat) -> Seq<bool> {
    Seq::new(count, |i: int| spec_bit_set(bytes, i))
}

/// The number of bytes that hold `n` bits, and at least one.
pub open spec fn spec_bytes_for_bits(n: usize) -> usize {
    if n == 0 {
        1
    } else {
        ((n - 1) / 8 + 1) as usize
    }
}

/// The place of the highest set bit of a byte that is not zero.
pub open spec fn spec_top_bit(byte: u8) -> int {
    if byte >= 128 {
        7
    } else if byte >= 64 {
        6
    } else if byte >= 32 {
        5
    } else if byte >= 16 {
        4
    } else if byte >= 8 {
        3
    } else if byte >= 4 {
        2
    } else if byte >= 2 {
        1
    } else {
        0
    }
}

/// Computes `spec_bytes_for_bits`.
pub fn bytes_for_bits(n: usize) -> (r: usize)
    ensures
        r == spec_bytes_for_bits(n),
{
    if n == 0 {
        1
    } else {
        (n - 1) / 8 + 1
    }
}

/// The place value of bit `k` of a byte.
fn weight(k: usize) -> (r: u8)
    requires
        k < 8,
    ensures
        r == spec_weight(k as int),
{
    if k == 0 {
        1
    } else if k == 1 {
        2
    } else if k == 2 {
        4
    } else if k == 3 {
        8
    } else if k == 4 {
        16
    } else if k == 5 {
        32
    } else if k == 6 {
        64
    } else {
        128
    }
}

/// The bits to pack: `bits` themselves, or `bits` closed by a set bit.
pub open spec fn spec_closed(bits: Seq<bool>, sentinel: bool) -> Seq<bool> {
    if sentinel {
        bits.push(true)
    } else {
        bits
    }
}

/// Bit `base + k` of the bits to pack, as a place value.
fn place(bits: &Vec<bool>, sentinel: bool, base: usize, k: usize) -> (r: u8)
    requires
        k < 8,
    ensures
        r == spec_weight(k as int) * spec_bit(spec_closed(bits@, sentinel), base + k),
{
    let held: usize = bits.len();
    if base > usize::MAX - k {
        return 0;
    }
    let i: usize = base + k;
    let set: bool = if i < bits.len() {
        bits[i]
    } else {
        sentinel && i == bits.len()
    };
    if set {
        weight(k)
    } else {
        0
    }
}

/// Appends the first `count` bytes of the packed form of `bits`, closed by
/// a set bit where `sentinel` is given.
pub fn write_bits(bits: &Vec<bool>, sentinel: bool, count: usize, buf: &mut Vec<u8>)
    requires
        8 * (count - 1) <= usize::MAX,
    ensures
        final(buf)@ == old(buf)@ + spec_packed(spec_closed(bits@, sentinel), count as nat),
{
    let mut j: usize = 0;
    while j < count
        invariant
            0 <= j <= count,
            8 * (count - 1) <= usize::MAX,
            buf@ == old(buf)@ + spec_packed(spec_closed(bits@, sentinel), j as nat),
        decreases count - j,
    {
        let base: usize = 8 * j;
        let byte: u8 = place(bits, sentinel, base, 0) + place(bits, sentinel, base, 1) + place(
            bits,
            sentinel,
            base,
            2,
        ) + place(bits, sentinel, base, 3) + place(bits, sentinel, base, 4) + place(
            bits,
            sentinel,
            base,
            5,
        ) + place(bits, sentinel, base, 6) + place(bits, sentinel, base, 7);
        let ghost before = buf@;
        put_u8(buf, byte);
        proof {
            let all = spec_closed(bits@, sentinel);
            assert(byte == spec_packed_byte(all, j as int));
            assert(before.push(byte) =~= old(buf)@ + spec_packed(all, (j + 1) as nat));
        }
        j += 1;
    }
}

/// Reads the first `count` bits of packed bytes.
pub fn read_bits(bytes: &[u8], count: usize) -> (r: Vec<bool>)
    requires
        count <= 8 * bytes@.len(),
    ensures
        r@ == spec_unpacked(bytes@, count as nat),
{
    let mut bits: Vec<bool> = Vec::new();
    let mut i: usize = 0;
    while i < count
        invariant
            0 <= i <= count,
            count <= 8 * bytes@.len(),
            bits@ =~= spec_unpacked(bytes@, i as nat),
        decreases count - i,
    {
        let byte: u8 = bytes[i / 8];
        let set: bool = (byte / weight(i % 8)) % 2 == 1;
        bits.push(set);
        i += 1;
    }
    bits
}

/// Whether no bit from `from` up to the end of the bytes is set.
pub open spec fn spec_clear_from(bytes: Seq<u8>, from: int) -> bool {
    forall|i: int| from <= i < 8 * bytes.len() ==> !spec_bit_set(bytes, i)
}

/// Checks that no bit from `from` up to the end of the bytes is set.
pub fn clear_from(bytes: &[u8], from: usize) -> (r: bool)
    ensures
        r == spec_clear_from(bytes@, from as int),
{
    let end: u128 = 8 * (bytes.len() as u128);
    let mut i: u128 = from as u128;
    while i < end
        invariant
            from <= i,
            end == 8 * bytes@.len(),
            forall|k: int| from <= k < i ==> !spec_bit_set(bytes@, k),
        decreases end - i,
    {
        let at: usize = (i / 8) as usize;
        let k: usize = (i % 8) as usize;
        let byte: u8 = bytes[at];
        if (byte / weight(k)) % 2 == 1 {
            assert(spec_bit_set(bytes@, i as int));
            return false;
        }
        i += 1;
    }
    true
}

/// The place of the highest set bit of a byte that is not zero.
fn top_bit(byte: u8) -> (r: usize)
    ensures
        r == spec_top_bit(byte),
        r < 8,
{
    if byte >= 128 {
        7
    } else if byte >= 64 {
        6
    } else if byte >= 32 {
        5
    } else if byte >= 16 {
        4
    } else if byte >= 8 {
        3
    } else if byte >= 4 {
        2
    } else if byte >= 2 {
        1
    } else {
        0
    }
}

/// Exactly `N` bits.
#[derive(Clone, Debug, PartialEq)]
pub struct BitVector<const N: usize> {
    bits: Vec<bool>,
}

/// At most `N` bits.
#[derive(Clone, Debug, PartialEq)]
pub struct BitList<const N: usize> {
    bits: Vec<bool>,
}

impl<const N: usize> View for BitVector<N> {
    type V = Seq<bool>;

    closed spec fn view(&self) -> Seq<bool> {
        self.bits@
    }
}

impl<const N: usize> View for BitList<N> {
    type V = Seq<bool>;

    closed spec fn view(&self) -> Seq<bool> {
        self.bits@
    }
}

impl<const N: usize> BitVector<N> {
    /// Wraps `bits` where there are exactly `N` of them.
    pub fn new(bits: Vec<bool>) -> (r: Option<Self>)
        ensures
            bits@.len() == N ==> (r matches Some(v) && v@ == bits@),
            bits@.len() != N ==> r is None,
    {
        if bits.len() == N {
            Some(Self { bits })
        } else {
            None
        }
    }

    /// The number of bits.
    pub fn len(&self) -> (r: usize)
        ensures
            r == self@.len(),
    {
        self.bits.len()
    }

    /// Bit `i`, where there is one.
    pub fn get(&self, i: usize) -> (r: Option<bool>)
        ensures
            i < self@.len() ==> r == Some(self@[i as int]),
            i >= self@.len() ==> r is None,
    {
        if i < self.bits.len() {
            Some(self.bits[i])
        } else {
            None
        }
    }
}

impl<const N: usize> BitList<N> {
    /// A list of `num_bits` unset bits, where `N` allows that many.
    pub fn with_capacity(num_bits: usize) -> (r: Option<Self>)
        ensures
            num_bits <= N ==> (r matches Some(v) && v@ == Seq::new(
                num_bits as nat,
                |i: int| false,
            )),
            num_bits > N ==> r is None,
    {
        if num_bits > N {
            return None;
        }
        let mut bits: Vec<bool> = Vec::new();
        let mut i: usize = 0;
        while i < num_bits
            invariant
                0 <= i <= num_bits,
                bits@ =~= Seq::new(i as nat, |i: int| false),
            decreases num_bits - i,
        {
            bits.push(false);
            i += 1;
        }
        Some(Self { bits })
    }

    /// Sets bit `i` to `value` and answers `true`, or answers `false` where
    /// the list has no bit `i`.
    pub fn set(&mut self, i: usize, value: bool) -> (r: bool)
        ensures
            i < old(self)@.len() ==> r && final(self)@ == old(self)@.update(i as int, value),
            i >= old(self)@.len() ==> !r && final(self)@ == old(self)@,
    {
        if i < self.bits.len() {
            self.bits[i] = value;
            true
        } else {
            false
        }
    }

    /// Wraps `bits` where there are at most `N` of them.
    pub fn new(bits: Vec<bool>) -> (r: Option<Self>)
        ensures
            bits@.len() <= N ==> (r matches Some(v) && v@ == bits@),
            bits@.len() > N ==> r is None,
    {
        if bits.len() <= N {
            Some(Self { bits })
        } else {
            None
        }
    }

    /// The number of bits.
    pub fn len(&self) -> (r: usize)
        ensures
            r == self@.len(),
    {
        self.bits.len()
    }

    /// Bit `i`, where there is one.
    pub fn get(&self, i: usize) -> (r: Option<bool>)
        ensures
            i < self@.len() ==> r == Some(self@[i as int]),
            i >= self@.len() ==> r is None,
    {
        if i < self.bits.len() {
            Some(self.bits[i])
        } else {
            None
        }
    }
}

/// What `bytes` denote as a vector of exactly `n` bits: the vector is read
/// from as many bytes as hold `n` bits, in which no bit behind the `n`-th
/// may be set.
pub open spec fn spec_decode_bit_vector(bytes: Seq<u8>, n: usize) -> Result<
    Seq<bool>,
    DecodeFault,
> {
    let expected = spec_bytes_for_bits(n);
    if bytes.len() < expected {
        Err(DecodeFault::InvalidByteLength { len: bytes.len() as usize, expected })
    } else if !spec_clear_from(bytes.subrange(0, expected as int), n as int) {
        Err(DecodeFault::BytesInvalid)
    } else {
        Ok(spec_unpacked(bytes.subrange(0, expected as int), n as nat))
    }
}

/// What `bytes` denote as a list of at most `n` bits: the highest set bit of
/// the last byte closes the list, and the bits before it are the list.
pub open spec fn spec_decode_bit_list(bytes: Seq<u8>, n: usize) -> Result<Seq<bool>, DecodeFault> {
    if bytes.len() == 0 {
        Err(DecodeFault::BytesInvalid)
    } else if bytes.last() == 0 {
        Err(DecodeFault::BytesInvalid)
    } else if 8 * (bytes.len() - 1) + spec_top_bit(bytes.last()) > n {
        Err(DecodeFault::BytesInvalid)
    } else {
        Ok(spec_unpacked(bytes, (8 * (bytes.len() - 1) + spec_top_bit(bytes.last())) as nat))
    }
}

/// Decodes a vector of exactly `n` bits from the front of `bytes`.
pub fn read_bit_vector(bytes: &[u8], n: usize) -> (r: Result<Vec<bool>, DecodeError>)
    ensures
        match spec_decode_bit_vector(bytes@, n) {
            Ok(bits) => r matches Ok(out) && out@ == bits && out@.len() == n,
            Err(f) => r matches Err(e) && e@ == f,
        },
        r is Ok ==> bytes@.len() >= spec_bytes_for_bits(n),
{
    let len: usize = bytes.len();
    let expected: usize = bytes_for_bits(n);

    if len < expected {
        Err(DecodeError::InvalidByteLength { len, expected })
    } else {
        let front = slice_subrange(bytes, 0, expected);
        if clear_from(front, n) {
            Ok(read_bits(front, n))
        } else {
            Err(DecodeError::BytesInvalid(bits_message("ExcessBits")))
        }
    }
}

/// Decodes a list of at most `n` bits from all of `bytes`.
pub fn read_bit_list(bytes: &[u8], n: usize) -> (r: Result<Vec<bool>, DecodeError>)
    ensures
        match spec_decode_bit_list(bytes@, n) {
            Ok(bits) => r matches Ok(out) && out@ == bits && out@.len() <= n,
            Err(f) => r matches Err(e) && e@ == f,
        },
{
    let len: usize = bytes.len();
    if len == 0 {
        return Err(DecodeError::BytesInvalid(bits_message("MissingLengthInformation")));
    }
    let last: u8 = bytes[len - 1];
    if last == 0 {
        return Err(DecodeError::BytesInvalid(bits_message("MissingLengthInformation")));
    }
    let top: usize = top_bit(last);
    if len - 1 > (usize::MAX - top) / 8 {
        return Err(DecodeError::BytesInvalid(bits_message("OutOfBounds")));
    }
    let bit_len: usize = 8 * (len - 1) + top;
    if bit_len > n {
        return Err(DecodeError::BytesInvalid(bits_message("OutOfBounds")));
    }
    Ok(read_bits(bytes, bit_len))
}

impl<const N: usize> SszLayout for BitVector<N> {
    type V = Seq<bool>;

    open spec fn spec_model(&self) -> Seq<bool> {
        self@
    }

    open spec fn spec_valid(&self) -> bool {
        self@.len() == N
    }

    open spec fn spec_is_static() -> bool {
        true
    }

    open spec fn spec_fixed_len() -> usize {
        spec_bytes_for_bits(N)
    }

    proof fn lemma_dynamic_slot() {
    }

    open spec fn spec_max_len() -> usize {
        spec_bytes_for_bits(N)
    }
}

impl<const N: usize> SszEncode for BitVector<N> {
    open spec fn spec_ssz(&self) -> Seq<u8> {
        spec_packed(self@, spec_bytes_for_bits(N) as nat)
    }

    proof fn lemma_fixed_len(&self) {
    }

    proof fn lemma_max_len(&self) {
    }

    fn is_ssz_static() -> bool {
        true
    }

    fn ssz_fixed_len() -> usize {
        bytes_for_bits(N)
    }

    fn ssz_max_len() -> usize {
        bytes_for_bits(N)
    }

    fn ssz_bytes_len(&self) -> usize {
        bytes_for_bits(N)
    }

    fn ssz_write_fixed(&self, offset: &mut usize, buf: &mut Vec<u8>) {
        self.ssz_write(buf);
    }

    fn ssz_write_variable(&self, buf: &mut Vec<u8>) {
    }

    fn ssz_write(&self, buf: &mut Vec<u8>) {
        write_bits(&self.bits, false, bytes_for_bits(N), buf);
    }
}

impl<const N: usize> SszDecode for BitVector<N> {
    open spec fn spec_decode(bytes: Seq<u8>) -> Result<Seq<bool>, DecodeFault> {
        spec_decode_bit_vector(bytes, N)
    }

    fn is_ssz_static() -> bool {
        true
    }

    fn ssz_fixed_len() -> usize {
        bytes_for_bits(N)
    }

    fn ssz_max_len() -> usize {
        bytes_for_bits(N)
    }

    fn ssz_read(fixed_bytes: &mut &[u8], variable_bytes: &mut &[u8]) -> (r: Result<
        Self,
        DecodeError,
    >) {
        match read_bit_vector(chunk(fixed_bytes), N) {
            Ok(bits) => {
                advance(fixed_bytes, bytes_for_bits(N));
                Ok(Self { bits })
            },
            Err(e) => Err(e),
        }
    }
}

impl<const N: usize> SszLayout for BitList<N> {
    type V = Seq<bool>;

    open spec fn spec_model(&self) -> Seq<bool> {
        self@
    }

    open spec fn spec_valid(&self) -> bool {
        self@.len() <= N
    }

    open spec fn spec_is_static() -> bool {
        false
    }

    open spec fn spec_fixed_len() -> usize {
        BYTES_PER_LENGTH_OFFSET
    }

    proof fn lemma_dynamic_slot() {
    }

    open spec fn spec_max_len() -> usize {
        spec_bounded_sum(BYTES_PER_LENGTH_OFFSET, spec_bytes_for_bits(N))
    }
}

impl<const N: usize> SszEncode for BitList<N> {
    open spec fn spec_ssz(&self) -> Seq<u8> {
        spec_packed(self@.push(true), self@.len() / 8 + 1)
    }

    proof fn lemma_fixed_len(&self) {
    }

    proof fn lemma_max_len(&self) {
    }

    fn is_ssz_static() -> bool {
        false
    }

    fn ssz_fixed_len() -> usize {
        BYTES_PER_LENGTH_OFFSET
    }

    fn ssz_max_len() -> usize {
        bounded_sum(BYTES_PER_LENGTH_OFFSET, bytes_for_bits(N))
    }

    fn ssz_bytes_len(&self) -> usize {
        self.bits.len() / 8 + 1
    }

    fn ssz_write_fixed(&self, offset: &mut usize, buf: &mut Vec<u8>) {
        write_offset(*offset, buf);
        *offset += self.ssz_bytes_len();
    }

    fn ssz_write_variable(&self, buf: &mut Vec<u8>) {
        self.ssz_write(buf);
    }

    fn ssz_write(&self, buf: &mut Vec<u8>) {
        write_bits(&self.bits, true, self.bits.len() / 8 + 1, buf);
    }
}

impl<const N: usize> SszDecode for BitList<N> {
    open spec fn spec_decode(bytes: Seq<u8>) -> Result<Seq<bool>, DecodeFault> {
        spec_decode_bit_list(bytes, N)
    }

    fn is_ssz_static() -> bool {
        false
    }

    fn ssz_fixed_len() -> usize {
        BYTES_PER_LENGTH_OFFSET
    }

    fn ssz_max_len() -> usize {
        bounded_sum(BYTES_PER_LENGTH_OFFSET, bytes_for_bits(N))
    }

    fn ssz_read(fixed_bytes: &mut &[u8], variable_bytes: &mut &[u8]) -> (r: Result<
        Self,
        DecodeError,
    >) {
        match read_bit_list(chunk(variable_bytes), N) {
            Ok(bits) => Ok(Self { bits }),
            Err(e) => Err(e),
        }
    }
}

/// Bit `k` of a packed byte is the bit that was packed into it.
pub proof fn lemma_packed_bit(bits: Seq<bool>, j: int, k: int)
    requires
        0 <= k < 8,
    ensures
        (spec_packed_byte(bits, j) as int / spec_weight(k)) % 2 == spec_bit(bits, 8 * j + k),
{
    let b0 = spec_bit(bits, 8 * j);
    let b1 = spec_bit(bits, 8 * j + 1);
    let b2 = spec_bit(bits, 8 * j + 2);
    let b3 = spec_bit(bits, 8 * j + 3);
    let b4 = spec_bit(bits, 8 * j + 4);
    let b5 = spec_bit(bits, 8 * j + 5);
    let b6 = spec_bit(bits, 8 * j + 6);
    let b7 = spec_bit(bits, 8 * j + 7);
    let sum = b0 + 2 * b1 + 4 * b2 + 8 * b3 + 16 * b4 + 32 * b5 + 64 * b6 + 128 * b7;
    assert(0 <= sum < 256);
    assert(spec_packed_byte(bits, j) as int == sum);
}

/// A packed byte whose bits behind place `k` are unset and whose bit `k` is
/// set has its highest set bit at place `k`.
pub proof fn lemma_packed_top(bits: Seq<bool>, j: int, k: int)
    requires
        0 <= k < 8,
        spec_bit(bits, 8 * j + k) == 1,
        forall|i: int| 8 * j + k < i < 8 * j + 8 ==> #[trigger] spec_bit(bits, i) == 0,
    ensures
        spec_packed_byte(bits, j) != 0,
        spec_top_bit(spec_packed_byte(bits, j)) == k,
{
    let b0 = spec_bit(bits, 8 * j);
    let b1 = spec_bit(bits, 8 * j + 1);
    let b2 = spec_bit(bits, 8 * j + 2);
    let b3 = spec_bit(bits, 8 * j + 3);
    let b4 = spec_bit(bits, 8 * j + 4);
    let b5 = spec_bit(bits, 8 * j + 5);
    let b6 = spec_bit(bits, 8 * j + 6);
    let b7 = spec_bit(bits, 8 * j + 7);
    let sum = b0 + 2 * b1 + 4 * b2 + 8 * b3 + 16 * b4 + 32 * b5 + 64 * b6 + 128 * b7;
    assert(0 <= sum < 256);
    assert(spec_packed_byte(bits, j) as int == sum);
    assert(k < 7 ==> b7 == 0);
    assert(k < 6 ==> b6 == 0);
    assert(k < 5 ==> b5 == 0);
    assert(k < 4 ==> b4 == 0);
    assert(k < 3 ==> b3 == 0);
    assert(k < 2 ==> b2 == 0);
    assert(k < 1 ==> b1 == 0);
}

/// Unpacking what was packed gives the bits back.
pub proof fn lemma_unpack_packed(bits: Seq<bool>, count: nat, kept: nat)
    requires
        kept <= bits.len(),
        kept <= 8 * count,
    ensures
        spec_unpacked(spec_packed(bits, count), kept) == bits.take(kept as int),
{
    let packed = spec_packed(bits, count);
    assert forall|i: int| 0 <= i < kept implies spec_bit_set(packed, i) == bits[i] by {
        lemma_packed_bit(bits, i / 8, i % 8);
        assert(packed[i / 8] == spec_packed_byte(bits, i / 8));
    }
    assert(spec_unpacked(packed, kept) =~= bits.take(kept as int));
}

impl<const N: usize> SszRoundTrip for BitVector<N> {
    open spec fn spec_supported() -> bool {
        true
    }

    proof fn lemma_round_trip(&self, rest: Seq<u8>) {
        let count = spec_bytes_for_bits(N) as nat;
        let packed = spec_packed(self@, count);
        assert((self.spec_ssz() + rest).subrange(0, count as int) =~= packed);
        assert forall|i: int| N <= i < 8 * packed.len() implies !spec_bit_set(packed, i) by {
            lemma_packed_bit(self@, i / 8, i % 8);
            assert(packed[i / 8] == spec_packed_byte(self@, i / 8));
        }
        lemma_unpack_packed(self@, count, N as nat);
        assert(self@.take(N as int) =~= self@);
    }
}

impl<const N: usize> SszRoundTrip for BitList<N> {
    open spec fn spec_supported() -> bool {
        true
    }

    proof fn lemma_round_trip(&self, rest: Seq<u8>) {
        let len = self@.len();
        let closed = self@.push(true);
        let count = len / 8 + 1;
        let packed = spec_packed(closed, count);
        assert(self.spec_ssz() + rest =~= packed);
        assert(packed.last() == spec_packed_byte(closed, (len / 8) as int));
        lemma_packed_top(closed, (len / 8) as int, (len % 8) as int);
        lemma_unpack_packed(closed, count, len);
        assert(closed.take(len as int) =~= self@);
    }
}

} // verus!
