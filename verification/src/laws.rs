//! What holds of the codecs taken together.

use crate::container::{
    lemma_windows_monotone, spec_all_static, spec_field_lengths, spec_header_len,
    spec_offset_or_end, spec_window_lengths,
};
use crate::fields::{
    lemma_window_lengths_chain, spec_bounded, spec_container_ssz, spec_decode_container,
    SszFields, SszFieldsRoundTrip,
};
use crate::decode::SszDecode;
use crate::encode::{SszEncode, SszLayout};
use crate::error::{DecodeError, DecodeFault};
use crate::list::{spec_decode_list, VariableList};
use crate::offset::{spec_offset_at, spec_sanitize_offset};
use crate::pair::{lemma_pair_len, spec_decode_pair, spec_next_offset, spec_pair_ssz};
use crate::offset::spec_offset_bytes;
use crate::sequence::{
    lemma_concat_prefix_len, lemma_concat_static_len, lemma_concat_step, lemma_offsets_len,
    spec_all_valid, spec_boundary, spec_concat, spec_decode_chunks, spec_decode_windows,
    spec_deep, spec_offsets, spec_sequence,
};
use crate::vector::{spec_decode_vector, FixedVector};
use vstd::prelude::*;

verus! {

/// A type whose values come back from their own bytes.
pub trait SszRoundTrip: SszEncode + SszDecode {
    /// Whether the type is free of static item types of zero length, which
    /// no sequence can count.
    spec fn spec_supported() -> bool;

    /// Decoding what a value serialises to gives the value back. A static
    /// type reads only its own bytes, whatever follows them in `rest`.
    proof fn lemma_round_trip(&self, rest: Seq<u8>)
        requires
            Self::spec_supported(),
            self.spec_valid(),
            self.spec_ssz().len() <= u32::MAX,
            !Self::spec_is_static() ==> rest.len() == 0,
        ensures
            Self::spec_decode(self.spec_ssz() + rest) == Ok::<Self::V, DecodeFault>(
                self.spec_model(),
            ),
    ;
}

/// Serialises a value and decodes the bytes again: a value of the same
/// model comes back.
pub fn round_trip<T: SszRoundTrip>(v: &T) -> (r: Result<T, DecodeError>)
    requires
        T::spec_supported(),
        v.spec_valid(),
        v.spec_ssz().len() <= u32::MAX,
    ensures
        r matches Ok(w) && w.spec_model() == v.spec_model() && w.spec_valid(),
{
    let bytes = v.to_ssz();
    proof {
        v.lemma_round_trip(Seq::<u8>::empty());
        assert(v.spec_ssz() + Seq::<u8>::empty() =~= v.spec_ssz());
    }
    T::from_ssz_bytes(bytes.as_slice())
}

impl SszRoundTrip for u8 {
    open spec fn spec_supported() -> bool {
        true
    }

    proof fn lemma_round_trip(&self, rest: Seq<u8>) {
    }
}

impl SszRoundTrip for u16 {
    open spec fn spec_supported() -> bool {
        true
    }

    proof fn lemma_round_trip(&self, rest: Seq<u8>) {
        vstd::bytes::lemma_auto_spec_u16_to_from_le_bytes();
        assert((self.spec_ssz() + rest).subrange(0, 2) =~= self.spec_ssz());
    }
}

impl SszRoundTrip for u32 {
    open spec fn spec_supported() -> bool {
        true
    }

    proof fn lemma_round_trip(&self, rest: Seq<u8>) {
        vstd::bytes::lemma_auto_spec_u32_to_from_le_bytes();
        assert((self.spec_ssz() + rest).subrange(0, 4) =~= self.spec_ssz());
    }
}

impl SszRoundTrip for u64 {
    open spec fn spec_supported() -> bool {
        true
    }

    proof fn lemma_round_trip(&self, rest: Seq<u8>) {
        vstd::bytes::lemma_auto_spec_u64_to_from_le_bytes();
        assert((self.spec_ssz() + rest).subrange(0, 8) =~= self.spec_ssz());
    }
}

impl SszRoundTrip for u128 {
    open spec fn spec_supported() -> bool {
        true
    }

    proof fn lemma_round_trip(&self, rest: Seq<u8>) {
        vstd::bytes::lemma_auto_spec_u128_to_from_le_bytes();
        assert((self.spec_ssz() + rest).subrange(0, 16) =~= self.spec_ssz());
    }
}

impl SszRoundTrip for bool {
    open spec fn spec_supported() -> bool {
        true
    }

    proof fn lemma_round_trip(&self, rest: Seq<u8>) {
    }
}

impl<const N: usize> SszRoundTrip for [u8; N] {
    open spec fn spec_supported() -> bool {
        true
    }

    proof fn lemma_round_trip(&self, rest: Seq<u8>) {
        assert((self.spec_ssz() + rest).subrange(0, N as int) =~= self@);
    }
}

/// The bytes of a prefix of the items are a prefix of the bytes of all of
/// them, and the next item's bytes follow.
pub proof fn lemma_concat_prefix<T: SszEncode>(items: Seq<T>, i: int)
    requires
        0 <= i <= items.len(),
    ensures
        spec_concat(items.take(i)).len() <= spec_concat(items).len(),
        spec_concat(items).subrange(0, spec_concat(items.take(i)).len() as int) == spec_concat(
            items.take(i),
        ),
    decreases items.len() - i,
{
    if i == items.len() {
        assert(items.take(i) =~= items);
        assert(spec_concat(items).subrange(0, spec_concat(items).len() as int) =~= spec_concat(
            items,
        ));
    } else {
        lemma_concat_step(items, i);
        lemma_concat_prefix(items, i + 1);
        let longer = spec_concat(items.take(i + 1));
        let shorter = spec_concat(items.take(i));
        assert(spec_concat(items).subrange(0, shorter.len() as int) =~= spec_concat(
            items,
        ).subrange(0, longer.len() as int).subrange(0, shorter.len() as int));
        assert(longer.subrange(0, shorter.len() as int) =~= shorter);
    }
}

/// Item `i` of a sequence is written right behind the items before it.
pub proof fn lemma_concat_item<T: SszEncode>(items: Seq<T>, i: int)
    requires
        0 <= i < items.len(),
    ensures
        spec_concat(items.take(i)).len() + items[i].spec_ssz().len() <= spec_concat(items).len(),
        spec_concat(items).subrange(
            spec_concat(items.take(i)).len() as int,
            (spec_concat(items.take(i)).len() + items[i].spec_ssz().len()) as int,
        ) == items[i].spec_ssz(),
{
    lemma_concat_step(items, i);
    lemma_concat_prefix(items, i + 1);
    let longer = spec_concat(items.take(i + 1));
    let shorter = spec_concat(items.take(i));
    assert(spec_concat(items).subrange(shorter.len() as int, longer.len() as int)
        =~= spec_concat(items).subrange(0, longer.len() as int).subrange(
        shorter.len() as int,
        longer.len() as int,
    ));
    assert(longer.subrange(shorter.len() as int, longer.len() as int) =~= items[i].spec_ssz());
}

/// A prefix of well-formed items is well-formed.
pub proof fn lemma_valid_prefix<T: SszLayout>(items: Seq<T>, i: int)
    requires
        0 <= i <= items.len(),
        spec_all_valid(items),
    ensures
        spec_all_valid(items.take(i)),
{
    assert forall|k: int| 0 <= k < items.take(i).len() implies (#[trigger] items.take(
        i,
    )[k]).spec_valid() by {
        assert(items.take(i)[k] == items[k]);
    }
}

/// The chunks of the bytes of static items decode to the items.
pub proof fn lemma_chunks_round_trip<T: SszRoundTrip>(items: Seq<T>, rest: Seq<u8>, k: int)
    requires
        T::spec_is_static(),
        T::spec_supported(),
        spec_all_valid(items),
        spec_concat(items).len() <= u32::MAX,
        0 <= k <= items.len(),
    ensures
        spec_decode_chunks::<T>(spec_concat(items) + rest, T::spec_fixed_len() as int, k) == Ok::<
            Seq<T::V>,
            DecodeFault,
        >(spec_deep(items.take(k))),
    decreases k,
{
    let bytes = spec_concat(items) + rest;
    let width = T::spec_fixed_len() as int;
    if k == 0 {
        assert(spec_deep(items.take(0)) =~= Seq::<T::V>::empty());
    } else {
        lemma_chunks_round_trip::<T>(items, rest, k - 1);
        lemma_valid_prefix(items, k - 1);
        lemma_valid_prefix(items, k);
        lemma_concat_prefix_len(items, k - 1);
        lemma_concat_prefix_len(items, k);
        lemma_concat_static_len(items.take(k - 1));
        lemma_concat_static_len(items.take(k));
        lemma_concat_item(items, k - 1);
        let item = items[k - 1];
        assert(item.spec_valid());
        item.lemma_fixed_len();
        assert(width * (k - 1) + width == width * k) by (nonlinear_arith);
        assert((k - 1) * width == width * (k - 1)) by (nonlinear_arith);
        assert(k * width == width * k) by (nonlinear_arith);
        assert(bytes.subrange((k - 1) * width, k * width) =~= item.spec_ssz());
        item.lemma_round_trip(Seq::<u8>::empty());
        assert(item.spec_ssz() + Seq::<u8>::empty() =~= item.spec_ssz());
        assert(spec_deep(items.take(k)) =~= spec_deep(items.take(k - 1)).push(item.spec_model()));
    }
}

/// Slot `i` of a run of offsets holds where item `i` starts.
pub proof fn lemma_offsets_slot<T: SszEncode>(items: Seq<T>, base: int, i: int)
    requires
        0 <= i < items.len(),
    ensures
        spec_offsets(items, base).len() == 4 * items.len(),
        spec_offsets(items, base).subrange(4 * i, 4 * i + 4) == spec_offset_bytes(
            (base + spec_concat(items.take(i)).len()) as usize,
        ),
    decreases items.len(),
{
    vstd::bytes::lemma_auto_spec_u32_to_from_le_bytes();
    lemma_offsets_len(items, base);
    let front = items.drop_last();
    lemma_offsets_len(front, base);
    let all = spec_offsets(items, base);
    if i == items.len() - 1 {
        assert(front =~= items.take(i));
        assert(all.subrange(4 * i, 4 * i + 4) =~= spec_offset_bytes(
            (base + spec_concat(front).len()) as usize,
        ));
    } else {
        lemma_offsets_slot(front, base, i);
        assert(front.take(i) =~= items.take(i));
        assert(all.subrange(4 * i, 4 * i + 4) =~= spec_offsets(front, base).subrange(
            4 * i,
            4 * i + 4,
        ));
    }
}

/// Boundary `i` of the offsets written for `items` is where item `i`
/// starts, and the last boundary is the end of the sequence.
pub proof fn lemma_written_boundary<T: SszEncode>(items: Seq<T>, i: int)
    requires
        0 <= i <= items.len(),
        4 * items.len() + spec_concat(items).len() <= u32::MAX,
    ensures
        spec_boundary(
            spec_offsets(items, 4 * (items.len() as int)),
            (4 * items.len() + spec_concat(items).len()) as usize,
            i,
        ) == 4 * items.len() + spec_concat(items.take(i)).len(),
{
    vstd::bytes::lemma_auto_spec_u32_to_from_le_bytes();
    lemma_offsets_len(items, 4 * (items.len() as int));
    lemma_concat_prefix_len(items, i);
    if i < items.len() {
        lemma_offsets_slot(items, 4 * (items.len() as int), i);
        let at = (4 * items.len() + spec_concat(items.take(i)).len()) as usize;
        let word = at as u32;
        assert(word as usize == at);
        assert(vstd::bytes::spec_u32_to_le_bytes(word).len() == 4);
        assert(vstd::bytes::spec_u32_from_le_bytes(vstd::bytes::spec_u32_to_le_bytes(word))
            == word);
        let offsets = spec_offsets(items, 4 * (items.len() as int));
        assert(offsets.len() as int / 4 == items.len());
        assert(offsets.subrange(4 * i, 4 * i + 4) == spec_offset_bytes(at));
    } else {
        let offsets = spec_offsets(items, 4 * (items.len() as int));
        assert(offsets.len() as int / 4 == items.len());
        assert(items.take(i) =~= items);
    }
}

/// The windows over the offsets written for items of a dynamic type decode
/// to the items.
pub proof fn lemma_windows_round_trip<T: SszRoundTrip>(items: Seq<T>, k: int)
    requires
        !T::spec_is_static(),
        T::spec_supported(),
        spec_all_valid(items),
        4 * items.len() + spec_concat(items).len() <= u32::MAX,
        0 <= k <= items.len(),
    ensures
        spec_decode_windows::<T>(
            spec_offsets(items, 4 * (items.len() as int)),
            spec_concat(items),
            (4 * items.len() + spec_concat(items).len()) as usize,
            k,
        ) == Ok::<Seq<T::V>, DecodeFault>(spec_deep(items.take(k))),
    decreases k,
{
    if k == 0 {
        assert(spec_deep(items.take(0)) =~= Seq::<T::V>::empty());
    } else {
        lemma_windows_round_trip::<T>(items, k - 1);
        lemma_written_boundary(items, 0);
        lemma_written_boundary(items, k - 1);
        lemma_written_boundary(items, k);
        assert(spec_concat(items.take(0)).len() == 0);
        lemma_concat_step(items, k - 1);
        lemma_concat_item(items, k - 1);
        let item = items[k - 1];
        assert(item.spec_valid());
        item.lemma_round_trip(Seq::<u8>::empty());
        assert(item.spec_ssz() + Seq::<u8>::empty() =~= item.spec_ssz());
        assert(spec_deep(items.take(k)) =~= spec_deep(items.take(k - 1)).push(item.spec_model()));
    }
}

/// Decoding what a sequence of at most `bound` items serialises to, as a
/// list, gives the items back.
pub proof fn lemma_list_round_trip<T: SszRoundTrip>(items: Seq<T>, bound: usize)
    requires
        T::spec_supported(),
        T::spec_is_static() ==> T::spec_fixed_len() > 0,
        spec_all_valid(items),
        items.len() <= bound,
        spec_sequence(items).len() <= u32::MAX,
    ensures
        spec_decode_list::<T>(spec_sequence(items), bound) == Ok::<Seq<T::V>, DecodeFault>(
            spec_deep(items),
        ),
{
    let bytes = spec_sequence(items);
    let n = items.len() as int;
    assert(items.take(n) =~= items);
    if T::spec_is_static() {
        let width = T::spec_fixed_len();
        lemma_concat_static_len(items);
        lemma_chunks_round_trip::<T>(items, Seq::<u8>::empty(), n);
        assert(bytes + Seq::<u8>::empty() =~= bytes);
        if bytes.len() == 0 {
            assert(n == 0) by (nonlinear_arith)
                requires
                    width * n == 0,
                    width > 0,
                    n >= 0,
            ;
            assert(spec_deep(items) =~= Seq::<T::V>::empty());
        } else {
            assert((width * n) / (width as int) == n) by (nonlinear_arith)
                requires
                    width > 0,
                    n >= 0,
            ;
        }
    } else {
        lemma_offsets_len(items, 4 * n);
        if n == 0 {
            assert(spec_deep(items) =~= Seq::<T::V>::empty());
        } else {
            let offsets = spec_offsets(items, 4 * n);
            let payload = spec_concat(items);
            lemma_written_boundary(items, 0);
            assert(spec_concat(items.take(0)).len() == 0);
            assert(bytes.subrange(0, 4) =~= offsets.subrange(0, 4));
            assert(bytes.subrange(0, 4 * n) =~= offsets);
            assert(bytes.subrange(4 * n, bytes.len() as int) =~= payload);
            lemma_windows_round_trip::<T>(items, n);
        }
    }
}

/// Decoding what a sequence of exactly `count` items serialises to, as a
/// vector, gives the items back.
pub proof fn lemma_vector_round_trip<T: SszRoundTrip>(items: Seq<T>, count: usize, rest: Seq<u8>)
    requires
        T::spec_supported(),
        T::spec_is_static() ==> T::spec_fixed_len() > 0,
        spec_all_valid(items),
        items.len() == count,
        spec_sequence(items).len() <= u32::MAX,
        !T::spec_is_static() ==> rest.len() == 0,
    ensures
        spec_decode_vector::<T>(spec_sequence(items) + rest, count) == Ok::<
            Seq<T::V>,
            DecodeFault,
        >(spec_deep(items)),
{
    let bytes = spec_sequence(items) + rest;
    let n = items.len() as int;
    assert(items.take(n) =~= items);
    if n == 0 {
        assert(spec_deep(items) =~= Seq::<T::V>::empty());
    } else if T::spec_is_static() {
        lemma_concat_static_len(items);
        lemma_chunks_round_trip::<T>(items, rest, n);
        assert(count * T::spec_fixed_len() == T::spec_fixed_len() * n) by (nonlinear_arith)
            requires
                count == n,
        ;
    } else {
        lemma_offsets_len(items, 4 * n);
        let offsets = spec_offsets(items, 4 * n);
        let payload = spec_concat(items);
        lemma_written_boundary(items, 0);
        assert(spec_concat(items.take(0)).len() == 0);
        assert(bytes.subrange(0, 4) =~= offsets.subrange(0, 4));
        assert(bytes.subrange(0, 4 * n) =~= offsets);
        assert(bytes.subrange(4 * n, bytes.len() as int) =~= payload);
        lemma_windows_round_trip::<T>(items, n);
    }
}

impl<T: SszRoundTrip, const N: usize> SszRoundTrip for VariableList<T, N> {
    open spec fn spec_supported() -> bool {
        T::spec_supported() && (T::spec_is_static() ==> T::spec_fixed_len() > 0)
    }

    proof fn lemma_round_trip(&self, rest: Seq<u8>) {
        lemma_list_round_trip::<T>(self@, N);
        assert(self.spec_ssz() + rest =~= self.spec_ssz());
    }
}

impl<T: SszRoundTrip, const N: usize> SszRoundTrip for FixedVector<T, N> {
    open spec fn spec_supported() -> bool {
        T::spec_supported() && (T::spec_is_static() ==> T::spec_fixed_len() > 0)
    }

    proof fn lemma_round_trip(&self, rest: Seq<u8>) {
        lemma_vector_round_trip::<T>(self@, N, rest);
    }
}

/// The length a value reports is the length of the bytes it writes: both
/// `ssz_bytes_len` and `to_ssz` are stated against `spec_ssz`, so what one
/// returns is the length of what the other returns.
pub proof fn lemma_length_agreement<T: SszEncode>(v: &T, written: Seq<u8>, reported: usize)
    requires
        written == v.spec_ssz(),
        reported == v.spec_ssz().len(),
    ensures
        written.len() == reported,
{
}

/// Every well-formed value of a static type is as long as the type's fixed
/// length.
pub proof fn lemma_static_invariance<T: SszEncode>(v: &T)
    requires
        T::spec_is_static(),
        v.spec_valid(),
        v.spec_ssz().len() <= usize::MAX,
    ensures
        v.spec_ssz().len() == T::spec_fixed_len(),
{
    v.lemma_fixed_len();
}

/// Writing one value into two sinks appends the same bytes to both.
pub proof fn lemma_sink_equivalence<T: SszEncode>(
    v: &T,
    sink_a: Seq<u8>,
    sink_a_after: Seq<u8>,
    sink_b: Seq<u8>,
    sink_b_after: Seq<u8>,
)
    requires
        sink_a_after == sink_a + v.spec_ssz(),
        sink_b_after == sink_b + v.spec_ssz(),
    ensures
        sink_a_after.skip(sink_a.len() as int) == sink_b_after.skip(sink_b.len() as int),
        sink_a == sink_b ==> sink_a_after == sink_b_after,
{
    assert(sink_a_after.skip(sink_a.len() as int) =~= v.spec_ssz());
    assert(sink_b_after.skip(sink_b.len() as int) =~= v.spec_ssz());
}

/// The offsets written for a sequence of items of a dynamic type never
/// decrease and never pass the length of the sequence.
pub proof fn lemma_written_offsets_monotone<T: SszEncode>(items: Seq<T>, i: int, j: int)
    requires
        !T::spec_is_static(),
        0 <= i <= j <= items.len(),
        spec_sequence(items).len() <= u32::MAX,
    ensures
        spec_boundary(
            spec_offsets(items, 4 * (items.len() as int)),
            spec_sequence(items).len() as usize,
            i,
        ) <= spec_boundary(
            spec_offsets(items, 4 * (items.len() as int)),
            spec_sequence(items).len() as usize,
            j,
        ) <= spec_sequence(items).len(),
{
    lemma_offsets_len(items, 4 * (items.len() as int));
    lemma_written_boundary(items, i);
    lemma_written_boundary(items, j);
    lemma_concat_prefix_len(items, j);
    lemma_concat_prefix(items.take(j), i);
    assert(items.take(j).take(i) =~= items.take(i));
}

/// The offsets in the header of a container of two fields never decrease
/// and never pass the length of the container.
pub proof fn lemma_pair_offsets_monotone<A: SszEncode, B: SszEncode>(a: &A, b: &B)
    requires
        a.spec_valid(),
        b.spec_valid(),
        spec_pair_ssz(a, b).len() <= usize::MAX,
    ensures
        A::spec_fixed_len() + B::spec_fixed_len() <= spec_next_offset(
            a,
            (A::spec_fixed_len() + B::spec_fixed_len()) as usize,
        ) <= spec_pair_ssz(a, b).len(),
{
    lemma_pair_len(a, b);
}

/// The offsets that a decoder accepts never decrease and never pass the
/// length of the message: where the windows over a list of offsets are all
/// accepted, every boundary is at most the next, and the last is the total.
pub proof fn lemma_accepted_offsets_monotone(offsets: Seq<usize>, total: usize, i: int, j: int)
    requires
        spec_window_lengths(offsets, total, offsets.len() as int) is Ok,
        0 <= i <= j <= offsets.len(),
    ensures
        spec_offset_or_end(offsets, total, i) <= spec_offset_or_end(offsets, total, j) <= total,
{
    lemma_windows_monotone(offsets, total, offsets.len() as int);
    assert(spec_offset_or_end(offsets, total, j) <= spec_offset_or_end(
        offsets,
        total,
        offsets.len() as int,
    ));
}

/// An offset that breaks a rule is refused: what `sanitize_offset` lets
/// through lies behind the fixed header, right behind it where it is the
/// first, within the message and not before the previous offset.
pub proof fn lemma_sanitize_rejects(
    offset: usize,
    previous_offset: Option<usize>,
    num_bytes: usize,
    num_fixed_bytes: Option<usize>,
)
    ensures
        spec_sanitize_offset(offset, previous_offset, num_bytes, num_fixed_bytes) is Ok <==> {
            &&& num_fixed_bytes matches Some(fixed) ==> offset >= fixed
            &&& (previous_offset is None && num_fixed_bytes is Some) ==> offset
                == num_fixed_bytes->Some_0
            &&& offset <= num_bytes
            &&& previous_offset matches Some(prev) ==> prev <= offset
        },
        spec_sanitize_offset(offset, previous_offset, num_bytes, num_fixed_bytes) matches Ok(off)
            ==> off == offset,
{
}

/// A list of items of a dynamic type is refused unless its first offset is
/// a positive multiple of four within the bytes that counts no more items
/// than the list may hold.
pub proof fn lemma_list_rejects<T: SszDecode>(bytes: Seq<u8>, bound: usize)
    requires
        !T::spec_is_static(),
        bytes.len() > 0,
        bytes.len() <= usize::MAX,
        spec_decode_list::<T>(bytes, bound) is Ok,
    ensures
        bytes.len() >= 4,
        spec_offset_at(bytes) % 4 == 0,
        4 <= spec_offset_at(bytes) <= bytes.len(),
        spec_offset_at(bytes) / 4 <= bound,
{
}

/// A list of items of a static type is refused where the items have no
/// width or are more than the list may hold.
pub proof fn lemma_static_list_rejects<T: SszDecode>(bytes: Seq<u8>, bound: usize)
    requires
        T::spec_is_static(),
        bytes.len() > 0,
        spec_decode_list::<T>(bytes, bound) is Ok,
    ensures
        T::spec_fixed_len() > 0,
        bytes.len() / (T::spec_fixed_len() as nat) <= bound,
{
}

/// A vector is refused where the bytes are too few for its items or its
/// offsets, and where the first offset of its items of a dynamic type does
/// not point right behind the offsets.
pub proof fn lemma_vector_rejects<T: SszDecode>(bytes: Seq<u8>, count: usize)
    requires
        count > 0,
        bytes.len() <= usize::MAX,
        spec_decode_vector::<T>(bytes, count) is Ok,
    ensures
        T::spec_is_static() ==> bytes.len() >= count * T::spec_fixed_len(),
        !T::spec_is_static() ==> bytes.len() >= 4 * count && spec_offset_at(bytes) == 4 * count,
{
}

/// A container is refused where the bytes are too few for its header.
pub proof fn lemma_pair_rejects<A: SszDecode, B: SszDecode>(bytes: Seq<u8>)
    requires
        spec_decode_pair::<A, B>(bytes) is Ok,
    ensures
        bytes.len() >= A::spec_fixed_len() + B::spec_fixed_len(),
{
}

/// The offsets in the header of a container of any fields never decrease
/// and never pass the length of the container.
pub proof fn lemma_container_offsets_monotone<F: SszFieldsRoundTrip>(fields: &F, i: int, j: int)
    requires
        F::spec_fields_supported(),
        fields.spec_fields_valid(),
        spec_container_ssz(fields).len() <= u32::MAX,
        0 <= i <= j <= fields.spec_written_offsets(
            spec_bounded(spec_header_len(F::spec_layouts())),
        ).len(),
    ensures
        spec_offset_or_end(
            fields.spec_written_offsets(spec_bounded(spec_header_len(F::spec_layouts()))),
            spec_container_ssz(fields).len() as usize,
            i,
        ) <= spec_offset_or_end(
            fields.spec_written_offsets(spec_bounded(spec_header_len(F::spec_layouts()))),
            spec_container_ssz(fields).len() as usize,
            j,
        ) <= spec_container_ssz(fields).len(),
{
    let header = spec_bounded(spec_header_len(F::spec_layouts()));
    let total = spec_container_ssz(fields).len() as usize;
    let written = fields.spec_written_offsets(header);
    fields.lemma_slots_len(header);
    fields.lemma_slots();
    fields.lemma_fields_round_trip(
        header,
        Seq::<u8>::empty(),
        Seq::<u8>::empty(),
        Seq::<usize>::empty(),
    );
    lemma_window_lengths_chain(written, total, fields.spec_payload_lens(), written.len() as int);
    lemma_accepted_offsets_monotone(written, total, i, j);
}

/// A container of any fields is refused where the bytes are too few for
/// its header, and a dynamic one where its offsets decrease, pass the end
/// or skip bytes behind the header.
pub proof fn lemma_container_rejects<F: SszFields>(bytes: Seq<u8>)
    requires
        spec_decode_container::<F>(bytes) is Ok,
    ensures
        bytes.len() >= spec_header_len(F::spec_layouts()),
        !spec_all_static(F::spec_layouts()) ==> spec_field_lengths(
            bytes.subrange(0, spec_header_len(F::spec_layouts()) as int),
            F::spec_layouts(),
            bytes.len() as usize,
        ) is Ok,
{
}

} // verus!
