//! Homogeneous sequences: the list of at most `N` items and the vector of
//! exactly `N` items, over any item type with a codec.
//!
//! Items of a static type are laid end to end. Items of a dynamic type are
//! preceded by one offset each; an item's bytes run from its own offset to
//! the next one, and the last item's to the end of the sequence.

use crate::buf::{advance, chunk, has_remaining, remaining};
use crate::decode::SszDecode;
use crate::encode::{SszEncode, SszLayout};
use crate::error::{DecodeError, DecodeFault};
use crate::offset::{read_offset_from_slice, spec_offset_bytes, BYTES_PER_LENGTH_OFFSET};
use vstd::prelude::*;
use vstd::slice::slice_subrange;

verus! {

/// The serialisations of `items` laid end to end.
pub open spec fn spec_concat<T: SszEncode>(items: Seq<T>) -> Seq<u8>
    decreases items.len(),
{
    if items.len() == 0 {
        Seq::<u8>::empty()
    } else {
        spec_concat(items.drop_last()) + items.last().spec_ssz()
    }
}

/// The offset slots for `items`, where the first payload starts at `base`.
pub open spec fn spec_offsets<T: SszEncode>(items: Seq<T>, base: int) -> Seq<u8>
    decreases items.len(),
{
    if items.len() == 0 {
        Seq::<u8>::empty()
    } else {
        spec_offsets(items.drop_last(), base) + spec_offset_bytes(
            (base + spec_concat(items.drop_last()).len()) as usize,
        )
    }
}

/// The serialisation of a sequence of `items`.
pub open spec fn spec_sequence<T: SszEncode>(items: Seq<T>) -> Seq<u8> {
    if T::spec_is_static() {
        spec_concat(items)
    } else {
        spec_offsets(items, 4 * (items.len() as int)) + spec_concat(items)
    }
}

/// Whether every item is well-formed.
pub open spec fn spec_all_valid<T: SszLayout>(items: Seq<T>) -> bool {
    forall|i: int| 0 <= i < items.len() ==> (#[trigger] items[i]).spec_valid()
}

/// The product of two lengths where it fits the machine's word, else the
/// largest word.
pub open spec fn spec_bounded_product(a: usize, b: usize) -> usize {
    if a * b <= usize::MAX {
        (a * b) as usize
    } else {
        usize::MAX
    }
}

/// Computes `spec_bounded_product`.
pub fn bounded_product(a: usize, b: usize) -> (r: usize)
    ensures
        r == spec_bounded_product(a, b),
{
    match a.checked_mul(b) {
        Some(p) => p,
        None => usize::MAX,
    }
}

/// The sum of two lengths where it fits the machine's word, else the largest
/// word.
pub open spec fn spec_bounded_sum(a: usize, b: usize) -> usize {
    if a + b <= usize::MAX {
        (a + b) as usize
    } else {
        usize::MAX
    }
}

/// Computes `spec_bounded_sum`.
pub fn bounded_sum(a: usize, b: usize) -> (r: usize)
    ensures
        r == spec_bounded_sum(a, b),
{
    match a.checked_add(b) {
        Some(s) => s,
        None => usize::MAX,
    }
}

/// The buffer bound of a sequence type with room for `count` items.
pub open spec fn spec_sequence_max_len<T: SszLayout>(count: usize) -> usize {
    if T::spec_is_static() {
        spec_bounded_product(T::spec_fixed_len(), count)
    } else {
        spec_bounded_sum(
            spec_bounded_product(T::spec_max_len(), count),
            spec_bounded_product(BYTES_PER_LENGTH_OFFSET, count),
        )
    }
}

/// Computes the buffer bound of a sequence type from what its item type
/// says of itself.
pub fn sequence_max_len(
    item_is_static: bool,
    item_fixed_len: usize,
    item_max_len: usize,
    count: usize,
) -> (r: usize)
    ensures
        r == if item_is_static {
            spec_bounded_product(item_fixed_len, count)
        } else {
            spec_bounded_sum(
                spec_bounded_product(item_max_len, count),
                spec_bounded_product(BYTES_PER_LENGTH_OFFSET, count),
            )
        },
{
    if item_is_static {
        bounded_product(item_fixed_len, count)
    } else {
        bounded_sum(
            bounded_product(item_max_len, count),
            bounded_product(BYTES_PER_LENGTH_OFFSET, count),
        )
    }
}

/// Laying one more item at the end appends its serialisation.
pub proof fn lemma_concat_step<T: SszEncode>(items: Seq<T>, i: int)
    requires
        0 <= i < items.len(),
    ensures
        spec_concat(items.take(i + 1)) == spec_concat(items.take(i)) + items[i].spec_ssz(),
        spec_concat(items.take(i)).len() + items[i].spec_ssz().len() == spec_concat(
            items.take(i + 1),
        ).len(),
{
    assert(items.take(i + 1).drop_last() =~= items.take(i));
    assert(items.take(i + 1).last() == items[i]);
}

/// A prefix of the items serialises to no more bytes than all of them.
pub proof fn lemma_concat_prefix_len<T: SszEncode>(items: Seq<T>, i: int)
    requires
        0 <= i <= items.len(),
    ensures
        spec_concat(items.take(i)).len() <= spec_concat(items).len(),
    decreases items.len() - i,
{
    if i == items.len() {
        assert(items.take(i) =~= items);
    } else {
        lemma_concat_step(items, i);
        lemma_concat_prefix_len(items, i + 1);
    }
}

/// One more item adds one more slot, which holds where that item starts.
pub proof fn lemma_offsets_step<T: SszEncode>(items: Seq<T>, base: int, i: int)
    requires
        0 <= i < items.len(),
    ensures
        spec_offsets(items.take(i + 1), base) == spec_offsets(items.take(i), base)
            + spec_offset_bytes((base + spec_concat(items.take(i)).len()) as usize),
{
    assert(items.take(i + 1).drop_last() =~= items.take(i));
}

/// The offset slots of a sequence take four bytes per item.
pub proof fn lemma_offsets_len<T: SszEncode>(items: Seq<T>, base: int)
    ensures
        spec_offsets(items, base).len() == 4 * items.len(),
    decreases items.len(),
{
    vstd::bytes::lemma_auto_spec_u32_to_from_le_bytes();
    if items.len() > 0 {
        lemma_offsets_len(items.drop_last(), base);
    }
}

/// Items of a static type take the type's fixed length each.
pub proof fn lemma_concat_static_len<T: SszEncode>(items: Seq<T>)
    requires
        T::spec_is_static(),
        spec_all_valid(items),
        spec_concat(items).len() <= usize::MAX,
    ensures
        spec_concat(items).len() == T::spec_fixed_len() * items.len(),
    decreases items.len(),
{
    if items.len() > 0 {
        let front = items.drop_last();
        assert(spec_all_valid(front)) by {
            assert forall|i: int| 0 <= i < front.len() implies (#[trigger] front[i]).spec_valid() by {
                assert(front[i] == items[i]);
            }
        }
        lemma_concat_static_len(front);
        items.last().lemma_fixed_len();
        assert(T::spec_fixed_len() * items.len() == T::spec_fixed_len() * front.len()
            + T::spec_fixed_len()) by (nonlinear_arith)
            requires
                items.len() == front.len() + 1,
        ;
    }
}

/// Items serialise to no more than their type's bound each.
pub proof fn lemma_concat_max_len<T: SszEncode>(items: Seq<T>)
    requires
        spec_all_valid(items),
        spec_concat(items).len() <= usize::MAX,
    ensures
        spec_concat(items).len() <= T::spec_max_len() * items.len(),
    decreases items.len(),
{
    if items.len() > 0 {
        let front = items.drop_last();
        assert(spec_all_valid(front)) by {
            assert forall|i: int| 0 <= i < front.len() implies (#[trigger] front[i]).spec_valid() by {
                assert(front[i] == items[i]);
            }
        }
        lemma_concat_max_len(front);
        items.last().lemma_max_len();
        assert(T::spec_max_len() * items.len() == T::spec_max_len() * front.len()
            + T::spec_max_len()) by (nonlinear_arith)
            requires
                items.len() == front.len() + 1,
        ;
    }
}

/// A sequence of at most `count` well-formed items serialises to no more
/// than the bound of a sequence type with room for `count` items.
pub proof fn lemma_sequence_max_len<T: SszEncode>(items: Seq<T>, count: usize)
    requires
        spec_all_valid(items),
        items.len() <= count,
        spec_sequence(items).len() <= usize::MAX,
    ensures
        spec_sequence(items).len() <= spec_sequence_max_len::<T>(count),
{
    let n = items.len() as int;
    lemma_offsets_len(items, 4 * n);
    if T::spec_is_static() {
        lemma_concat_static_len(items);
        assert(T::spec_fixed_len() * n <= T::spec_fixed_len() * count) by (nonlinear_arith)
            requires
                0 <= n <= count,
        ;
    } else {
        lemma_concat_max_len(items);
        assert(T::spec_max_len() * n <= T::spec_max_len() * count) by (nonlinear_arith)
            requires
                0 <= n <= count,
        ;
    }
}

/// Appends the serialisation of a sequence of items.
pub fn write_items<T: SszEncode>(items: &[T], buf: &mut Vec<u8>)
    requires
        spec_all_valid(items@),
        spec_sequence(items@).len() <= usize::MAX,
    ensures
        final(buf)@ == old(buf)@ + spec_sequence(items@),
{
    let n: usize = items.len();
    proof {
        lemma_offsets_len(items@, 4 * (items@.len() as int));
        assert(items@.take(n as int) =~= items@);
    }
    if !T::is_ssz_static() {
        let mut offset: usize = n * BYTES_PER_LENGTH_OFFSET;
        let mut i: usize = 0;
        while i < n
            invariant
                n == items@.len(),
                spec_all_valid(items@),
                !T::spec_is_static(),
                0 <= i <= n,
                4 * n + spec_concat(items@).len() <= usize::MAX,
                offset == 4 * n + spec_concat(items@.take(i as int)).len(),
                buf@ == old(buf)@ + spec_offsets(items@.take(i as int), 4 * n),
            decreases n - i,
        {
            proof {
                lemma_concat_step(items@, i as int);
                lemma_concat_prefix_len(items@, i as int + 1);
                lemma_offsets_step(items@, 4 * n, i as int);
            }
            items[i].ssz_write_fixed(&mut offset, buf);
            i += 1;
        }
    }
    let ghost header = buf@;
    let mut j: usize = 0;
    while j < n
        invariant
            n == items@.len(),
            spec_all_valid(items@),
            0 <= j <= n,
            spec_concat(items@).len() <= usize::MAX,
            buf@ == header + spec_concat(items@.take(j as int)),
        decreases n - j,
    {
        proof {
            lemma_concat_step(items@, j as int);
            lemma_concat_prefix_len(items@, j as int + 1);
        }
        items[j].ssz_write(buf);
        j += 1;
    }
}

/// The serialised length of a sequence of items: the fixed length times the
/// count for a static item type, else the items' own lengths and one offset
/// each.
pub fn items_bytes_len<T: SszEncode>(items: &[T]) -> (r: usize)
    requires
        spec_all_valid(items@),
        spec_sequence(items@).len() <= usize::MAX,
    ensures
        r == spec_sequence(items@).len(),
{
    let n: usize = items.len();
    proof {
        lemma_offsets_len(items@, 4 * (items@.len() as int));
        assert(items@.take(n as int) =~= items@);
    }
    if T::is_ssz_static() {
        proof {
            lemma_concat_static_len(items@);
        }
        T::ssz_fixed_len() * n
    } else {
        let mut len: usize = 0;
        let mut i: usize = 0;
        while i < n
            invariant
                n == items@.len(),
                spec_all_valid(items@),
                0 <= i <= n,
                4 * n + spec_concat(items@).len() <= usize::MAX,
                len == spec_concat(items@.take(i as int)).len(),
            decreases n - i,
        {
            proof {
                lemma_concat_step(items@, i as int);
                lemma_concat_prefix_len(items@, i as int + 1);
            }
            len = len + items[i].ssz_bytes_len();
            i += 1;
        }
        len = len + BYTES_PER_LENGTH_OFFSET * n;
        len
    }
}

/// What the `items` stand for, in order.
pub open spec fn spec_deep<T: SszLayout>(items: Seq<T>) -> Seq<T::V> {
    Seq::new(items.len(), |i: int| items[i].spec_model())
}

/// What `count` chunks of `width` bytes each, taken from the front of
/// `bytes`, denote as items: the items in order, or the failure of the first
/// chunk that denotes none.
pub open spec fn spec_decode_chunks<T: SszDecode>(bytes: Seq<u8>, width: int, count: int) -> Result<
    Seq<T::V>,
    DecodeFault,
>
    decreases count,
{
    if count <= 0 {
        Ok(Seq::empty())
    } else {
        match spec_decode_chunks::<T>(bytes, width, count - 1) {
            Err(f) => Err(f),
            Ok(front) => match T::spec_decode(bytes.subrange((count - 1) * width, count * width)) {
                Err(f) => Err(f),
                Ok(v) => Ok(front.push(v)),
            },
        }
    }
}

/// The `i`-th boundary of a run of offsets: the `i`-th offset where there is
/// one, else `total`, the end of the whole sequence.
pub open spec fn spec_boundary(offsets: Seq<u8>, total: usize, i: int) -> usize {
    if 0 <= i < offsets.len() / 4 {
        vstd::bytes::spec_u32_from_le_bytes(offsets.subrange(4 * i, 4 * i + 4)) as usize
    } else {
        total
    }
}

/// What the first `count` windows of consecutive boundaries denote as items.
///
/// Window `i` runs from boundary `i` to boundary `i + 1`. It fails with
/// `OffsetsAreDecreasing` of its start where it ends before it starts, and
/// with `InvalidByteLength` where it is longer than what is left of `items`
/// after the windows before it; else its bytes are decoded as one item.
pub open spec fn spec_decode_windows<T: SszDecode>(
    offsets: Seq<u8>,
    items: Seq<u8>,
    total: usize,
    count: int,
) -> Result<Seq<T::V>, DecodeFault>
    decreases count,
{
    if count <= 0 {
        Ok(Seq::empty())
    } else {
        match spec_decode_windows::<T>(offsets, items, total, count - 1) {
            Err(f) => Err(f),
            Ok(front) => {
                let first = spec_boundary(offsets, total, 0);
                let start = spec_boundary(offsets, total, count - 1);
                let end = spec_boundary(offsets, total, count);
                if start > end {
                    Err(DecodeFault::OffsetsAreDecreasing(start))
                } else if end - start > items.len() - (start - first) {
                    Err(
                        DecodeFault::InvalidByteLength {
                            len: (end - start) as usize,
                            expected: (items.len() - (start - first)) as usize,
                        },
                    )
                } else {
                    match T::spec_decode(items.subrange(start - first, end - first)) {
                        Err(f) => Err(f),
                        Ok(v) => Ok(front.push(v)),
                    }
                }
            },
        }
    }
}

/// What a run of offsets and the payloads behind it denote as items: one
/// item for every whole offset.
pub open spec fn spec_decode_items<T: SszDecode>(offsets: Seq<u8>, items: Seq<u8>) -> Result<
    Seq<T::V>,
    DecodeFault,
> {
    spec_decode_windows::<T>(
        offsets,
        items,
        (offsets.len() + items.len()) as usize,
        offsets.len() as int / 4,
    )
}

/// Once a chunk has failed, taking more chunks changes nothing.
pub proof fn lemma_chunks_failure_stays<T: SszDecode>(
    bytes: Seq<u8>,
    width: int,
    failed: int,
    count: int,
)
    requires
        failed <= count,
        spec_decode_chunks::<T>(bytes, width, failed) is Err,
    ensures
        spec_decode_chunks::<T>(bytes, width, count) == spec_decode_chunks::<T>(
            bytes,
            width,
            failed,
        ),
    decreases count - failed,
{
    if failed < count {
        lemma_chunks_failure_stays::<T>(bytes, width, failed, count - 1);
    }
}

/// Once a window has failed, taking more windows changes nothing.
pub proof fn lemma_windows_failure_stays<T: SszDecode>(
    offsets: Seq<u8>,
    items: Seq<u8>,
    total: usize,
    failed: int,
    count: int,
)
    requires
        failed <= count,
        spec_decode_windows::<T>(offsets, items, total, failed) is Err,
    ensures
        spec_decode_windows::<T>(offsets, items, total, count) == spec_decode_windows::<T>(
            offsets,
            items,
            total,
            failed,
        ),
    decreases count - failed,
{
    if failed < count {
        lemma_windows_failure_stays::<T>(offsets, items, total, failed, count - 1);
    }
}

/// Decodes `count` items of `width` bytes each from the front of `bytes`.
pub fn read_static_items<T: SszDecode>(bytes: &[u8], width: usize, count: usize) -> (r: Result<
    Vec<T>,
    DecodeError,
>)
    requires
        count * width <= bytes@.len(),
    ensures
        match spec_decode_chunks::<T>(bytes@, width as int, count as int) {
            Ok(vals) => r matches Ok(out) && spec_deep(out@) == vals && spec_all_valid(out@),
            Err(f) => r matches Err(e) && e@ == f,
        },
        r matches Ok(out) ==> out@.len() == count,
{
    let mut out: Vec<T> = Vec::new();
    let mut i: usize = 0;
    let available: usize = bytes.len();
    assert(spec_deep(out@) =~= Seq::<T::V>::empty());
    while i < count
        invariant
            0 <= i <= count,
            count * width <= bytes@.len(),
            bytes@.len() == available,
            spec_all_valid(out@),
            out@.len() == i,
            spec_decode_chunks::<T>(bytes@, width as int, i as int) == Ok::<
                Seq<T::V>,
                DecodeFault,
            >(spec_deep(out@)),
        decreases count - i,
    {
        proof {
            assert(i * width + width == (i + 1) * width) by (nonlinear_arith);
            assert(0 <= i * width) by (nonlinear_arith);
            assert((i + 1) * width <= count * width) by (nonlinear_arith)
                requires
                    i + 1 <= count,
            ;
        }
        let from: usize = i * width;
        let piece = slice_subrange(bytes, from, from + width);
        match T::from_ssz_bytes(piece) {
            Ok(v) => {
                let ghost before = out@;
                out.push(v);
                proof {
                    assert(spec_deep(out@) =~= spec_deep(before).push(v.spec_model()));
                }
            },
            Err(e) => {
                proof {
                    lemma_chunks_failure_stays::<T>(
                        bytes@,
                        width as int,
                        i as int + 1,
                        count as int,
                    );
                }
                return Err(e);
            },
        }
        i += 1;
    }
    Ok(out)
}

/// Decodes one item per whole offset in `var_offsets`, carving each item's
/// bytes from the front of `var_items` as the windows of consecutive offsets
/// give their lengths. On success `var_items` has moved past all of them.
pub fn read_window_items<T: SszDecode>(var_offsets: &[u8], var_items: &mut &[u8]) -> (r: Result<
    Vec<T>,
    DecodeError,
>)
    requires
        var_offsets@.len() + old(var_items)@.len() <= usize::MAX,
    ensures
        match spec_decode_items::<T>(var_offsets@, old(var_items)@) {
            Ok(vals) => r matches Ok(out) && spec_deep(out@) == vals && spec_all_valid(out@),
            Err(f) => r matches Err(e) && e@ == f,
        },
        r matches Ok(out) ==> out@.len() == var_offsets@.len() / 4,
{
    let count: usize = var_offsets.len() / BYTES_PER_LENGTH_OFFSET;
    let total: usize = var_offsets.len() + remaining(var_items);
    let mut out: Vec<T> = Vec::new();
    assert(spec_deep(out@) =~= Seq::<T::V>::empty());
    if count == 0 {
        return Ok(out);
    }
    let first: usize = read_boundary(var_offsets, total, 0);
    let mut start: usize = first;
    let mut i: usize = 0;
    while i < count
        invariant
            0 <= i <= count,
            count == var_offsets@.len() / 4,
            count > 0,
            total == var_offsets@.len() + old(var_items)@.len(),
            first == spec_boundary(var_offsets@, total, 0),
            start == spec_boundary(var_offsets@, total, i as int),
            first <= start,
            start - first <= old(var_items)@.len(),
            var_items@ == old(var_items)@.skip(start - first),
            spec_all_valid(out@),
            out@.len() == i,
            spec_decode_windows::<T>(var_offsets@, old(var_items)@, total, i as int) == Ok::<
                Seq<T::V>,
                DecodeFault,
            >(spec_deep(out@)),
        decreases count - i,
    {
        let end: usize = read_boundary(var_offsets, total, i + 1);
        proof {
            lemma_windows_failure_or_more::<T>(
                var_offsets@,
                old(var_items)@,
                total,
                i as int + 1,
                count as int,
            );
        }
        if start > end {
            return Err(DecodeError::OffsetsAreDecreasing(start));
        }
        let len: usize = end - start;
        let left: usize = remaining(var_items);
        if len > left {
            return Err(DecodeError::InvalidByteLength { len, expected: left });
        }
        let decoded = T::from_ssz_bytes(slice_subrange(chunk(var_items), 0, len));
        proof {
            assert(var_items@.subrange(0, len as int) =~= old(var_items)@.subrange(
                start - first,
                end - first,
            ));
        }
        match decoded {
            Ok(v) => {
                let ghost before = out@;
                out.push(v);
                proof {
                    assert(spec_deep(out@) =~= spec_deep(before).push(v.spec_model()));
                }
            },
            Err(e) => {
                return Err(e);
            },
        }
        let ghost was = var_items@;
        advance(var_items, len);
        proof {
            assert(was.skip(len as int) =~= old(var_items)@.skip(end - first));
        }
        start = end;
        i += 1;
    }
    Ok(out)
}

/// Where the windows up to `failed` fail, so do the windows up to `count`,
/// and in the same way.
proof fn lemma_windows_failure_or_more<T: SszDecode>(
    offsets: Seq<u8>,
    items: Seq<u8>,
    total: usize,
    failed: int,
    count: int,
)
    requires
        failed <= count,
    ensures
        spec_decode_windows::<T>(offsets, items, total, failed) is Err ==> spec_decode_windows::<T>(
            offsets,
            items,
            total,
            count,
        ) == spec_decode_windows::<T>(offsets, items, total, failed),
{
    if spec_decode_windows::<T>(offsets, items, total, failed) is Err {
        lemma_windows_failure_stays::<T>(offsets, items, total, failed, count);
    }
}

/// Reads boundary `i` of a run of offsets.
fn read_boundary(var_offsets: &[u8], total: usize, i: usize) -> (r: usize)
    ensures
        r == spec_boundary(var_offsets@, total, i as int),
{
    if i < var_offsets.len() / BYTES_PER_LENGTH_OFFSET {
        let piece = slice_subrange(var_offsets, 4 * i, 4 * i + 4);
        assert(piece@.subrange(0, 4) =~= piece@);
        match read_offset_from_slice(piece) {
            Ok(off) => off,
            Err(_) => total,
        }
    } else {
        total
    }
}

/// A collection that can be built from items handed over in order, where
/// their number suits it.
pub trait TryFromIter<T>: Sized {
    /// Whether the collection can hold exactly `count` items.
    spec fn spec_accepts(count: nat) -> bool;

    /// The items the collection holds, in order.
    spec fn spec_items(&self) -> Seq<T>;

    /// Builds the collection from `items`, or fails where their number does
    /// not suit it.
    fn try_from_iter(items: Vec<T>) -> (r: Result<Self, DecodeError>)
        ensures
            Self::spec_accepts(items@.len()) ==> (r matches Ok(l) && l.spec_items() == items@),
            !Self::spec_accepts(items@.len()) ==> (r matches Err(e) && e@
                == DecodeFault::BytesInvalid),
    ;
}

/// Decodes the items of a sequence of variable-size items from its run of
/// offsets and the payloads behind it, and collects them.
pub fn ssz_decode_variable_length_items<T: SszDecode, L: TryFromIter<T>>(
    var_offsets: &[u8],
    var_items: &mut &[u8],
) -> (r: Result<L, DecodeError>)
    requires
        var_offsets@.len() + old(var_items)@.len() <= usize::MAX,
    ensures
        match spec_decode_items::<T>(var_offsets@, old(var_items)@) {
            Ok(vals) => if L::spec_accepts(vals.len()) {
                r matches Ok(l) && spec_deep(l.spec_items()) == vals && spec_all_valid(
                    l.spec_items(),
                )
            } else {
                r matches Err(e) && e@ == DecodeFault::BytesInvalid
            },
            Err(f) => r matches Err(e) && e@ == f,
        },
        spec_decode_items::<T>(var_offsets@, old(var_items)@) matches Ok(vals) ==> vals.len()
            == var_offsets@.len() / 4,
{
    if !has_remaining(&var_offsets) && !has_remaining(var_items) {
        let none: Vec<T> = Vec::new();
        assert(spec_deep(none@) =~= Seq::<T::V>::empty());
        return L::try_from_iter(none);
    }
    match read_window_items::<T>(var_offsets, var_items) {
        Ok(out) => L::try_from_iter(out),
        Err(e) => Err(e),
    }
}

} // verus!
