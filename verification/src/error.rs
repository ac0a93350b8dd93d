//! The failures a decoder can report.

use crate::encode::SszLayout;
use vstd::prelude::*;

verus! {

/// Why a byte string was not accepted.
#[derive(Debug, PartialEq, Clone)]
pub enum DecodeError {
    /// A fixed-width read asked for more bytes than were left.
    InvalidByteLength { len: usize, expected: usize },
    /// Fewer than four bytes were left where an offset was due.
    InvalidLengthPrefix { len: usize, expected: usize },
    /// An index computation left the buffer.
    OutOfBoundsByte { i: usize },
    /// An offset points back into the fixed header.
    OffsetIntoFixedPortion(usize),
    /// The first offset does not point at the byte right after the fixed header.
    OffsetSkipsVariableBytes(usize),
    /// An offset is larger than the one that follows it.
    OffsetsAreDecreasing(usize),
    /// An offset points past the end of the message.
    OffsetOutOfBounds(usize),
    /// The first offset of a list of variable-size items is not a positive
    /// multiple of four.
    InvalidListFixedBytesLen(usize),
    /// A fixed-size item type claims a length of zero bytes.
    ZeroLengthItem,
    /// The bytes are well-formed but do not denote a value of the type.
    BytesInvalid(String),
}

/// A `DecodeError` without its free-form message: what contracts speak of.
pub enum DecodeFault {
    InvalidByteLength { len: usize, expected: usize },
    InvalidLengthPrefix { len: usize, expected: usize },
    OutOfBoundsByte { i: usize },
    OffsetIntoFixedPortion(usize),
    OffsetSkipsVariableBytes(usize),
    OffsetsAreDecreasing(usize),
    OffsetOutOfBounds(usize),
    InvalidListFixedBytesLen(usize),
    ZeroLengthItem,
    BytesInvalid,
}

impl View for DecodeError {
    type V = DecodeFault;

    open spec fn view(&self) -> DecodeFault {
        match *self {
            DecodeError::InvalidByteLength { len, expected } => DecodeFault::InvalidByteLength {
                len,
                expected,
            },
            DecodeError::InvalidLengthPrefix { len, expected } => DecodeFault::InvalidLengthPrefix {
                len,
                expected,
            },
            DecodeError::OutOfBoundsByte { i } => DecodeFault::OutOfBoundsByte { i },
            DecodeError::OffsetIntoFixedPortion(off) => DecodeFault::OffsetIntoFixedPortion(off),
            DecodeError::OffsetSkipsVariableBytes(off) => DecodeFault::OffsetSkipsVariableBytes(
                off,
            ),
            DecodeError::OffsetsAreDecreasing(off) => DecodeFault::OffsetsAreDecreasing(off),
            DecodeError::OffsetOutOfBounds(off) => DecodeFault::OffsetOutOfBounds(off),
            DecodeError::InvalidListFixedBytesLen(off) => DecodeFault::InvalidListFixedBytesLen(
                off,
            ),
            DecodeError::ZeroLengthItem => DecodeFault::ZeroLengthItem,
            DecodeError::BytesInvalid(_) => DecodeFault::BytesInvalid,
        }
    }
}

/// Why a byte string failed a check.
#[derive(Clone, Copy, Debug, PartialEq, Eq)]
pub enum CheckError {
    BytesInvalid,
}

/// Whether an executable decoding result is the one a specification names:
/// the same value up to its model, or the same failure up to its message.
pub open spec fn decoded_as<T: SszLayout>(
    got: Result<T, DecodeError>,
    want: Result<T::V, DecodeFault>,
) -> bool {
    match (got, want) {
        (Ok(v), Ok(m)) => v.spec_model() == m,
        (Err(e), Err(f)) => e@ == f,
        _ => false,
    }
}

/// The message for a boolean byte other than 0 and 1, built with `format!`.
/// Nothing is claimed of the text.
#[verifier::external_body]
pub(crate) fn bool_message(num: u8) -> String {
    format!("Out-of-range for boolean: {}", num)
}

/// The message for a count that does not fit its type-level bound, built with
/// `format!`. Nothing is claimed of the text.
#[verifier::external_body]
pub(crate) fn count_message(what: &str, found: usize, bound: usize) -> String {
    format!("{} of {} items exceeds maximum of {}", what, found, bound)
}

/// The message for a fixed-length vector given too few bytes, built with
/// `format!`. Nothing is claimed of the text.
#[verifier::external_body]
pub(crate) fn vector_message(found: usize, wanted: usize) -> String {
    format!("Vector of {} items not equal to length {}", found, wanted)
}

/// The message that carries the failure of a collecting step, built with
/// `format!`. Nothing is claimed of the text.
#[verifier::external_body]
pub(crate) fn collect_message(index: usize, bound: usize) -> String {
    format!("Error processing results: OutOfBounds {{ i: {}, len: {} }}", index, bound)
}

/// The message for bits that do not form a bit collection, built with
/// `format!`. Nothing is claimed of the text.
#[verifier::external_body]
pub(crate) fn bits_message(what: &str) -> String {
    format!("BitVector failed to decode: {}", what)
}

} // verus!
