//! A SimpleSerialize (SSZ) codec: little-endian fixed-width scalars, bit
//! collections with a sentinel bit, homogeneous sequences and containers, all
//! laid out as a fixed header followed by a variable tail that the header
//! points into with four-byte offsets.
//!
//! Every codec states what it writes and what it accepts as a function over
//! byte sequences, and the executable code is proved against those functions.

pub mod bits;
pub mod buf;
pub mod check;
pub mod container;
pub mod decode;
pub mod encode;
pub mod error;
pub mod fields;
pub mod fixed_bytes;
pub mod hash;
pub mod laws;
pub mod list;
pub mod offset;
pub mod pair;
pub mod primitives;
pub mod sequence;
pub mod shared;
pub mod vector;

pub use bits::{
    bytes_for_bits, read_bit_list, read_bit_vector, read_bits, write_bits, BitList, BitVector,
};
pub use container::{
    container_bytes_len, container_field_lengths, container_fixed_len, container_header_len,
    container_is_static, container_offsets, container_split, container_take_field,
    offset_lengths, FieldLayout,
};
pub use check::SszCheck;
pub use decode::SszDecode;
pub use encode::{SszEncode, SszLayout};
pub use error::{CheckError, DecodeError, DecodeFault};
pub use fields::{Container, Fields, NoFields, Skipped, SszFields, SszFieldsRoundTrip};
pub use hash::SszHash;
pub use laws::{round_trip, SszRoundTrip};
pub use list::{read_list_items, VariableList};
pub use offset::{
    decode_offset, read_offset_from_buf, read_offset_from_slice, sanitize_offset, write_offset,
    BYTES_PER_LENGTH_OFFSET,
};
pub use sequence::{
    items_bytes_len, read_static_items, read_window_items, sequence_max_len,
    ssz_decode_variable_length_items, write_items, TryFromIter,
};
pub use vector::{read_vector_items, FixedVector};
