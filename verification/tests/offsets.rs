use sszb::{
    container_bytes_len, container_field_lengths, container_fixed_len, container_header_len,
    container_is_static, container_offsets, container_split, decode_offset, offset_lengths,
    read_offset_from_buf, read_offset_from_slice, sanitize_offset, write_offset, DecodeError,
    FieldLayout, BYTES_PER_LENGTH_OFFSET,
};

#[test]
fn offset_width_is_four() {
    assert_eq!(BYTES_PER_LENGTH_OFFSET, 4);
}

#[test]
fn read_offset_is_little_endian() {
    assert_eq!(read_offset_from_slice(&[0x06, 0, 0, 0]), Ok(6));
    assert_eq!(read_offset_from_slice(&[0x01, 0x02, 0x03, 0x04, 0xff]), Ok(0x04030201));
    assert_eq!(decode_offset(&[0x59, 0, 0, 0]), Ok(89));
}

#[test]
fn read_offset_needs_four_bytes() {
    assert_eq!(
        read_offset_from_slice(&[1, 2, 3]),
        Err(DecodeError::InvalidLengthPrefix { len: 3, expected: 4 })
    );
    assert_eq!(
        decode_offset(&[1, 2, 3, 4, 5]),
        Err(DecodeError::InvalidLengthPrefix { len: 5, expected: 4 })
    );
    let mut cursor: &[u8] = &[9, 9];
    assert_eq!(
        read_offset_from_buf(&mut cursor),
        Err(DecodeError::InvalidLengthPrefix { len: 2, expected: 4 })
    );
    assert_eq!(cursor, &[9, 9]);
}

#[test]
fn read_offset_from_buf_moves_the_cursor() {
    let mut cursor: &[u8] = &[0x0a, 0, 0, 0, 7, 8];
    assert_eq!(read_offset_from_buf(&mut cursor), Ok(10));
    assert_eq!(cursor, &[7, 8]);
}

#[test]
fn write_offset_keeps_the_low_four_bytes() {
    let mut buf: Vec<u8> = vec![0xee];
    write_offset(0x0403_0201, &mut buf);
    assert_eq!(buf, vec![0xee, 0x01, 0x02, 0x03, 0x04]);
    let mut wide: Vec<u8> = Vec::new();
    write_offset(0x1_0000_0006, &mut wide);
    assert_eq!(wide, vec![6, 0, 0, 0]);
    assert_eq!(read_offset_from_slice(&buf[1..]), Ok(0x0403_0201));
}

#[test]
fn sanitize_offset_tries_its_rules_in_order() {
    assert_eq!(sanitize_offset(6, None, 26, Some(6)), Ok(6));
    assert_eq!(sanitize_offset(10, Some(8), 26, None), Ok(10));
    assert_eq!(
        sanitize_offset(0, None, 16, Some(6)),
        Err(DecodeError::OffsetIntoFixedPortion(0))
    );
    assert_eq!(
        sanitize_offset(89, None, 26, Some(6)),
        Err(DecodeError::OffsetSkipsVariableBytes(89))
    );
    assert_eq!(
        sanitize_offset(89, Some(6), 26, Some(6)),
        Err(DecodeError::OffsetOutOfBounds(89))
    );
    assert_eq!(
        sanitize_offset(7, Some(8), 26, Some(6)),
        Err(DecodeError::OffsetsAreDecreasing(7))
    );
    // into the fixed portion wins over every later rule
    assert_eq!(
        sanitize_offset(5, Some(9), 2, Some(6)),
        Err(DecodeError::OffsetIntoFixedPortion(5))
    );
    // with nothing known, only the bounds are checked
    assert_eq!(sanitize_offset(3, None, 3, None), Ok(3));
    assert_eq!(sanitize_offset(4, None, 3, None), Err(DecodeError::OffsetOutOfBounds(4)));
}

fn fields_of_b() -> Vec<FieldLayout> {
    vec![
        FieldLayout { is_static: true, fixed_len: 2 },
        FieldLayout { is_static: false, fixed_len: 4 },
    ]
}

#[test]
fn container_layout_sums_the_slots() {
    let statics = vec![
        FieldLayout { is_static: true, fixed_len: 2 },
        FieldLayout { is_static: true, fixed_len: 4 },
    ];
    assert!(container_is_static(&statics));
    assert_eq!(container_header_len(&statics), 6);
    assert_eq!(container_fixed_len(&statics), 6);
    assert_eq!(container_bytes_len(&statics, &[2, 4]), 6);

    let mixed = fields_of_b();
    assert!(!container_is_static(&mixed));
    assert_eq!(container_header_len(&mixed), 6);
    assert_eq!(container_fixed_len(&mixed), 4);
    assert_eq!(container_bytes_len(&mixed, &[2, 20]), 26);
    assert!(container_is_static(&[]));
    assert_eq!(container_header_len(&[]), 0);
}

#[test]
fn container_field_lengths_are_offset_differences() {
    let fields = vec![
        FieldLayout { is_static: false, fixed_len: 4 },
        FieldLayout { is_static: true, fixed_len: 1 },
        FieldLayout { is_static: false, fixed_len: 4 },
    ];
    let header: Vec<u8> = vec![9, 0, 0, 0, 0xff, 12, 0, 0, 0];
    assert_eq!(container_offsets(&header, &fields), vec![9, 12]);
    assert_eq!(container_field_lengths(&header, &fields, 11), Ok(vec![3, 8]));
    assert_eq!(offset_lengths(&[9, 12], 20), Ok(vec![3, 8]));
    assert_eq!(offset_lengths(&[], 20), Ok(vec![]));
    assert_eq!(offset_lengths(&[9, 8], 20), Err(DecodeError::OffsetsAreDecreasing(9)));
    assert_eq!(offset_lengths(&[9, 12], 11), Err(DecodeError::OffsetsAreDecreasing(12)));
}

#[test]
fn container_field_lengths_refuse_bad_offsets() {
    let fields = fields_of_b();
    // the offset passes the end of the message
    assert_eq!(
        container_field_lengths(&[2, 0, 89, 0, 0, 0], &fields, 20),
        Err(DecodeError::OffsetsAreDecreasing(89))
    );
    // the offset skips two bytes behind the header
    assert_eq!(
        container_field_lengths(&[2, 0, 8, 0, 0, 0], &fields, 20),
        Err(DecodeError::OffsetSkipsVariableBytes(8))
    );
    assert_eq!(container_field_lengths(&[2, 0, 6, 0, 0, 0], &fields, 20), Ok(vec![20]));
}

#[test]
fn container_split_checks_the_header() {
    let bytes: Vec<u8> = vec![1, 2, 3, 4, 5];
    let (fixed, variable) = container_split(&bytes, 2).unwrap();
    assert_eq!(fixed, &[1, 2]);
    assert_eq!(variable, &[3, 4, 5]);
    assert_eq!(
        container_split(&bytes, 6),
        Err(DecodeError::InvalidByteLength { len: 5, expected: 6 })
    );
}
