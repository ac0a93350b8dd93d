use sszb::{BitList, BitVector, DecodeError, SszDecode, SszEncode};

#[test]
fn unsigned_integers_are_little_endian() {
    assert_eq!(0x12u8.to_ssz(), vec![0x12]);
    assert_eq!(0x1234u16.to_ssz(), vec![0x34, 0x12]);
    assert_eq!(0x1234_5678u32.to_ssz(), vec![0x78, 0x56, 0x34, 0x12]);
    assert_eq!(
        0x0102_0304_0506_0708u64.to_ssz(),
        vec![0x08, 0x07, 0x06, 0x05, 0x04, 0x03, 0x02, 0x01]
    );
    let wide: u128 = 0x0102_0304_0506_0708_090a_0b0c_0d0e_0f10;
    assert_eq!(
        wide.to_ssz(),
        vec![
            0x10, 0x0f, 0x0e, 0x0d, 0x0c, 0x0b, 0x0a, 0x09, 0x08, 0x07, 0x06, 0x05, 0x04, 0x03,
            0x02, 0x01
        ]
    );
    assert_eq!(u8::from_ssz_bytes(&[0x12]), Ok(0x12));
    assert_eq!(u16::from_ssz_bytes(&[0x34, 0x12]), Ok(0x1234));
    assert_eq!(u32::from_ssz_bytes(&[0x78, 0x56, 0x34, 0x12]), Ok(0x1234_5678));
    assert_eq!(u64::from_ssz_bytes(&0x0102_0304_0506_0708u64.to_ssz()), Ok(0x0102_0304_0506_0708));
    assert_eq!(u128::from_ssz_bytes(&wide.to_ssz()), Ok(wide));
}

#[test]
fn integer_layout_is_static() {
    assert!(<u8 as SszEncode>::is_ssz_static());
    assert!(<u64 as SszDecode>::is_ssz_static());
    assert_eq!(<u8 as SszEncode>::ssz_fixed_len(), 1);
    assert_eq!(<u16 as SszEncode>::ssz_fixed_len(), 2);
    assert_eq!(<u32 as SszEncode>::ssz_fixed_len(), 4);
    assert_eq!(<u64 as SszEncode>::ssz_fixed_len(), 8);
    assert_eq!(<u128 as SszEncode>::ssz_fixed_len(), 16);
    assert_eq!(<u128 as SszDecode>::ssz_max_len(), 16);
    assert_eq!(7u32.ssz_bytes_len(), 4);
    assert_eq!(7u32.to_ssz().len(), 7u32.ssz_bytes_len());
}

#[test]
fn short_input_is_an_invalid_byte_length() {
    assert_eq!(
        u16::from_ssz_bytes(&[1]),
        Err(DecodeError::InvalidByteLength { len: 1, expected: 2 })
    );
    assert_eq!(
        u64::from_ssz_bytes(&[]),
        Err(DecodeError::InvalidByteLength { len: 0, expected: 8 })
    );
    assert_eq!(
        bool::from_ssz_bytes(&[]),
        Err(DecodeError::InvalidByteLength { len: 0, expected: 1 })
    );
    assert_eq!(
        <[u8; 3]>::from_ssz_bytes(&[1, 2]),
        Err(DecodeError::InvalidByteLength { len: 2, expected: 3 })
    );
}

#[test]
fn static_write_leaves_the_offset_alone() {
    let mut offset: usize = 40;
    let mut buf: Vec<u8> = Vec::new();
    0x0102u16.ssz_write_fixed(&mut offset, &mut buf);
    0x0102u16.ssz_write_variable(&mut buf);
    assert_eq!(offset, 40);
    assert_eq!(buf, vec![2, 1]);
}

#[test]
fn read_moves_the_fixed_cursor() {
    let mut fixed: &[u8] = &[1, 0, 2, 0, 9];
    let mut variable: &[u8] = &[5];
    assert_eq!(u16::ssz_read(&mut fixed, &mut variable), Ok(1));
    assert_eq!(u16::ssz_read(&mut fixed, &mut variable), Ok(2));
    assert_eq!(fixed, &[9]);
    assert_eq!(variable, &[5]);
    assert_eq!(
        u16::ssz_read(&mut fixed, &mut variable),
        Err(DecodeError::InvalidByteLength { len: 1, expected: 2 })
    );
}

#[test]
fn booleans_are_zero_or_one() {
    assert_eq!(true.to_ssz(), vec![1]);
    assert_eq!(false.to_ssz(), vec![0]);
    assert_eq!(bool::from_ssz_bytes(&[0]), Ok(false));
    assert_eq!(bool::from_ssz_bytes(&[1]), Ok(true));
    assert!(matches!(bool::from_ssz_bytes(&[2]), Err(DecodeError::BytesInvalid(_))));
    assert!(matches!(bool::from_ssz_bytes(&[255]), Err(DecodeError::BytesInvalid(_))));
}

#[test]
fn byte_arrays_are_verbatim() {
    let a: [u8; 4] = [9, 8, 7, 6];
    assert_eq!(a.to_ssz(), vec![9, 8, 7, 6]);
    assert_eq!(<[u8; 4]>::from_ssz_bytes(&[9, 8, 7, 6, 5]), Ok(a));
    assert_eq!(<[u8; 4] as SszEncode>::ssz_fixed_len(), 4);
    assert_eq!(<[u8; 0]>::from_ssz_bytes(&[]), Ok([]));
}

#[test]
fn bit_list_ends_in_a_sentinel() {
    let empty = BitList::<8>::new(vec![]).unwrap();
    assert_eq!(empty.to_ssz(), vec![0x01]);
    let ones = BitList::<8>::new(vec![true; 8]).unwrap();
    assert_eq!(ones.to_ssz(), vec![0xff, 0x01]);
    let three = BitList::<8>::new(vec![true, false, true]).unwrap();
    assert_eq!(three.to_ssz(), vec![0b0000_1101]);
    assert_eq!(three.ssz_bytes_len(), 1);
    assert_eq!(ones.ssz_bytes_len(), 2);
    assert_eq!(BitList::<8>::from_ssz_bytes(&[0b0000_1101]), Ok(three));
    assert_eq!(BitList::<8>::from_ssz_bytes(&[0xff, 0x01]), Ok(ones));
    assert_eq!(BitList::<8>::from_ssz_bytes(&[0x01]), Ok(empty));
    assert!(!<BitList<8> as SszEncode>::is_ssz_static());
    assert_eq!(<BitList<8> as SszEncode>::ssz_fixed_len(), 4);
    assert_eq!(<BitList<8> as SszEncode>::ssz_max_len(), 5);
}

#[test]
fn bit_list_rejects_what_has_no_end_or_is_too_long() {
    assert!(matches!(BitList::<8>::from_ssz_bytes(&[]), Err(DecodeError::BytesInvalid(_))));
    assert!(matches!(BitList::<8>::from_ssz_bytes(&[0xff, 0x00]), Err(DecodeError::BytesInvalid(_))));
    // nine bits and the sentinel
    assert!(matches!(BitList::<8>::from_ssz_bytes(&[0xff, 0x03]), Err(DecodeError::BytesInvalid(_))));
    assert!(BitList::<8>::new(vec![false; 9]).is_none());
    assert!(BitList::<8>::with_capacity(9).is_none());
    let mut b = BitList::<8>::with_capacity(2).unwrap();
    assert!(!b.set(2, true));
    assert!(b.set(1, true));
    assert_eq!(b.get(1), Some(true));
    assert_eq!(b.get(0), Some(false));
    assert_eq!(b.get(2), None);
    assert_eq!(b.len(), 2);
}

#[test]
fn bit_list_writes_its_offset_into_the_header() {
    let three = BitList::<8>::new(vec![true, false, true]).unwrap();
    let mut offset: usize = 6;
    let mut buf: Vec<u8> = Vec::new();
    three.ssz_write_fixed(&mut offset, &mut buf);
    assert_eq!(buf, vec![6, 0, 0, 0]);
    assert_eq!(offset, 7);
    three.ssz_write_variable(&mut buf);
    assert_eq!(buf, vec![6, 0, 0, 0, 0b0000_1101]);
}

#[test]
fn bit_vector_packs_low_bit_first() {
    let v = BitVector::<10>::new(vec![true, false, false, false, false, false, false, false, true, true]).unwrap();
    assert_eq!(v.to_ssz(), vec![0x01, 0x03]);
    assert_eq!(<BitVector<10> as SszEncode>::ssz_fixed_len(), 2);
    assert_eq!(<BitVector<0> as SszEncode>::ssz_fixed_len(), 1);
    assert_eq!(<BitVector<8> as SszEncode>::ssz_fixed_len(), 1);
    assert_eq!(<BitVector<9> as SszDecode>::ssz_max_len(), 2);
    assert_eq!(BitVector::<10>::from_ssz_bytes(&[0x01, 0x03]), Ok(v));
    assert_eq!(v_len(), 10);
    assert!(BitVector::<10>::new(vec![true]).is_none());
    assert_eq!(BitVector::<0>::new(vec![]).unwrap().to_ssz(), vec![0]);
}

fn v_len() -> usize {
    BitVector::<10>::new(vec![false; 10]).unwrap().len()
}

#[test]
fn bit_vector_rejects_excess_bits_and_short_input() {
    assert!(matches!(
        BitVector::<10>::from_ssz_bytes(&[0x01, 0x04]),
        Err(DecodeError::BytesInvalid(_))
    ));
    assert_eq!(
        BitVector::<10>::from_ssz_bytes(&[0x01]),
        Err(DecodeError::InvalidByteLength { len: 1, expected: 2 })
    );
    assert!(matches!(BitVector::<0>::from_ssz_bytes(&[0x01]), Err(DecodeError::BytesInvalid(_))));
    assert!(BitVector::<0>::from_ssz_bytes(&[0x00]).is_ok());
    let v = BitVector::<3>::from_ssz_bytes(&[0b0000_0101]).unwrap();
    assert_eq!(v.get(0), Some(true));
    assert_eq!(v.get(1), Some(false));
    assert_eq!(v.get(2), Some(true));
    assert_eq!(v.get(3), None);
}
