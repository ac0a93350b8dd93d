use sszb::{BitList, DecodeError, SszDecode, SszEncode, VariableList};
use std::fmt::Debug;

fn assert_encode<T: SszEncode>(item: &T, bytes: &[u8]) {
    assert_eq!(SszEncode::to_ssz(item), bytes);
}

fn assert_decode<T: SszEncode + SszDecode + PartialEq + Debug>(item: &T, bytes: &[u8]) {
    assert_eq!(<T as SszDecode>::from_ssz_bytes(bytes).unwrap(), *item);
}

fn assert_encode_decode<T: SszEncode + SszDecode + PartialEq + Debug>(item: &T, bytes: &[u8]) {
    assert_encode(item, bytes);
    assert_eq!(<T as SszDecode>::from_ssz_bytes(bytes).unwrap(), *item);
}

// a container of two static fields
type VariableA = (u16, u32);

const N: u16 = 10;

// a container of a static and a dynamic field
type VariableB = (u16, VariableList<u16, 10>);

type VariableC = (u16, BitList8);

type BitList8 = BitList<8>;

#[test]
fn struct_tests() {
    let var_a: VariableA = (1, 32);

    let bytes = SszEncode::to_ssz(&var_a);
    assert_encode(&var_a, &bytes);
    assert_decode(&var_a, &bytes);
    assert_encode_decode(&var_a, &bytes);

    let list = VariableList::<u16, 10>::new((0..N).collect()).unwrap();
    let list_bytes = SszEncode::to_ssz(&list);
    assert_encode(&list, &list_bytes);
    assert_decode(&list, &list_bytes);
    assert_encode_decode(&list, &list_bytes);

    let btlst = BitList8::with_capacity(8).unwrap();
    let btlst_bytes = SszEncode::to_ssz(&btlst);
    assert_encode(&btlst, &btlst_bytes);
    assert_decode(&btlst, &btlst_bytes);
    assert_encode_decode(&btlst, &btlst_bytes);

    let var_b: VariableB = (2, list);
    let bytes = SszEncode::to_ssz(&var_b);

    assert_encode(&var_b, &bytes);
    assert_decode(&var_b, &bytes);
    assert_encode_decode(&var_b, &bytes);

    let var_c: VariableC = (2, btlst);
    let bytes_c = SszEncode::to_ssz(&var_c);

    assert_encode(&var_c, &bytes_c);
    assert_decode(&var_c, &bytes_c);
    assert_encode_decode(&var_c, &bytes_c);

    assert_eq!(
        BitList8::with_capacity(8).unwrap().to_ssz(),
        vec![0b0000_0000, 0b0000_0001],
    );

    let mut b = BitList8::with_capacity(8).unwrap();
    for i in 0..8 {
        assert!(b.set(i, true));
    }
    assert_eq!(b.to_ssz(), vec![255, 0b0000_0001]);
}

#[test]
fn test_empty_var_b() {
    assert_eq!(
        VariableB::from_ssz_bytes(&[]).is_err_and(|e| e
            == DecodeError::InvalidByteLength {
                len: 0,
                expected: 6
            }),
        true
    );
}

#[test]
fn test_bad_offset_var_b() {
    let bytes = vec![
        2, 0, 89, 0, 0, 0, 0, 0, 1, 0, 2, 0, 3, 0, 4, 0, 5, 0, 6, 0, 7, 0, 8, 0, 9, 0,
    ];
    assert_eq!(
        VariableB::from_ssz_bytes(&bytes)
            .is_err_and(|e| e == DecodeError::OffsetsAreDecreasing(89)),
        true
    );
}

#[test]
fn test_invalid_length_var_b() {
    let bytes = vec![0, 0, 0, 0, 0, 0, 0, 0, 1, 0, 2, 0, 3, 0, 4, 0];
    assert_eq!(
        VariableB::from_ssz_bytes(&bytes).is_err_and(|e| e
            == DecodeError::InvalidByteLength {
                len: 16,
                expected: 10
            }),
        true
    );
}

#[test]
fn container_of_static_fields_is_its_fields_in_order() {
    let var_a: VariableA = (1, 32);
    assert_eq!(var_a.to_ssz(), vec![0x01, 0x00, 0x20, 0x00, 0x00, 0x00]);
    assert_eq!(var_a.ssz_bytes_len(), 6);
    assert!(<VariableA as SszEncode>::is_ssz_static());
    assert_eq!(<VariableA as SszEncode>::ssz_fixed_len(), 6);
    assert_eq!(VariableA::from_ssz_bytes(&[1, 0, 32, 0, 0, 0]), Ok((1, 32)));
}

#[test]
fn container_with_a_list_has_header_then_tail() {
    let list = VariableList::<u16, 10>::new((0..N).collect()).unwrap();
    let var_b: VariableB = (2, list);
    let expected: Vec<u8> = vec![
        0x02, 0x00, 0x06, 0x00, 0x00, 0x00, 0, 0, 1, 0, 2, 0, 3, 0, 4, 0, 5, 0, 6, 0, 7, 0, 8, 0,
        9, 0,
    ];
    assert_eq!(var_b.to_ssz(), expected);
    assert_eq!(var_b.ssz_bytes_len(), 26);
    assert!(!<VariableB as SszEncode>::is_ssz_static());
    assert_eq!(<VariableB as SszEncode>::ssz_fixed_len(), 4);
    assert_eq!(VariableB::from_ssz_bytes(&expected), Ok(var_b));
}

#[test]
fn container_rejects_a_first_offset_that_skips_bytes() {
    // the payload starts at 6, the offset says 8
    let bytes = vec![2, 0, 8, 0, 0, 0, 0xaa, 0xbb, 1, 0];
    assert_eq!(
        VariableB::from_ssz_bytes(&bytes),
        Err(DecodeError::OffsetSkipsVariableBytes(8))
    );
}

#[test]
fn container_of_two_dynamic_fields_round_trips() {
    type Two = (VariableList<u8, 4>, VariableList<u16, 4>);
    let v: Two = (
        VariableList::new(vec![7, 8, 9]).unwrap(),
        VariableList::new(vec![0x0102, 0x0304]).unwrap(),
    );
    let bytes = v.to_ssz();
    assert_eq!(bytes, vec![8, 0, 0, 0, 11, 0, 0, 0, 7, 8, 9, 2, 1, 4, 3]);
    assert_eq!(Two::from_ssz_bytes(&bytes), Ok(v));
    // the second offset lies before the first
    let bad = vec![11, 0, 0, 0, 8, 0, 0, 0, 7, 8, 9, 2, 1, 4, 3];
    assert_eq!(Two::from_ssz_bytes(&bad), Err(DecodeError::OffsetsAreDecreasing(11)));
}

#[test]
fn writing_twice_gives_the_same_bytes() {
    let list = VariableList::<u16, 10>::new((0..N).collect()).unwrap();
    let var_b: VariableB = (2, list);
    let mut sink_a: Vec<u8> = Vec::new();
    let mut sink_b: Vec<u8> = vec![0xff];
    var_b.ssz_write(&mut sink_a);
    var_b.ssz_write(&mut sink_b);
    assert_eq!(sink_a[..], sink_b[1..]);
    let mut sink_c: Vec<u8> = Vec::new();
    var_b.to_ssz_with_vec(&mut sink_c);
    assert_eq!(sink_a, sink_c);
}

#[test]
fn container_bound_counts_the_slots_of_dynamic_fields() {
    assert_eq!(<VariableA as SszEncode>::ssz_max_len(), 6);
    assert_eq!(<VariableB as SszEncode>::ssz_max_len(), 26);
    assert_eq!(<VariableB as SszDecode>::ssz_max_len(), 26);
    let full = VariableList::<u16, 10>::new((0..N).collect()).unwrap();
    let var_b: VariableB = (2, full);
    assert!(var_b.ssz_bytes_len() <= <VariableB as SszEncode>::ssz_max_len());
}

#[test]
fn nested_containers_round_trip() {
    type Inner = (u8, VariableList<u8, 3>);
    type Outer = (Inner, (u16, u16));
    let v: Outer = ((9, VariableList::new(vec![1, 2]).unwrap()), (3, 4));
    let bytes = v.to_ssz();
    // the slot of the inner container, the two numbers, then the inner container
    assert_eq!(bytes, vec![8, 0, 0, 0, 3, 0, 4, 0, 9, 5, 0, 0, 0, 1, 2]);
    assert_eq!(v.ssz_bytes_len(), bytes.len());
    assert_eq!(Outer::from_ssz_bytes(&bytes), Ok(v));
}

#[test]
fn static_container_reads_from_the_fixed_cursor() {
    let mut fixed: &[u8] = &[1, 0, 32, 0, 0, 0, 7];
    let mut variable: &[u8] = &[];
    assert_eq!(VariableA::ssz_read(&mut fixed, &mut variable), Ok((1, 32)));
    assert_eq!(fixed, &[7]);
    assert_eq!(
        VariableA::from_ssz_bytes(&[1, 0, 32]),
        Err(DecodeError::InvalidByteLength { len: 3, expected: 6 })
    );
}
