use sszb::{
    container_offsets, round_trip, BitList, BitVector, FieldLayout, FixedVector, SszDecode,
    SszEncode, VariableList,
};

type Inner = VariableList<u16, 4>;

#[test]
fn values_come_back_from_their_bytes() {
    assert_eq!(round_trip(&0xabu8), Ok(0xab));
    assert_eq!(round_trip(&0xabcdu16), Ok(0xabcd));
    assert_eq!(round_trip(&u32::MAX), Ok(u32::MAX));
    assert_eq!(round_trip(&u64::MAX), Ok(u64::MAX));
    assert_eq!(round_trip(&u128::MAX), Ok(u128::MAX));
    assert_eq!(round_trip(&true), Ok(true));
    assert_eq!(round_trip(&[1u8, 2, 3]), Ok([1u8, 2, 3]));
    let bits = BitList::<16>::new(vec![true, false, true, true, false, false, false, false, true])
        .unwrap();
    assert_eq!(round_trip(&bits), Ok(bits));
    let vector = BitVector::<3>::new(vec![false, true, true]).unwrap();
    assert_eq!(round_trip(&vector), Ok(vector));
    let nested: VariableList<Inner, 3> = VariableList::new(vec![
        Inner::new(vec![1]).unwrap(),
        Inner::new(vec![]).unwrap(),
        Inner::new(vec![2, 3, 4, 5]).unwrap(),
    ])
    .unwrap();
    assert_eq!(round_trip(&nested), Ok(nested.clone()));
    let fixed: FixedVector<Inner, 2> =
        FixedVector::new(vec![Inner::new(vec![7]).unwrap(), Inner::new(vec![]).unwrap()]).unwrap();
    assert_eq!(round_trip(&fixed), Ok(fixed.clone()));
    let container = (nested, (fixed, 9u64));
    assert_eq!(round_trip(&container), Ok(container.clone()));
}

#[test]
fn reported_length_is_written_length() {
    let nested: VariableList<Inner, 3> =
        VariableList::new(vec![Inner::new(vec![1]).unwrap(), Inner::new(vec![2, 3]).unwrap()])
            .unwrap();
    assert_eq!(nested.to_ssz().len(), nested.ssz_bytes_len());
    assert_eq!(nested.ssz_bytes_len(), 14);
    let container = (1u8, nested);
    assert_eq!(container.to_ssz().len(), container.ssz_bytes_len());
    assert_eq!(container.ssz_bytes_len(), 19);
    let bits = BitList::<16>::new(vec![true; 8]).unwrap();
    assert_eq!(bits.to_ssz().len(), bits.ssz_bytes_len());
}

#[test]
fn static_values_have_the_fixed_length() {
    assert_eq!(0u64.ssz_bytes_len(), <u64 as SszEncode>::ssz_fixed_len());
    assert_eq!(u64::MAX.ssz_bytes_len(), <u64 as SszEncode>::ssz_fixed_len());
    let v = FixedVector::<u32, 5>::new(vec![1, 2, 3, 4, 5]).unwrap();
    assert!(<FixedVector<u32, 5> as SszEncode>::is_ssz_static());
    assert_eq!(v.ssz_bytes_len(), <FixedVector<u32, 5> as SszEncode>::ssz_fixed_len());
    assert_eq!(v.to_ssz().len(), 20);
    let pair = (v, BitVector::<9>::new(vec![true; 9]).unwrap());
    assert!(<(FixedVector<u32, 5>, BitVector<9>) as SszDecode>::is_ssz_static());
    assert_eq!(pair.to_ssz().len(), 22);
    assert_eq!(
        pair.ssz_bytes_len(),
        <(FixedVector<u32, 5>, BitVector<9>) as SszEncode>::ssz_fixed_len()
    );
}

#[test]
fn written_offsets_never_decrease() {
    let a = VariableList::<u8, 8>::new(vec![1, 2, 3]).unwrap();
    let b = VariableList::<u8, 8>::new(vec![]).unwrap();
    let bytes = (a, b).to_ssz();
    let fields = vec![
        FieldLayout { is_static: false, fixed_len: 4 },
        FieldLayout { is_static: false, fixed_len: 4 },
    ];
    let offsets = container_offsets(&bytes[..8], &fields);
    assert_eq!(offsets, vec![8, 11]);
    assert!(offsets[0] <= offsets[1]);
    assert!(offsets[1] <= bytes.len());
}
