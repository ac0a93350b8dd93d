use sszb::{
    ssz_decode_variable_length_items, DecodeError, FixedVector, SszDecode, SszEncode,
    TryFromIter, VariableList,
};

type Inner = VariableList<u16, 4>;
type Outer = VariableList<Inner, 3>;

fn inner(items: Vec<u16>) -> Inner {
    VariableList::new(items).unwrap()
}

#[test]
fn list_of_static_items_is_their_concatenation() {
    let list = VariableList::<u16, 10>::new((0..10).collect()).unwrap();
    let bytes = list.to_ssz();
    assert_eq!(
        bytes,
        vec![0, 0, 1, 0, 2, 0, 3, 0, 4, 0, 5, 0, 6, 0, 7, 0, 8, 0, 9, 0]
    );
    assert_eq!(list.ssz_bytes_len(), 20);
    assert_eq!(VariableList::<u16, 10>::from_ssz_bytes(&bytes), Ok(list));
    assert_eq!(<VariableList<u16, 10> as SszEncode>::ssz_max_len(), 20);
    assert_eq!(<VariableList<u16, 10> as SszEncode>::ssz_fixed_len(), 4);
    assert!(!<VariableList<u16, 10> as SszDecode>::is_ssz_static());
}

#[test]
fn empty_bytes_are_the_empty_list() {
    let empty = VariableList::<u16, 10>::empty();
    assert_eq!(empty.to_ssz(), Vec::<u8>::new());
    assert_eq!(VariableList::<u16, 10>::from_ssz_bytes(&[]), Ok(empty));
    assert_eq!(Outer::from_ssz_bytes(&[]), Ok(Outer::empty()));
}

#[test]
fn list_counts_its_items_against_its_bound() {
    assert!(matches!(
        VariableList::<u16, 2>::from_ssz_bytes(&[1, 0, 2, 0, 3, 0]),
        Err(DecodeError::BytesInvalid(_))
    ));
    assert!(VariableList::<u16, 2>::new(vec![1, 2, 3]).is_err());
    let mut l = VariableList::<u16, 2>::new(vec![1]).unwrap();
    assert!(l.push(2).is_ok());
    assert!(matches!(l.push(3), Err(DecodeError::BytesInvalid(_))));
    assert_eq!(l.len(), 2);
    assert_eq!(l.as_slice(), &[1, 2]);
    assert_eq!(VariableList::<u16, 2>::max_len(), 2);
    assert!(!l.is_empty());
    assert_eq!(l.into_vec(), vec![1, 2]);
}

#[test]
fn list_of_items_without_width_is_refused() {
    assert_eq!(
        VariableList::<[u8; 0], 4>::from_ssz_bytes(&[1]),
        Err(DecodeError::ZeroLengthItem)
    );
    assert_eq!(
        FixedVector::<[u8; 0], 4>::from_ssz_bytes(&[1]),
        Err(DecodeError::ZeroLengthItem)
    );
}

#[test]
fn list_of_static_items_passes_on_an_item_failure() {
    assert!(matches!(
        VariableList::<bool, 4>::from_ssz_bytes(&[1, 0, 2, 1]),
        Err(DecodeError::BytesInvalid(_))
    ));
    assert_eq!(
        VariableList::<bool, 4>::from_ssz_bytes(&[1, 0, 1]).unwrap().into_vec(),
        vec![true, false, true]
    );
}

#[test]
fn list_of_dynamic_items_has_offsets_then_payloads() {
    let outer: Outer = VariableList::new(vec![inner(vec![1, 2]), inner(vec![]), inner(vec![3])]).unwrap();
    let bytes = outer.to_ssz();
    assert_eq!(
        bytes,
        vec![12, 0, 0, 0, 16, 0, 0, 0, 16, 0, 0, 0, 1, 0, 2, 0, 3, 0]
    );
    assert_eq!(outer.ssz_bytes_len(), 18);
    assert_eq!(Outer::from_ssz_bytes(&bytes), Ok(outer));
    assert_eq!(<Outer as SszEncode>::ssz_max_len(), 3 * 8 + 3 * 4);
}

#[test]
fn list_of_one_empty_item_round_trips() {
    let outer: Outer = VariableList::new(vec![inner(vec![])]).unwrap();
    assert_eq!(outer.to_ssz(), vec![4, 0, 0, 0]);
    assert_eq!(Outer::from_ssz_bytes(&[4, 0, 0, 0]), Ok(outer));
}

#[test]
fn list_of_dynamic_items_checks_its_first_offset() {
    assert_eq!(
        Outer::from_ssz_bytes(&[1, 2]),
        Err(DecodeError::InvalidLengthPrefix { len: 2, expected: 4 })
    );
    assert_eq!(
        Outer::from_ssz_bytes(&[9, 0, 0, 0, 1, 0]),
        Err(DecodeError::OffsetOutOfBounds(9))
    );
    assert_eq!(
        Outer::from_ssz_bytes(&[6, 0, 0, 0, 1, 0]),
        Err(DecodeError::InvalidListFixedBytesLen(6))
    );
    assert_eq!(
        Outer::from_ssz_bytes(&[0, 0, 0, 0, 1, 0]),
        Err(DecodeError::InvalidListFixedBytesLen(0))
    );
    // four offsets for a list of at most three
    let four = vec![16, 0, 0, 0, 16, 0, 0, 0, 16, 0, 0, 0, 16, 0, 0, 0];
    assert!(matches!(Outer::from_ssz_bytes(&four), Err(DecodeError::BytesInvalid(_))));
}

#[test]
fn list_of_dynamic_items_checks_every_window() {
    // the second offset lies before the first
    assert_eq!(
        Outer::from_ssz_bytes(&[8, 0, 0, 0, 7, 0, 0, 0, 1, 0]),
        Err(DecodeError::OffsetsAreDecreasing(8))
    );
    // the first item would reach behind the end
    assert_eq!(
        Outer::from_ssz_bytes(&[8, 0, 0, 0, 11, 0, 0, 0, 1, 0]),
        Err(DecodeError::InvalidByteLength { len: 3, expected: 2 })
    );
}

#[test]
fn window_items_are_carved_from_the_payload() {
    let offsets: Vec<u8> = vec![8, 0, 0, 0, 10, 0, 0, 0];
    let payload: Vec<u8> = vec![1, 0, 2, 0, 3, 0];
    let mut items: &[u8] = &payload;
    let got: Result<VariableList<Inner, 3>, DecodeError> =
        ssz_decode_variable_length_items::<Inner, VariableList<Inner, 3>>(&offsets, &mut items);
    assert_eq!(got.unwrap().into_vec(), vec![inner(vec![1]), inner(vec![2, 3])]);
    assert_eq!(items.len(), 0);

    // an item longer than what is left
    let long: Vec<u8> = vec![0, 0, 0, 0];
    let mut short_items: &[u8] = &[1, 0];
    let failed: Result<VariableList<Inner, 3>, DecodeError> =
        ssz_decode_variable_length_items::<Inner, VariableList<Inner, 3>>(&long, &mut short_items);
    assert_eq!(failed, Err(DecodeError::InvalidByteLength { len: 6, expected: 2 }));

    // more items than the collection takes
    let mut none: &[u8] = &[];
    let two: Vec<u8> = vec![8, 0, 0, 0, 8, 0, 0, 0];
    let full: Result<VariableList<Inner, 1>, DecodeError> =
        ssz_decode_variable_length_items::<Inner, VariableList<Inner, 1>>(&two, &mut none);
    assert!(matches!(full, Err(DecodeError::BytesInvalid(_))));
}

#[test]
fn try_from_iter_checks_the_count() {
    assert!(<VariableList<u8, 2> as TryFromIter<u8>>::try_from_iter(vec![1, 2]).is_ok());
    assert!(<VariableList<u8, 2> as TryFromIter<u8>>::try_from_iter(vec![1, 2, 3]).is_err());
    assert!(<FixedVector<u8, 2> as TryFromIter<u8>>::try_from_iter(vec![1, 2]).is_ok());
    assert!(<FixedVector<u8, 2> as TryFromIter<u8>>::try_from_iter(vec![1]).is_err());
}

#[test]
fn vector_of_static_items_is_static() {
    type V = FixedVector<u16, 3>;
    let v = V::new(vec![1, 2, 3]).unwrap();
    assert!(<V as SszEncode>::is_ssz_static());
    assert_eq!(<V as SszEncode>::ssz_fixed_len(), 6);
    assert_eq!(<V as SszDecode>::ssz_max_len(), 6);
    assert_eq!(v.ssz_bytes_len(), 6);
    assert_eq!(v.to_ssz(), vec![1, 0, 2, 0, 3, 0]);
    assert_eq!(V::from_ssz_bytes(&[1, 0, 2, 0, 3, 0]), Ok(v));
    assert!(matches!(V::from_ssz_bytes(&[1, 0, 2, 0, 3]), Err(DecodeError::BytesInvalid(_))));
    assert!(matches!(V::from_ssz_bytes(&[]), Err(DecodeError::BytesInvalid(_))));
    assert!(V::new(vec![1, 2]).is_err());
    assert_eq!(V::capacity(), 3);
    let mut fixed: &[u8] = &[1, 0, 2, 0, 3, 0, 9];
    let mut variable: &[u8] = &[];
    let read = V::ssz_read(&mut fixed, &mut variable).unwrap();
    assert_eq!(read.as_slice(), &[1, 2, 3]);
    assert_eq!(fixed, &[9]);
    assert_eq!(FixedVector::<u16, 0>::from_ssz_bytes(&[]).unwrap().len(), 0);
}

#[test]
fn vector_of_dynamic_items_is_dynamic() {
    type V = FixedVector<Inner, 2>;
    let v = V::new(vec![inner(vec![5]), inner(vec![6, 7])]).unwrap();
    assert!(!<V as SszEncode>::is_ssz_static());
    assert_eq!(<V as SszEncode>::ssz_fixed_len(), 4);
    let bytes = v.to_ssz();
    assert_eq!(bytes, vec![8, 0, 0, 0, 10, 0, 0, 0, 5, 0, 6, 0, 7, 0]);
    assert_eq!(v.ssz_bytes_len(), 14);
    assert_eq!(V::from_ssz_bytes(&bytes), Ok(v.clone()));
    let mut offset: usize = 100;
    let mut buf: Vec<u8> = Vec::new();
    v.ssz_write_fixed(&mut offset, &mut buf);
    assert_eq!(buf, vec![100, 0, 0, 0]);
    assert_eq!(offset, 114);
    assert!(matches!(V::from_ssz_bytes(&[]), Err(DecodeError::BytesInvalid(_))));
    assert_eq!(
        V::from_ssz_bytes(&[8, 0, 0, 0]),
        Err(DecodeError::InvalidByteLength { len: 4, expected: 8 })
    );
    assert_eq!(
        V::from_ssz_bytes(&[4, 0, 0, 0, 10, 0, 0, 0, 5, 0]),
        Err(DecodeError::OffsetIntoFixedPortion(4))
    );
    assert_eq!(
        V::from_ssz_bytes(&[9, 0, 0, 0, 10, 0, 0, 0, 5, 0]),
        Err(DecodeError::OffsetSkipsVariableBytes(9))
    );
}

#[test]
fn items_can_be_read_against_a_bound_given_at_run_time() {
    let got: Vec<u16> = sszb::read_list_items::<u16>(&[1, 0, 2, 0], 2).unwrap();
    assert_eq!(got, vec![1, 2]);
    assert!(sszb::read_list_items::<u16>(&[1, 0, 2, 0], 1).is_err());
    let fixed: Vec<u16> = sszb::read_vector_items::<u16>(&[1, 0, 2, 0, 9], 2).unwrap();
    assert_eq!(fixed, vec![1, 2]);
    let mut buf: Vec<u8> = Vec::new();
    sszb::write_items(&[3u16, 4u16], &mut buf);
    assert_eq!(buf, vec![3, 0, 4, 0]);
    assert_eq!(sszb::items_bytes_len(&[3u16, 4u16]), 4);
    assert_eq!(sszb::sequence_max_len(true, 2, 2, 10), 20);
    assert_eq!(sszb::sequence_max_len(false, 4, 9, 10), 130);
    assert_eq!(sszb::sequence_max_len(true, usize::MAX, 2, 2), usize::MAX);
}

#[test]
fn nothing_left_to_decode_gives_no_items() {
    let mut items: &[u8] = &[];
    let got: Result<VariableList<Inner, 3>, DecodeError> =
        ssz_decode_variable_length_items::<Inner, VariableList<Inner, 3>>(&[], &mut items);
    assert_eq!(got.unwrap().len(), 0);
    let mut more: &[u8] = &[];
    let none: Result<FixedVector<Inner, 3>, DecodeError> =
        ssz_decode_variable_length_items::<Inner, FixedVector<Inner, 3>>(&[], &mut more);
    assert!(matches!(none, Err(DecodeError::BytesInvalid(_))));
}
