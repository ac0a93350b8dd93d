use sszb::fields::{Container, Fields, NoFields, Skipped};
use sszb::{round_trip, BitList, DecodeError, SszDecode, SszEncode, VariableList};

type Four = Container<
    Fields<u8, Fields<VariableList<u8, 4>, Fields<u16, Fields<VariableList<u16, 4>, NoFields>>>>,
>;

fn four(a: u8, b: Vec<u8>, c: u16, d: Vec<u16>) -> Four {
    Container {
        fields: Fields {
            first: a,
            rest: Fields {
                first: VariableList::new(b).unwrap(),
                rest: Fields {
                    first: c,
                    rest: Fields { first: VariableList::new(d).unwrap(), rest: NoFields },
                },
            },
        },
    }
}

#[test]
fn container_of_four_fields_has_one_flat_header() {
    let v = four(7, vec![1, 2, 3], 0x0102, vec![9]);
    let bytes = v.to_ssz();
    assert_eq!(
        bytes,
        vec![7, 11, 0, 0, 0, 2, 1, 14, 0, 0, 0, 1, 2, 3, 9, 0]
    );
    assert_eq!(v.ssz_bytes_len(), 16);
    assert!(!<Four as SszEncode>::is_ssz_static());
    assert_eq!(<Four as SszEncode>::ssz_fixed_len(), 4);
    assert_eq!(<Four as SszEncode>::ssz_max_len(), 1 + (4 + 4) + 2 + (4 + 8));
    assert_eq!(Four::from_ssz_bytes(&bytes), Ok(v.clone()));
    assert_eq!(round_trip(&v), Ok(v));
}

#[test]
fn container_of_four_fields_refuses_bad_headers() {
    assert_eq!(
        Four::from_ssz_bytes(&[7, 11, 0, 0]),
        Err(DecodeError::InvalidByteLength { len: 4, expected: 11 })
    );
    // the second offset lies before the first
    assert_eq!(
        Four::from_ssz_bytes(&[7, 14, 0, 0, 0, 2, 1, 11, 0, 0, 0, 1, 2, 3, 9, 0]),
        Err(DecodeError::OffsetsAreDecreasing(14))
    );
    // the first offset skips a byte behind the header
    assert_eq!(
        Four::from_ssz_bytes(&[7, 12, 0, 0, 0, 2, 1, 14, 0, 0, 0, 1, 2, 3, 9, 0]),
        Err(DecodeError::OffsetSkipsVariableBytes(12))
    );
    // the first offset points into the header: the payloads ask for more
    // bytes than lie behind the header
    assert_eq!(
        Four::from_ssz_bytes(&[7, 10, 0, 0, 0, 2, 1, 14, 0, 0, 0, 1, 2, 3, 9, 0]),
        Err(DecodeError::InvalidByteLength { len: 2, expected: 1 })
    );
}

#[test]
fn container_of_static_fields_is_static() {
    type Three = Container<Fields<u16, Fields<u32, Fields<bool, NoFields>>>>;
    let v: Three = Container {
        fields: Fields {
            first: 1,
            rest: Fields { first: 32, rest: Fields { first: true, rest: NoFields } },
        },
    };
    assert!(<Three as SszEncode>::is_ssz_static());
    assert_eq!(<Three as SszEncode>::ssz_fixed_len(), 7);
    assert_eq!(<Three as SszDecode>::ssz_max_len(), 7);
    assert_eq!(v.to_ssz(), vec![1, 0, 32, 0, 0, 0, 1]);
    assert_eq!(v.ssz_bytes_len(), 7);
    assert_eq!(Three::from_ssz_bytes(&[1, 0, 32, 0, 0, 0, 1, 99]), Ok(v.clone()));
    assert_eq!(
        Three::from_ssz_bytes(&[1, 0, 32]),
        Err(DecodeError::InvalidByteLength { len: 3, expected: 7 })
    );
    let mut fixed: &[u8] = &[1, 0, 32, 0, 0, 0, 1, 99];
    let mut variable: &[u8] = &[5];
    assert_eq!(Three::ssz_read(&mut fixed, &mut variable), Ok(v));
    assert_eq!(fixed, &[99]);
    assert_eq!(variable, &[5]);
}

#[test]
fn container_of_two_fields_is_the_pair() {
    type Two = Container<Fields<u16, Fields<BitList<8>, NoFields>>>;
    let bits = BitList::<8>::new(vec![true, true]).unwrap();
    let chained: Two =
        Container { fields: Fields { first: 2, rest: Fields { first: bits.clone(), rest: NoFields } } };
    let pair = (2u16, bits);
    assert_eq!(chained.to_ssz(), pair.to_ssz());
    assert_eq!(chained.to_ssz(), vec![2, 0, 6, 0, 0, 0, 0b0000_0111]);
    assert_eq!(<Two as SszEncode>::ssz_max_len(), <(u16, BitList<8>) as SszEncode>::ssz_max_len());
    let empty: Container<NoFields> = Container { fields: NoFields };
    assert_eq!(empty.to_ssz(), Vec::<u8>::new());
    assert_eq!(Container::<NoFields>::from_ssz_bytes(&[]), Ok(empty));
}

#[test]
fn skipped_field_is_not_written_and_reads_as_default() {
    type WithSkip = Container<Fields<u16, Skipped<u64, Fields<VariableList<u8, 4>, NoFields>>>>;
    let v: WithSkip = Container {
        fields: Fields {
            first: 5,
            rest: Skipped {
                first: 77,
                rest: Fields { first: VariableList::new(vec![1, 2]).unwrap(), rest: NoFields },
            },
        },
    };
    let bytes = v.to_ssz();
    assert_eq!(bytes, vec![5, 0, 6, 0, 0, 0, 1, 2]);
    assert_eq!(v.ssz_bytes_len(), 8);
    let back = WithSkip::from_ssz_bytes(&bytes).unwrap();
    assert_eq!(back.fields.first, 5);
    assert_eq!(back.fields.rest.first, 0);
    assert_eq!(back.fields.rest.rest.first.as_slice(), &[1, 2]);
}

#[test]
fn reading_a_dynamic_field_without_its_length_is_out_of_bounds() {
    type OneList = Fields<VariableList<u8, 4>, NoFields>;
    let mut fixed: &[u8] = &[4, 0, 0, 0];
    let mut variable: &[u8] = &[1, 2];
    assert_eq!(
        <OneList as sszb::SszFields>::read_fields(&mut fixed, &mut variable, &[]),
        Err(DecodeError::OutOfBoundsByte { i: 0 })
    );
    let got = <OneList as sszb::SszFields>::read_fields(&mut fixed, &mut variable, &[2]).unwrap();
    assert_eq!(got.first.as_slice(), &[1, 2]);
    assert_eq!(fixed.len(), 0);
    assert_eq!(variable.len(), 0);
    assert_eq!(<OneList as sszb::SszFields>::header_len(), Some(4));
    assert!(!<OneList as sszb::SszFields>::all_static());
    let mut layouts = Vec::new();
    <OneList as sszb::SszFields>::layouts(&mut layouts);
    assert_eq!(layouts.len(), 1);
    assert!(!layouts[0].is_static);
    assert_eq!(layouts[0].fixed_len, 4);
}

#[test]
fn one_field_is_taken_from_its_slot_or_its_payload() {
    let mut fixed: &[u8] = &[7, 0, 9, 0, 0, 0];
    let mut variable: &[u8] = &[1, 2, 3];
    assert_eq!(sszb::container_take_field::<u16>(&mut fixed, &mut variable, 0), Ok(7));
    assert_eq!(fixed, &[9, 0, 0, 0]);
    let list = sszb::container_take_field::<VariableList<u8, 4>>(&mut fixed, &mut variable, 2);
    assert_eq!(list.unwrap().as_slice(), &[1, 2]);
    assert_eq!(fixed.len(), 0);
    assert_eq!(variable, &[3]);
    let mut more_fixed: &[u8] = &[9, 0, 0, 0];
    assert_eq!(
        sszb::container_take_field::<VariableList<u8, 4>>(&mut more_fixed, &mut variable, 2),
        Err(DecodeError::InvalidByteLength { len: 2, expected: 1 })
    );
    let mut short: &[u8] = &[9, 0];
    assert_eq!(
        sszb::container_take_field::<VariableList<u8, 4>>(&mut short, &mut variable, 0),
        Err(DecodeError::InvalidLengthPrefix { len: 2, expected: 4 })
    );
}

#[test]
fn end_of_a_chain_writes_and_reads_nothing() {
    let mut offset: usize = 12;
    let mut buf: Vec<u8> = vec![1, 2];
    <NoFields as sszb::SszFields>::write_slots(&NoFields, &mut offset, &mut buf);
    <NoFields as sszb::SszFields>::write_payloads(&NoFields, &mut buf);
    assert_eq!(offset, 12);
    assert_eq!(buf, vec![1, 2]);
    let mut layouts = vec![sszb::FieldLayout { is_static: true, fixed_len: 2 }];
    <NoFields as sszb::SszFields>::layouts(&mut layouts);
    assert_eq!(layouts.len(), 1);
    let mut fixed: &[u8] = &[9, 8];
    let mut variable: &[u8] = &[7];
    assert_eq!(
        <NoFields as sszb::SszFields>::read_fields(&mut fixed, &mut variable, &[3]),
        Ok(NoFields)
    );
    assert_eq!(fixed, &[9, 8]);
    assert_eq!(variable, &[7]);
}

#[test]
fn reading_fields_moves_the_payload_cursor_past_what_was_taken() {
    type Chain = Fields<VariableList<u8, 4>, Fields<u16, Fields<VariableList<u8, 4>, NoFields>>>;
    let mut fixed: &[u8] = &[10, 0, 0, 0, 5, 0, 12, 0, 0, 0, 0xee];
    let mut variable: &[u8] = &[1, 2, 3, 4, 5];
    let got = <Chain as sszb::SszFields>::read_fields(&mut fixed, &mut variable, &[2, 1]).unwrap();
    assert_eq!(got.first.as_slice(), &[1, 2]);
    assert_eq!(got.rest.first, 5);
    assert_eq!(got.rest.rest.first.as_slice(), &[3]);
    assert_eq!(fixed, &[0xee]);
    assert_eq!(variable, &[4, 5]);
}
