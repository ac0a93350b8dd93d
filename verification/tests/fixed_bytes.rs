use alloy_primitives::{Address, Bloom, U128, U256};
use ethereum_types::{H160, H256, H32};
use sszb::{DecodeError, SszDecode, SszEncode, VariableList};

#[test]
fn address_is_its_twenty_bytes() {
    let mut raw = [0u8; 20];
    for (i, b) in raw.iter_mut().enumerate() {
        *b = i as u8 + 1;
    }
    let a = Address::from(raw);
    assert_eq!(a.to_ssz(), raw.to_vec());
    assert_eq!(Address::from_ssz_bytes(&raw), Ok(a));
    assert_eq!(<Address as SszEncode>::ssz_fixed_len(), 20);
    assert_eq!(
        Address::from_ssz_bytes(&raw[..19]),
        Err(DecodeError::InvalidByteLength { len: 19, expected: 20 })
    );
}

#[test]
fn bloom_is_its_256_bytes() {
    let mut raw = [0u8; 256];
    raw[0] = 1;
    raw[255] = 2;
    let b = Bloom::from_slice(&raw);
    assert_eq!(b.to_ssz(), raw.to_vec());
    assert_eq!(Bloom::from_ssz_bytes(&raw), Ok(b));
    assert_eq!(b.ssz_bytes_len(), 256);
}

#[test]
fn wide_numbers_are_little_endian() {
    let n = U256::from(0x0102u64);
    let mut expected = vec![0u8; 32];
    expected[0] = 0x02;
    expected[1] = 0x01;
    assert_eq!(n.to_ssz(), expected);
    assert_eq!(U256::from_ssz_bytes(&expected), Ok(n));
    let m = U128::from(0x0a0b0cu64);
    let mut expected_m = vec![0u8; 16];
    expected_m[0] = 0x0c;
    expected_m[1] = 0x0b;
    expected_m[2] = 0x0a;
    assert_eq!(m.to_ssz(), expected_m);
    assert_eq!(U128::from_ssz_bytes(&expected_m), Ok(m));
    assert_eq!(
        U128::from_ssz_bytes(&[1, 2, 3]),
        Err(DecodeError::InvalidByteLength { len: 3, expected: 16 })
    );
}

#[test]
fn hashes_are_their_bytes() {
    let h = H32::from_slice(&[1, 2, 3, 4]);
    assert_eq!(h.to_ssz(), vec![1, 2, 3, 4]);
    assert_eq!(H32::from_ssz_bytes(&[1, 2, 3, 4, 5]), Ok(h));
    let mut raw20 = [0u8; 20];
    raw20[3] = 7;
    let h160 = H160::from_slice(&raw20);
    assert_eq!(h160.to_ssz(), raw20.to_vec());
    assert_eq!(H160::from_ssz_bytes(&raw20), Ok(h160));
    let mut raw32 = [0u8; 32];
    raw32[31] = 9;
    let h256 = H256::from_slice(&raw32);
    assert_eq!(h256.to_ssz(), raw32.to_vec());
    assert_eq!(H256::from_ssz_bytes(&raw32), Ok(h256));
    assert_eq!(<H256 as SszDecode>::ssz_max_len(), 32);
}

#[test]
fn list_of_hashes_round_trips() {
    let a = H32::from_slice(&[1, 2, 3, 4]);
    let b = H32::from_slice(&[5, 6, 7, 8]);
    let list = VariableList::<H32, 4>::new(vec![a, b]).unwrap();
    let bytes = list.to_ssz();
    assert_eq!(bytes, vec![1, 2, 3, 4, 5, 6, 7, 8]);
    assert_eq!(VariableList::<H32, 4>::from_ssz_bytes(&bytes), Ok(list));
}

#[test]
fn bytes_of_outside_values_can_be_borrowed() {
    let h = H32::from_slice(&[1, 2, 3, 4]);
    assert_eq!(sszb::fixed_bytes::h32_bytes(&h), &[1, 2, 3, 4]);
    let n = U128::from(1u64);
    assert_eq!(sszb::fixed_bytes::big_u128_bytes(&n)[0], 1);
    assert_eq!(sszb::fixed_bytes::big_u128_bytes(&n).len(), 16);
    let mut raw20 = [0u8; 20];
    raw20[19] = 3;
    assert_eq!(sszb::fixed_bytes::address_bytes(&Address::from(raw20)), &raw20);
    assert_eq!(sszb::fixed_bytes::h160_bytes(&H160::from_slice(&raw20)), &raw20);
    let mut raw32 = [0u8; 32];
    raw32[0] = 4;
    assert_eq!(sszb::fixed_bytes::h256_bytes(&H256::from_slice(&raw32)), &raw32);
    assert_eq!(sszb::fixed_bytes::u256_bytes(&U256::from(4u64)), &raw32);
    let raw256 = [6u8; 256];
    assert_eq!(sszb::fixed_bytes::bloom_bytes(&Bloom::from_slice(&raw256)), &raw256);
}
