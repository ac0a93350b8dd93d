use ethereum_types::H256;
use sszb::{CheckError, SszCheck, SszEncode, SszHash, VariableList};
use std::sync::Arc;

#[test]
fn scalar_roots_are_padded_serialisations() {
    let mut expected = [0u8; 32];
    expected[0] = 7;
    assert_eq!(7u8.hash_tree_root(), H256::from_slice(&expected));
    assert_eq!(7u64.hash_tree_root(), H256::from_slice(&expected));
    let mut two = [0u8; 32];
    two[0] = 0x34;
    two[1] = 0x12;
    assert_eq!(0x1234u16.hash_tree_root(), H256::from_slice(&two));
    assert_eq!(0x1234u32.hash_tree_root(), H256::from_slice(&two));
    assert_eq!(0x1234u128.hash_tree_root(), H256::from_slice(&two));
    let mut one = [0u8; 32];
    one[0] = 1;
    assert_eq!(true.hash_tree_root(), H256::from_slice(&one));
    assert_eq!(false.hash_tree_root(), H256::zero());
}

#[test]
fn checking_folds_every_failure_into_one() {
    assert_eq!(u16::check_ssz_bytes(&[1, 0]), Ok(1));
    assert_eq!(u16::check_ssz_bytes(&[1]), Err(CheckError::BytesInvalid));
    assert_eq!(bool::check_ssz_bytes(&[2]), Err(CheckError::BytesInvalid));
    let mut fixed: &[u8] = &[1, 0, 2];
    let mut variable: &[u8] = &[];
    assert_eq!(u16::ssz_check(&mut fixed, &mut variable), Ok(1));
    assert_eq!(fixed, &[2]);
    assert_eq!(
        VariableList::<u16, 1>::check_ssz_bytes(&[1, 0, 2, 0]),
        Err(CheckError::BytesInvalid)
    );
}

#[test]
fn shared_values_serialise_as_what_they_hold() {
    let list = Arc::new(VariableList::<u16, 4>::new(vec![1, 2]).unwrap());
    assert_eq!(list.to_ssz(), vec![1, 0, 2, 0]);
    assert_eq!(list.ssz_bytes_len(), 4);
    assert!(!<Arc<VariableList<u16, 4>> as SszEncode>::is_ssz_static());
    assert_eq!(<Arc<u32> as SszEncode>::ssz_fixed_len(), 4);
    assert_eq!(<Arc<u32> as SszEncode>::ssz_max_len(), 4);
    let mut offset: usize = 8;
    let mut buf: Vec<u8> = Vec::new();
    list.ssz_write_fixed(&mut offset, &mut buf);
    list.ssz_write_variable(&mut buf);
    assert_eq!(buf, vec![8, 0, 0, 0, 1, 0, 2, 0]);
    assert_eq!(offset, 12);
}
