use evm_diff::primitives::{keccak_empty, Address, KeyOrder, B256, U256};

#[test]
fn empty_code_hash_is_keccak_of_nothing() {
    let expected = alloy_primitives::keccak256([0u8; 0]);
    assert_eq!(keccak_empty().bytes, expected.0);
    assert_eq!(keccak_empty().bytes[0], 0xc5);
    assert_eq!(keccak_empty().bytes[31], 0x70);
}

#[test]
fn slot_number_is_filed_big_endian() {
    let word = B256::from_u256(U256::from_u64(0x0102));
    let mut expected = [0u8; 32];
    expected[30] = 0x01;
    expected[31] = 0x02;
    assert_eq!(word.bytes, expected);
}

#[test]
fn every_limb_lands_in_its_eight_bytes() {
    let value = U256 {
        limbs: [0x1122334455667788, 0x99aabbccddeeff00, 0x0123456789abcdef, 0xfedcba9876543210],
    };
    let word = B256::from_u256(value);
    assert_eq!(&word.bytes[0..8], &[0xfe, 0xdc, 0xba, 0x98, 0x76, 0x54, 0x32, 0x10]);
    assert_eq!(&word.bytes[8..16], &[0x01, 0x23, 0x45, 0x67, 0x89, 0xab, 0xcd, 0xef]);
    assert_eq!(&word.bytes[16..24], &[0x99, 0xaa, 0xbb, 0xcc, 0xdd, 0xee, 0xff, 0x00]);
    assert_eq!(&word.bytes[24..32], &[0x11, 0x22, 0x33, 0x44, 0x55, 0x66, 0x77, 0x88]);
}

#[test]
fn zero_is_zero() {
    assert!(U256::zero().is_zero());
    assert!(U256::from_u64(0).is_zero());
    assert!(!U256::from_u64(1).is_zero());
    assert!(!U256 { limbs: [0, 0, 0, 1] }.is_zero());
    assert_eq!(B256::zero().bytes, [0u8; 32]);
}

#[test]
fn words_compare_byte_by_byte() {
    let low = B256::from_u256(U256::from_u64(1));
    let high = B256::from_u256(U256::from_u64(256));
    assert_eq!(low.compare(&high), KeyOrder::Less);
    assert_eq!(high.compare(&low), KeyOrder::Greater);
    assert_eq!(low.compare(&low), KeyOrder::Equal);
    assert_eq!(B256::repeat_byte(0xff).compare(&B256::zero()), KeyOrder::Greater);
}

#[test]
fn equality_is_by_content() {
    assert_eq!(Address::repeat_byte(0xaa), Address { bytes: [0xaa; 20] });
    assert_ne!(Address::repeat_byte(0xaa), Address::repeat_byte(0xab));
    assert_eq!(U256::from_u64(7), U256 { limbs: [7, 0, 0, 0] });
    assert_ne!(U256::from_u64(7), U256 { limbs: [7, 0, 0, 1] });
    assert_ne!(B256::repeat_byte(1), B256::zero());
}
