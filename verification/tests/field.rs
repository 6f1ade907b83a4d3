use zkevm_circuits::field::Fe;
use zkevm_circuits::witness::calldata_byte_gas_cost;
use zkevm_circuits::witness::calldata_gas_cost;
use zkevm_circuits::witness::get_rlp_len_tag_length;
use zkevm_circuits::witness::is_zero;
use zkevm_circuits::witness::rlc_be_bytes;
use zkevm_circuits::witness::tag_length;
use zkevm_circuits::witness::to_scalar;
use zkevm_circuits::witness::u64_to_be_bytes;

#[test]
fn sum_of_small_elements() {
    let a = Fe::from_u64(5);
    let b = Fe::from_u64(7);
    assert_eq!(a.add(&b), Fe::from_u64(12));
    assert_ne!(a.add(&b), a);
}

#[test]
fn sum_wraps_at_the_modulus() {
    // The modulus less one, as zero less one.
    let minus_one = Fe::zero().sub(&Fe::one());
    assert_eq!(minus_one.add(&Fe::one()), Fe::zero());
    assert_eq!(minus_one.add(&Fe::from_u64(3)), Fe::from_u64(2));
}

#[test]
fn difference_of_small_elements() {
    let a = Fe::from_u64(12);
    let b = Fe::from_u64(7);
    assert_eq!(a.sub(&b), Fe::from_u64(5));
    assert_eq!(b.sub(&a).add(&a), b);
    assert_ne!(a.sub(&b), a);
}

#[test]
fn product_of_small_elements() {
    let a = Fe::from_u64(6);
    let b = Fe::from_u64(7);
    assert_eq!(a.mul(&b), Fe::from_u64(42));
    assert_ne!(a.mul(&b), a);
    let big = Fe::from_u64(u64::MAX);
    // (2^64 - 1)^2 = 2^128 - 2^65 + 1
    let two_64 = big.add(&Fe::one());
    let expected = two_64.mul(&two_64).sub(&two_64).sub(&two_64).add(&Fe::one());
    assert_eq!(big.mul(&big), expected);
}

#[test]
fn negation_is_the_additive_inverse() {
    let a = Fe::from_u64(1234567);
    assert_eq!(a.neg().add(&a), Fe::zero());
    assert_eq!(Fe::zero().neg(), Fe::zero());
}

#[test]
fn inverse_of_two() {
    let two = Fe::from_u64(2);
    let inv = two.invert().unwrap();
    assert_eq!(inv.mul(&two), Fe::one());
    assert_ne!(inv, two);
    assert_eq!(two.invert_or_zero(), inv);
}

#[test]
fn zero_has_no_inverse() {
    assert!(Fe::zero().invert().is_none());
    assert_eq!(Fe::zero().invert_or_zero(), Fe::zero());
}

#[test]
fn booleans_and_zero_test() {
    assert_eq!(Fe::from_bool(true), Fe::one());
    assert_eq!(Fe::from_bool(false), Fe::zero());
    assert!(Fe::zero().is_zero());
    assert!(!Fe::one().is_zero());
}

#[test]
fn order_and_low_bits() {
    let a = Fe::from_u64(3);
    let b = Fe::from_u64(4);
    assert!(a.lt(&b));
    assert!(!b.lt(&a));
    assert!(!a.lt(&a));
    let two_64 = Fe::from_u64(u64::MAX).add(&Fe::one());
    assert!(b.lt(&two_64));
    assert_eq!(two_64.low_u64(), 0);
    assert_eq!(two_64.to_u64(), None);
    assert_eq!(b.to_u64(), Some(4));
    assert_eq!(two_64.add(&b).low_u64(), 4);
}

#[test]
fn gas_cost_of_a_byte() {
    assert_eq!(calldata_byte_gas_cost(0), 4);
    assert_eq!(calldata_byte_gas_cost(1), 16);
    assert_eq!(calldata_byte_gas_cost(255), 16);
}

#[test]
fn gas_cost_of_calldata() {
    assert_eq!(calldata_gas_cost(&vec![]), Some(0));
    assert_eq!(calldata_gas_cost(&vec![0x00, 0x01]), Some(20));
    assert_eq!(calldata_gas_cost(&vec![0, 0, 0]), Some(12));
    assert_eq!(calldata_gas_cost(&vec![7, 0, 9, 0]), Some(40));
}

#[test]
fn zero_test_of_integers() {
    assert!(is_zero(0));
    assert!(!is_zero(1));
    assert!(!is_zero(u64::MAX));
}

#[test]
fn fingerprint_in_base_256_is_the_number() {
    let base = Fe::from_u64(256);
    assert_eq!(rlc_be_bytes(&[1, 2, 3], &base), Fe::from_u64(0x010203));
    assert_eq!(rlc_be_bytes(&[], &base), Fe::zero());
    assert_eq!(to_scalar(&[0, 0, 1, 0]), Fe::from_u64(256));
}

#[test]
fn fingerprint_is_a_horner_fold() {
    let r = Fe::from_u64(1000);
    // ((5 * r) + 6) * r + 7
    assert_eq!(rlc_be_bytes(&[5, 6, 7], &r), Fe::from_u64(5_006_007));
    // Leading zeros do not count.
    assert_eq!(rlc_be_bytes(&[0, 0, 5, 6, 7], &r), Fe::from_u64(5_006_007));
}

#[test]
fn bytes_of_an_integer() {
    assert_eq!(u64_to_be_bytes(0x0102030405060708), [1, 2, 3, 4, 5, 6, 7, 8]);
    assert_eq!(u64_to_be_bytes(0), [0; 8]);
    assert_eq!(u64_to_be_bytes(258), [0, 0, 0, 0, 0, 0, 1, 2]);
}

#[test]
fn length_of_an_encoded_value() {
    assert_eq!(tag_length(&u64_to_be_bytes(0)), 1);
    assert_eq!(tag_length(&u64_to_be_bytes(1)), 1);
    assert_eq!(tag_length(&u64_to_be_bytes(255)), 1);
    assert_eq!(tag_length(&u64_to_be_bytes(256)), 2);
    assert_eq!(tag_length(&u64_to_be_bytes(u64::MAX)), 8);
    assert_eq!(tag_length(&[0u8; 32]), 1);
}

#[test]
fn length_of_the_length_of_an_encoding() {
    assert_eq!(get_rlp_len_tag_length(&vec![]), 0);
    assert_eq!(get_rlp_len_tag_length(&vec![0xc0]), 1);
    assert_eq!(get_rlp_len_tag_length(&vec![0xf7, 1, 2]), 1);
    assert_eq!(get_rlp_len_tag_length(&vec![0xf8, 0x40]), 2);
    assert_eq!(get_rlp_len_tag_length(&vec![0xf9, 0x01, 0x00]), 3);
}
