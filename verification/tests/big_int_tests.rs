use num_bigint::BigUint;
use num_traits::{FromPrimitive, One};
use primegen::big_int::BigIntExt;

#[test]
fn test_bit_length() {
    let n = BigUint::from_u64(1023).unwrap(); // 10 bits
    assert_eq!(n.bit_length(), 10);
}

#[test]
fn test_even_odd() {
    let even = BigUint::from_u64(100).unwrap();
    let odd = BigUint::from_u64(101).unwrap();
    assert!(even.is_even());
    assert!(odd.is_odd());
}

#[test]
fn test_trailing_zeros() {
    let n = BigUint::from_u32(40).unwrap(); // 101000 -> 3 trailing zeros
    assert_eq!(BigIntExt::trailing_zeros(&n), 3u32);
}

#[test]
fn test_to_from_u64_digits() {
    let original = BigUint::from_u64(1234567890123456789).unwrap();
    let digits = original.to_u64_digits();
    let reconstructed = BigUint::from_u64_digits(&digits);
    assert_eq!(original, reconstructed);
}

#[test]
fn big_int_test_mod_pow() {
    let base = BigUint::from_u64(4).unwrap();
    let exp = BigUint::from_u64(13).unwrap();
    let modulus = BigUint::from_u64(497).unwrap();
    assert_eq!(
        base.mod_pow(&exp, &modulus),
        BigUint::from_u64(445).unwrap()
    );
}

#[test]
fn test_hamming_weight() {
    let n = BigUint::from_u64(0b101101).unwrap(); // 4 ones
    assert_eq!(n.hamming_weight(), 4);
}

#[test]
fn test_from_u64_digits_multi_digit() {
    // Two digits little-endian: low word 0, high word 1 is exactly 2^64.
    let digits = [0u64, 1u64];
    let n = BigUint::from_u64_digits(&digits);
    assert_eq!(n, BigUint::one() << 64u32);
}
