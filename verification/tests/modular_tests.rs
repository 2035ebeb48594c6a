use num_bigint::BigUint;
use num_traits::FromPrimitive;
use primegen::modular::{extended_gcd, is_power_of_two, ModularArithmetic};

#[test]
fn test_mod_add() {
    let a = BigUint::from_u64(5).unwrap();
    let b = BigUint::from_u64(7).unwrap();
    let m = BigUint::from_u64(10).unwrap();
    assert_eq!(a.mod_add(&b, &m), BigUint::from(2u32));
}

#[test]
fn test_mod_add_edge_cases() {
    let a = BigUint::from_u64(0).unwrap();
    let b = BigUint::from_u64(5).unwrap();
    let m = BigUint::from_u64(10).unwrap();
    assert_eq!(a.mod_add(&b, &m), BigUint::from(5u32));

    let a = BigUint::from_u64(999).unwrap();
    let b = BigUint::from_u64(1).unwrap();
    let m = BigUint::from_u64(1000).unwrap();
    assert_eq!(a.mod_add(&b, &m), BigUint::from(0u32));
}

#[test]
fn test_mod_sub_positive() {
    let a = BigUint::from_u64(7).unwrap();
    let b = BigUint::from_u64(5).unwrap();
    let m = BigUint::from_u64(10).unwrap();
    assert_eq!(a.mod_sub(&b, &m), BigUint::from(2u32));
}

#[test]
fn test_mod_sub_wrapping() {
    let a = BigUint::from_u64(5).unwrap();
    let b = BigUint::from_u64(7).unwrap();
    let m = BigUint::from_u64(10).unwrap();
    assert_eq!(a.mod_sub(&b, &m), BigUint::from(8u32)); // Because 5 - 7 = -2 mod 10 = 8
}

#[test]
fn test_mod_sub_edge_cases() {
    let a = BigUint::from_u64(0).unwrap();
    let b = BigUint::from_u64(1).unwrap();
    let m = BigUint::from_u64(10).unwrap();
    assert_eq!(a.mod_sub(&b, &m), BigUint::from(9u32));

    let a = BigUint::from_u64(5).unwrap();
    let b = BigUint::from_u64(5).unwrap();
    let m = BigUint::from_u64(10).unwrap();
    assert_eq!(a.mod_sub(&b, &m), BigUint::from(0u32));
}

#[test]
fn test_mod_mul() {
    let a = BigUint::from_u64(3).unwrap();
    let b = BigUint::from_u64(4).unwrap();
    let m = BigUint::from_u64(5).unwrap();
    assert_eq!(a.mod_mul(&b, &m), BigUint::from(2u32));
}

#[test]
fn test_mod_mul_edge_cases() {
    let a = BigUint::from_u64(0).unwrap();
    let b = BigUint::from_u64(5).unwrap();
    let m = BigUint::from_u64(10).unwrap();
    assert_eq!(a.mod_mul(&b, &m), BigUint::from(0u32));

    let a = BigUint::from_u64(1).unwrap();
    let b = BigUint::from_u64(7).unwrap();
    let m = BigUint::from_u64(10).unwrap();
    assert_eq!(a.mod_mul(&b, &m), BigUint::from(7u32));
}

#[test]
fn modular_test_mod_pow() {
    let base = BigUint::from_u64(2).unwrap();
    let exp = BigUint::from_u64(3).unwrap();
    let m = BigUint::from_u64(5).unwrap();
    assert_eq!(base.mod_pow(&exp, &m), BigUint::from(3u32)); // 2^3 = 8, 8 % 5 = 3
}

#[test]
fn test_mod_pow_edge_cases() {
    let base = BigUint::from_u64(5).unwrap();
    let exp = BigUint::from_u64(0).unwrap();
    let m = BigUint::from_u64(10).unwrap();
    assert_eq!(base.mod_pow(&exp, &m), BigUint::from(1u32)); // Any number to power 0 is 1

    let base = BigUint::from_u64(0).unwrap();
    let exp = BigUint::from_u64(5).unwrap();
    let m = BigUint::from_u64(10).unwrap();
    assert_eq!(base.mod_pow(&exp, &m), BigUint::from(0u32)); // 0 to any positive power is 0
}

#[test]
fn test_mod_inverse_exists() {
    let a = BigUint::from_u64(3).unwrap();
    let m = BigUint::from_u64(11).unwrap();
    let inv = a.mod_inverse(&m).unwrap();
    assert_eq!(inv, BigUint::from(4u32));
    // Verify: 3 * 4 = 12 ≡ 1 (mod 11)
    assert_eq!(a.mod_mul(&inv, &m), BigUint::from(1u32));
}

#[test]
fn test_mod_inverse_none() {
    let a = BigUint::from_u64(6).unwrap();
    let m = BigUint::from_u64(9).unwrap(); // gcd(6,9) = 3 ≠ 1
    assert_eq!(a.mod_inverse(&m), None);
}

#[test]
fn test_mod_inverse_edge_cases() {
    let a = BigUint::from_u64(0).unwrap();
    let m = BigUint::from_u64(5).unwrap();
    assert_eq!(a.mod_inverse(&m), None); // 0 has no inverse

    let a = BigUint::from_u64(1).unwrap();
    let m = BigUint::from_u64(5).unwrap();
    assert_eq!(a.mod_inverse(&m), Some(BigUint::from(1u32))); // 1 is its own inverse

    let a = BigUint::from_u64(1).unwrap();
    let m = BigUint::from_u64(1).unwrap();
    assert_eq!(a.mod_inverse(&m), None); // No inverse when modulus is 1
}

#[test]
fn test_is_quadratic_residue_odd_modulus() {
    let p = BigUint::from_u64(7).unwrap();

    // Test known quadratic residues mod 7: 0, 1, 2, 4
    assert!(BigUint::from(0u32).is_quadratic_residue(&p));
    assert!(BigUint::from(1u32).is_quadratic_residue(&p)); // 1² ≡ 1
    assert!(BigUint::from(2u32).is_quadratic_residue(&p)); // 3² ≡ 9 ≡ 2
    assert!(BigUint::from(4u32).is_quadratic_residue(&p)); // 2² ≡ 4

    // Test non-residues mod 7: 3, 5, 6
    assert!(!BigUint::from(3u32).is_quadratic_residue(&p));
    assert!(!BigUint::from(5u32).is_quadratic_residue(&p));
    assert!(!BigUint::from(6u32).is_quadratic_residue(&p));
}

#[test]
fn test_is_quadratic_residue_even_modulus() {
    let m = BigUint::from_u64(8).unwrap();

    // For mod 8, only 0 and 1 are quadratic residues
    assert!(BigUint::from(0u32).is_quadratic_residue(&m));
    assert!(BigUint::from(1u32).is_quadratic_residue(&m));
    assert!(!BigUint::from(2u32).is_quadratic_residue(&m));
    assert!(!BigUint::from(3u32).is_quadratic_residue(&m));
}

#[test]
fn test_extended_gcd_comprehensive() {
    let (gcd, inv) = extended_gcd(&BigUint::from(17u32), &BigUint::from(13u32));
    assert_eq!(gcd, BigUint::from(1u32));
    assert!(inv.is_some());

    let (gcd, inv) = extended_gcd(&BigUint::from(12u32), &BigUint::from(18u32));
    assert_eq!(gcd, BigUint::from(6u32));
    assert!(inv.is_none());

    let (gcd, inv) = extended_gcd(&BigUint::from(0u32), &BigUint::from(5u32));
    assert_eq!(gcd, BigUint::from(5u32));
    assert!(inv.is_none()); // 0 has no modular inverse
}

#[test]
fn test_large_numbers() {
    let large_a = BigUint::parse_bytes(b"123456789012345678901234567890", 10).unwrap();
    let large_b = BigUint::parse_bytes(b"987654321098765432109876543210", 10).unwrap();
    let large_m = BigUint::parse_bytes(b"1000000007", 10).unwrap();

    // Just ensure these don't panic and produce valid results
    let result = large_a.mod_add(&large_b, &large_m);
    assert!(result < large_m);

    let result = large_a.mod_mul(&large_b, &large_m);
    assert!(result < large_m);
}

#[test]
fn test_is_quadratic_residue_small_power_of_two_modulus() {
    // Powers of two below 8 are among the unimplemented even-modulus cases:
    // every nonzero argument reports "not a residue"; zero stays a residue.
    for m in [2u32, 4u32] {
        let modulus = BigUint::from(m);
        assert!(BigUint::from(0u32).is_quadratic_residue(&modulus));
        for a in 1u32..=4 {
            assert!(!BigUint::from(a).is_quadratic_residue(&modulus));
        }
    }
}

#[test]
fn test_is_power_of_two_cases() {
    assert!(!is_power_of_two(&BigUint::from(0u32)));
    assert!(!is_power_of_two(&BigUint::from(1u32)));
    assert!(is_power_of_two(&BigUint::from(2u32)));
    assert!(is_power_of_two(&BigUint::from(8u32)));
    assert!(is_power_of_two(&BigUint::from(1024u32)));
    assert!(!is_power_of_two(&BigUint::from(6u32)));
    assert!(!is_power_of_two(&BigUint::from(1023u32)));
}

#[test]
fn test_mod_inverse_against_product() {
    // Every unit modulo 35 multiplies with its inverse to one.
    let m = BigUint::from(35u32);
    for a in 1u32..35 {
        let a_big = BigUint::from(a);
        match a_big.mod_inverse(&m) {
            Some(inv) => {
                assert_eq!(a_big.mod_mul(&inv, &m), BigUint::from(1u32));
                assert!(inv < m);
            }
            None => {
                // Shares a factor with 35.
                assert!(a % 5 == 0 || a % 7 == 0);
            }
        }
    }
}
