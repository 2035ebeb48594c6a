use num_bigint::BigUint;
use primegen::entropy::generate_entropy;
use primegen::primality::{is_probable_prime, miller_rabin_witness, miller_rabin_witnesses};

#[test]
fn test_generate_entropy_bit_length() {
    let n = generate_entropy(256);
    assert_eq!(n.bits(), 256);
}

#[test]
fn test_entropy_exact_bits() {
    for &bits in [2u32, 8, 256, 4096].iter() {
        let n = generate_entropy(bits);
        assert_eq!(n.bits(), bits as u64);
    }
}

#[test]
fn test_entropy_draws_differ() {
    // Two 128-bit draws colliding would be an essentially impossible event.
    let a = generate_entropy(128);
    let b = generate_entropy(128);
    assert_ne!(a, b);
}

#[test]
fn test_probable_prime_small_values() {
    assert!(!is_probable_prime(&BigUint::from(0u32)));
    assert!(!is_probable_prime(&BigUint::from(1u32)));
    assert!(is_probable_prime(&BigUint::from(2u32)));
    assert!(is_probable_prime(&BigUint::from(3u32)));
    assert!(!is_probable_prime(&BigUint::from(4u32)));
    assert!(is_probable_prime(&BigUint::from(97u32)));
    assert!(!is_probable_prime(&BigUint::from(91u32))); // 7 * 13
    assert!(!is_probable_prime(&BigUint::from(341u32))); // 11 * 31, a 2-pseudoprime
    assert!(is_probable_prime(&BigUint::from(341550071728321u64 - 32))); // 341550071728289 is prime
}

#[test]
fn test_probable_prime_large_values() {
    // Above the deterministic threshold: random-witness path.
    let mersenne61 = BigUint::from(2305843009213693951u64); // 2^61 - 1, prime
    assert!(is_probable_prime(&mersenne61));
    let composite = BigUint::from(2305843009213693951u64 - 2); // divisible by small factors
    assert!(!is_probable_prime(&composite));
}

#[test]
fn test_miller_rabin_witness_verdicts() {
    // 9 is composite and witness 2 exposes it; 7 is prime so 2 passes.
    assert!(!miller_rabin_witness(&BigUint::from(9u32), &BigUint::from(2u32)));
    assert!(miller_rabin_witness(&BigUint::from(7u32), &BigUint::from(2u32)));
    // 2047 = 23 * 89 fools witness 2 but not witness 3.
    assert!(miller_rabin_witness(&BigUint::from(2047u32), &BigUint::from(2u32)));
    assert!(!miller_rabin_witness(&BigUint::from(2047u32), &BigUint::from(3u32)));
}

#[test]
fn test_witness_table() {
    let ws = miller_rabin_witnesses();
    assert_eq!(
        ws,
        vec![2, 3, 5, 7, 11, 13, 17, 19, 23, 29, 31, 37, 41, 43, 47]
    );
}
