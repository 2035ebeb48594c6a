use num_bigint::BigUint;
use primegen::properties::calculate_prime_properties;
use primegen::request::generate_prime_set;
use primegen::types::GenError;

#[test]
fn test_rsa_multi_end_to_end() {
    let result = generate_prime_set(2, 512, "rsa-multi").unwrap();
    assert_eq!(result.primes.len(), 2);
    for s in result.primes.iter() {
        let v = BigUint::parse_bytes(s.as_bytes(), 10).unwrap();
        assert!(v.bits() <= 512);
    }
    assert_eq!(result.properties.gaps.len(), 1);
    assert!(result
        .properties
        .relationships
        .contains(&"rsa-suitable".to_string()));
    assert_eq!(result.metadata.strategy, "rsa-multi");
}

#[test]
fn test_strong_end_to_end() {
    let result = generate_prime_set(1, 2048, "strong").unwrap();
    assert_eq!(result.primes.len(), 1);
    assert_eq!(
        result.properties.relationships,
        vec!["strong-prime".to_string(), "safe-prime".to_string()]
    );
    let v = BigUint::parse_bytes(result.primes[0].as_bytes(), 10).unwrap();
    assert_eq!(v.bits(), 2048);
    assert!(result.metadata.attempts >= 1);
    assert_eq!(result.metadata.strategy, "strong");
}

#[test]
fn test_invalid_count() {
    assert_eq!(
        generate_prime_set(0, 256, "strong").unwrap_err(),
        GenError::InvalidCount
    );
    assert_eq!(
        generate_prime_set(11, 256, "rsa-multi").unwrap_err(),
        GenError::InvalidCount
    );
}

#[test]
fn test_invalid_bit_length() {
    assert_eq!(
        generate_prime_set(1, 8, "strong").unwrap_err(),
        GenError::InvalidBitLength
    );
    assert_eq!(
        generate_prime_set(1, 5000, "strong").unwrap_err(),
        GenError::InvalidBitLength
    );
}

#[test]
fn test_unknown_strategy() {
    assert_eq!(
        generate_prime_set(1, 256, "fermat").unwrap_err(),
        GenError::UnknownStrategy
    );
}

#[test]
fn test_strategy_count_mismatch() {
    assert_eq!(
        generate_prime_set(2, 256, "strong").unwrap_err(),
        GenError::StrategyCountMismatch
    );
}

#[test]
fn test_properties_exact_values() {
    let primes = vec![
        BigUint::from(11u32),
        BigUint::from(17u32),
        BigUint::from(23u32),
    ];
    let props = calculate_prime_properties(&primes, "rsa-multi");
    assert_eq!(props.gaps, vec!["6".to_string(), "6".to_string()]);
    assert_eq!(props.product, "4301");
    assert_eq!(props.bit_lengths, vec![4, 5, 5]);
    assert_eq!(
        props.relationships,
        vec!["rsa-suitable".to_string(), "multi-prime".to_string()]
    );
    assert_eq!(props.strength, "weak");
}

#[test]
fn test_properties_strength_labels() {
    // One 1024-bit and one 1500-bit value: 2524 total bits is "standard".
    let a = BigUint::from(1u32) << 1023u32;
    let b = BigUint::from(1u32) << 1499u32;
    let props = calculate_prime_properties(&vec![a, b], "strong");
    assert_eq!(props.bit_lengths, vec![1024, 1500]);
    assert_eq!(props.strength, "standard");
    assert_eq!(
        props.relationships,
        vec!["strong-prime".to_string(), "safe-prime".to_string()]
    );

    let empty: Vec<BigUint> = Vec::new();
    let props = calculate_prime_properties(&empty, "none");
    assert_eq!(props.strength, "weak");
    assert_eq!(props.product, "1");
    assert!(props.gaps.is_empty());
    assert!(props.relationships.is_empty());
}

#[test]
fn test_properties_unordered_gap() {
    // Gaps are absolute differences, whatever the order.
    let primes = vec![BigUint::from(23u32), BigUint::from(11u32)];
    let props = calculate_prime_properties(&primes, "rsa-multi");
    assert_eq!(props.gaps, vec!["12".to_string()]);
    assert_eq!(props.relationships, vec!["rsa-suitable".to_string()]);
}

#[test]
fn test_rsa_multi_small_quick() {
    let result = generate_prime_set(3, 16, "rsa-multi").unwrap();
    assert_eq!(result.primes.len(), 3);
    assert_eq!(result.properties.bit_lengths, vec![16, 16, 16]);
    assert_eq!(result.properties.gaps.len(), 2);
    assert!(result
        .properties
        .relationships
        .contains(&"multi-prime".to_string()));
    for s in result.primes.iter() {
        let v = BigUint::parse_bytes(s.as_bytes(), 10).unwrap();
        assert_eq!(v.bits(), 16);
        // 16-bit values are far below the deterministic threshold, so these
        // are genuinely prime.
        assert!(primegen::primality::is_probable_prime(&v));
    }
}
