use primegen::attempts::calculate_max_attempts;
use primegen::wheel::{
    generate_wheel_residues, infer_wheel_size, is_coprime_to_wheel_primes, select_optimal_wheel,
    wheel_prime_factors, WheelIterator, WheelKind,
};

#[test]
fn test_wheel_30_properties() {
    // All residues should be coprime to 30
    for &residue in generate_wheel_residues(30).iter() {
        assert!(gcd_simple(residue, 30) == 1);
    }
}

#[test]
fn test_wheel_iterator() {
    let mut iter = WheelIterator::new(100, WheelKind::Wheel30);
    let mut first_few: Vec<u64> = Vec::new();
    for _ in 0..5 {
        first_few.push(iter.advance());
    }

    for candidate in first_few {
        assert!(candidate >= 100);
        assert!(candidate % 2 != 0 || candidate == 2);
        assert!(candidate % 3 != 0 || candidate == 3);
        assert!(candidate % 5 != 0 || candidate == 5);
    }
}

#[test]
fn test_optimal_wheel_selection() {
    assert_eq!(select_optimal_wheel(256).len(), 8); // 30-wheel
    assert_eq!(select_optimal_wheel(1024).len(), 48); // 210-wheel
}

// Simple GCD for testing
fn gcd_simple(a: u32, b: u32) -> u32 {
    if b == 0 {
        a
    } else {
        gcd_simple(b, a % b)
    }
}

#[test]
fn test_wheel_210_properties() {
    let residues = generate_wheel_residues(210);
    assert_eq!(residues.len(), 48);
    for &residue in residues.iter() {
        assert!(gcd_simple(residue, 210) == 1);
    }
}

#[test]
fn test_wheel_30_exact_table() {
    assert_eq!(
        generate_wheel_residues(30),
        vec![1, 7, 11, 13, 17, 19, 23, 29]
    );
}

#[test]
fn test_wheel_iterator_strictly_increasing() {
    let mut iter = WheelIterator::new(997, WheelKind::Wheel210);
    let mut previous = 0u64;
    for step in 0..100 {
        let candidate = iter.advance();
        assert!(candidate >= 997);
        if step > 0 {
            assert!(candidate > previous);
        }
        assert!(candidate % 2 != 0);
        assert!(candidate % 3 != 0);
        assert!(candidate % 5 != 0);
        assert!(candidate % 7 != 0);
        previous = candidate;
    }
}

#[test]
fn test_wheel_iterator_exact_successors() {
    // From 100 the 30-wheel yields exactly the coprime residue classes in
    // order, skipping nothing.
    let mut it = WheelIterator::new(100, WheelKind::Wheel30);
    let mut got: Vec<u64> = Vec::new();
    for _ in 0..6 {
        got.push(it.advance());
    }
    assert_eq!(got, vec![101, 103, 107, 109, 113, 119]);

    // A start that sits on a candidate begins at that candidate.
    let mut it = WheelIterator::new(121, WheelKind::Wheel30);
    assert_eq!(it.advance(), 121);
}

#[test]
fn test_wheel_helpers() {
    assert_eq!(infer_wheel_size(&WheelKind::Wheel30), 30);
    assert_eq!(infer_wheel_size(&WheelKind::Wheel210), 210);
    assert_eq!(wheel_prime_factors(30), vec![2, 3, 5]);
    assert_eq!(wheel_prime_factors(210), vec![2, 3, 5, 7]);
    assert_eq!(wheel_prime_factors(100), Vec::<u32>::new());
    assert!(is_coprime_to_wheel_primes(7, 30));
    assert!(!is_coprime_to_wheel_primes(15, 30));
    assert!(!is_coprime_to_wheel_primes(49, 210));
}

#[test]
fn test_max_attempts_values() {
    // floor(100 * b^1.4) computed exactly as an integer fifth root.
    assert_eq!(calculate_max_attempts(16), 4850);
    assert_eq!(calculate_max_attempts(64), 33779);
    assert_eq!(calculate_max_attempts(256), 235253);
    assert_eq!(calculate_max_attempts(512), 620837);
    // 1024^1.4 is exactly 2^14, so the budget is exactly 1638400.
    assert_eq!(calculate_max_attempts(1024), 1638400);
    assert_eq!(calculate_max_attempts(2048), 4323763);
    assert_eq!(calculate_max_attempts(4096), 11410480);
}
