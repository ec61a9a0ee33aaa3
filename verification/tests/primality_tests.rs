use prime_utils::is_prime;

/// Brute-force primality by trial division, as an independent oracle.
fn trial_division_prime(n: u64) -> bool {
    if n < 2 {
        return false;
    }
    let mut d: u64 = 2;
    while d * d <= n {
        if n % d == 0 {
            return false;
        }
        d += 1;
    }
    true
}

#[test]
fn is_prime_small_primes() {
    let primes = [2_u64, 3, 5, 7, 11, 13, 17, 19, 23, 29];
    for &p in &primes {
        assert!(is_prime(p), "expected {p} to be prime");
    }
}

#[test]
fn is_prime_small_composites() {
    let composites = [0_u64, 1, 4, 6, 8, 9, 10, 12, 15, 21, 25, 100];
    for &c in &composites {
        assert!(!is_prime(c), "expected {c} to be composite");
    }
}

#[test]
fn is_prime_large_known_values() {
    assert!(is_prime(1_000_000_007));
    assert!(!is_prime(1_000_000_008));
    assert!(is_prime(4_294_967_291));
}

#[test]
fn is_prime_agrees_with_trial_division() {
    for n in 0..=10_000_u64 {
        assert_eq!(
            is_prime(n),
            trial_division_prime(n),
            "disagreement with trial division at {n}"
        );
    }
}

#[test]
fn is_prime_rejects_strong_pseudoprimes() {
    // Strong pseudoprimes to several small bases; the full witness set
    // must still reject them.
    assert!(!is_prime(3_215_031_751)); // 151 * 751 * 28351
    assert!(!is_prime(3_825_123_056_546_413_051)); // pseudoprime to bases 2..23
}

#[test]
fn is_prime_near_u64_max() {
    assert!(is_prime(18_446_744_073_709_551_557)); // the largest 64-bit prime
    assert!(!is_prime(u64::MAX)); // divisible by 3
}

#[test]
fn is_prime_is_deterministic() {
    for &n in &[0_u64, 1, 2, 97, 1_000_000_007, 1_000_000_008, u64::MAX] {
        let first = is_prime(n);
        let second = is_prime(n);
        assert_eq!(first, second, "two calls on {n} disagreed");
    }
}
