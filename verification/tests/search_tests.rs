use prime_utils::largest_prime_below;

#[test]
fn largest_prime_below_basic_cases() {
    assert_eq!(largest_prime_below(3), Some(2));
    assert_eq!(largest_prime_below(4), Some(3));
    assert_eq!(largest_prime_below(10), Some(7));
    assert_eq!(largest_prime_below(11), Some(7));
    assert_eq!(largest_prime_below(12), Some(11));
}

#[test]
fn largest_prime_below_no_prime() {
    assert_eq!(largest_prime_below(0), None);
    assert_eq!(largest_prime_below(1), None);
    assert_eq!(largest_prime_below(2), None);
}

#[test]
fn largest_prime_below_even_and_odd_inputs() {
    assert_eq!(largest_prime_below(100), Some(97));
    assert_eq!(largest_prime_below(101), Some(97));
    assert_eq!(largest_prime_below(1001), Some(997));
}

#[test]
fn largest_prime_below_large() {
    assert_eq!(largest_prime_below(1_000_000_010), Some(1_000_000_009));
}

#[test]
fn largest_prime_below_u64_max() {
    assert_eq!(
        largest_prime_below(u64::MAX),
        Some(18_446_744_073_709_551_557)
    );
}

#[test]
fn largest_prime_below_is_monotone() {
    let mut prev: Option<u64> = None;
    for n in 0..=2_000_u64 {
        let cur = largest_prime_below(n);
        if let (Some(p), Some(c)) = (prev, cur) {
            assert!(p <= c, "result dropped from {p} to {c} at bound {n}");
        }
        prev = cur;
    }
}
