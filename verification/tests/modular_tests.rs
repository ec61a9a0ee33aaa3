use prime_utils::mod_mul;
use prime_utils::mod_pow;

#[test]
fn mod_mul_exact_values() {
    assert_eq!(mod_mul(7, 8, 100), 56);
    assert_eq!(mod_mul(7, 8, 10), 6);
    assert_eq!(mod_mul(0, 12345, 97), 0);
    assert_eq!(mod_mul(5, 5, 1), 0);
    // 2^63 * 2 == 2^64 == 1 modulo 2^64 - 1: the product must be formed
    // without overflowing 64 bits.
    assert_eq!(mod_mul(1 << 63, 2, u64::MAX), 1);
    assert_eq!(mod_mul(u64::MAX, u64::MAX, u64::MAX), 0);
}

#[test]
fn mod_pow_exact_values() {
    assert_eq!(mod_pow(2, 10, 100_000), 1024);
    assert_eq!(mod_pow(2, 10, 1000), 24);
    assert_eq!(mod_pow(3, 0, 7), 1); // exponent 0 gives 1 mod m
    assert_eq!(mod_pow(3, 0, 1), 0); // ... which is 0 for m == 1
    // 10^9 is -7 modulo 10^9 + 7, so 10^20 is 49 * 100 = 4900.
    assert_eq!(mod_pow(10, 20, 1_000_000_007), 4900);
    assert_eq!(mod_pow(2, 64, u64::MAX), 1);
}
