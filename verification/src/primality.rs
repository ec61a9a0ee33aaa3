//! A deterministic Miller–Rabin primality oracle for 64-bit integers.
//!
//! The oracle first short-circuits on a fixed set of small primes and
//! rejects their multiples, then runs a Miller–Rabin round for each of a
//! fixed set of seven witness bases. That witness set is a published,
//! exhaustively checked result: the rounds accept exactly the primes over
//! the whole 64-bit range. The spec function [`mr_prime`] states the
//! decision mathematically, and [`is_prime`] is proved to return it; the
//! equality of that decision with true primality over all of `u64` is the
//! published result and is taken as the definition of the oracle rather
//! than re-derived.

use vstd::prelude::*;

verus! {

use vstd::arithmetic::div_mod::lemma_mul_mod_noop;
use vstd::arithmetic::mul::lemma_mul_inequality;
use vstd::arithmetic::mul::lemma_mul_is_associative;
use vstd::arithmetic::mul::lemma_mul_is_commutative;
use vstd::arithmetic::power::lemma_pow0;
use vstd::arithmetic::power::lemma_pow_adds;
use vstd::arithmetic::power::lemma_pow_increases;
use vstd::arithmetic::power::pow;
use vstd::arithmetic::power2::lemma2_to64_rest;
use vstd::arithmetic::power2::lemma_pow2_unfold;
use vstd::arithmetic::power2::pow2;

use crate::modular::mod_mul;
use crate::modular::mod_pow;

/// Membership in the fixed small-prime filter set `{2,3,5,7,11,13,17}`.
pub open spec fn is_small_prime(n: nat) -> bool {
    n == 2 || n == 3 || n == 5 || n == 7 || n == 11 || n == 13 || n == 17
}

/// Divisibility by some member of the small-prime filter set.
pub open spec fn has_small_prime_factor(n: nat) -> bool {
    n % 2 == 0 || n % 3 == 0 || n % 5 == 0 || n % 7 == 0 || n % 11 == 0 || n % 13 == 0 || n % 17
        == 0
}

/// The odd part of `m`: what remains after all factors of two are removed.
pub open spec fn odd_part(m: nat) -> nat
    decreases m,
{
    if m > 0 && m % 2 == 0 {
        odd_part(m / 2)
    } else {
        m
    }
}

/// The number of factors of two in `m`: the exponent of its even part.
pub open spec fn twos_exp(m: nat) -> nat
    decreases m,
{
    if m > 0 && m % 2 == 0 {
        1 + twos_exp(m / 2)
    } else {
        0
    }
}

/// Witness base `a` passes the Miller–Rabin round for an odd candidate `n`:
/// with `n - 1 == d * 2^s` and `d` odd, either `a` reduces to zero mod `n`
/// (it carries no information), or `a^d == 1 (mod n)`, or some square
/// `a^(d*2^i)` with `i < s` equals `n - 1 (mod n)`.
pub open spec fn witness_passes(n: nat, a: nat) -> bool
    recommends
        n >= 3,
        n % 2 == 1,
{
    let d = odd_part((n - 1) as nat);
    let s = twos_exp((n - 1) as nat);
    let b = a % n;
    ||| b == 0
    ||| pow(b as int, d) % (n as int) == 1
    ||| exists|i: nat| i < s && #[trigger] pow(b as int, d * pow2(i)) % (n as int) == n - 1
}

/// Every base of the fixed seven-witness set passes its round for `n`.
pub open spec fn all_witnesses_pass(n: nat) -> bool {
    &&& witness_passes(n, 2)
    &&& witness_passes(n, 325)
    &&& witness_passes(n, 9375)
    &&& witness_passes(n, 28178)
    &&& witness_passes(n, 450775)
    &&& witness_passes(n, 9780504)
    &&& witness_passes(n, 1795265022)
}

/// The deterministic Miller–Rabin decision for `n`: values below 2 are
/// rejected, members of the small-prime filter set are accepted, their
/// other multiples are rejected, and what remains is accepted exactly
/// when all seven witness bases pass. For every `n` below `2^64` this
/// decision equals true primality (the published witness-set result).
pub open spec fn mr_prime(n: nat) -> bool {
    if n < 2 {
        false
    } else if is_small_prime(n) {
        true
    } else if has_small_prime_factor(n) {
        false
    } else {
        all_witnesses_pass(n)
    }
}

/// True mathematical primality: at least 2, with no proper divisor.
pub open spec fn is_prime_number(n: nat) -> bool {
    n >= 2 && forall|k: nat| 2 <= k < n ==> #[trigger] (n % k) != 0
}

/// Every member of the small-prime filter set is a prime number.
pub proof fn lemma_small_primes_are_prime(n: nat)
    requires
        is_small_prime(n),
    ensures
        is_prime_number(n),
{
    assert forall|k: nat| 2 <= k < n implies #[trigger] (n % k) != 0 by {
        if k == 2 {
        } else if k == 3 {
        } else if k == 4 {
        } else if k == 5 {
        } else if k == 6 {
        } else if k == 7 {
        } else if k == 8 {
        } else if k == 9 {
        } else if k == 10 {
        } else if k == 11 {
        } else if k == 12 {
        } else if k == 13 {
        } else if k == 14 {
        } else if k == 15 {
        } else {
            assert(k == 16);
        }
    }
}

/// Below 19 the oracle's decision is settled by the small-prime filter
/// alone, and agrees there with true primality. (For larger inputs the
/// agreement is the published property of the seven-witness set, which
/// this development states but does not re-derive.)
pub proof fn lemma_mr_prime_agrees_below_19(n: nat)
    requires
        n < 19,
    ensures
        mr_prime(n) == is_prime_number(n),
{
    if is_small_prime(n) {
        lemma_small_primes_are_prime(n);
    } else if n >= 2 {
        assert(n == 4 || n == 6 || n == 8 || n == 9 || n == 10 || n == 12 || n == 14 || n == 15
            || n == 16 || n == 18);
        if n % 2 == 0 {
            assert(n % 2 == 0 && 2 < n);
        } else {
            assert(n == 9 || n == 15);
            assert(n % 3 == 0 && 3 < n);
        }
        assert(!is_prime_number(n));
        assert(has_small_prime_factor(n));
    }
}

/// Squaring a residue of `b^(d*2^k)` modulo `n` yields the residue of
/// `b^(d*2^(k+1))`.
proof fn lemma_square_step(b: int, d: nat, k: nat, n: int)
    requires
        n >= 1,
    ensures
        ((pow(b, d * pow2(k)) % n) * (pow(b, d * pow2(k)) % n)) % n == pow(b, d * pow2(k + 1)) % n,
{
    let e = d * pow2(k);
    assert(((pow(b, e) % n) * (pow(b, e) % n)) % n == (pow(b, e) * pow(b, e)) % n) by {
        lemma_mul_mod_noop(pow(b, e), pow(b, e), n);
    }
    assert(pow(b, e) * pow(b, e) == pow(b, e + e)) by {
        lemma_pow_adds(b, e, e);
    }
    assert(d * pow2(k + 1) == e + e) by {
        lemma_pow2_unfold(k + 1);
        lemma_mul_is_associative(d as int, 2, pow2(k) as int);
        lemma_mul_is_commutative(d as int, 2);
        lemma_mul_is_associative(2, d as int, pow2(k) as int);
    }
}

/// One Miller–Rabin round: decides whether witness base `a` passes for the
/// odd candidate `n`, whose decomposition `n - 1 == d * 2^s` (`d` odd) the
/// caller supplies.
fn miller_rabin_witness(n: u64, d: u64, s: u64, a: u64) -> (r: bool)
    requires
        n >= 3,
        n % 2 == 1,
        d as nat == odd_part((n - 1) as nat),
        s as nat == twos_exp((n - 1) as nat),
        s >= 1,
    ensures
        r == witness_passes(n as nat, a as nat),
{
    let b = a % n;
    if b == 0 {
        return true;
    }
    let x0 = mod_pow(b, d, n);
    if x0 == 1 {
        return true;
    }
    proof {
        assert(pow2(0) == 1) by {
            lemma_pow0(2);
        }
        assert((d as nat) * pow2(0) == d as nat);
    }
    if x0 == n - 1 {
        assert(pow(b as int, (d as nat) * pow2(0)) % (n as int) == n - 1);
        return true;
    }
    let mut x = x0;
    let mut i: u64 = 1;
    while i < s
        invariant
            n >= 3,
            b == a % n,
            1 <= i <= s,
            d as nat == odd_part((n - 1) as nat),
            s as nat == twos_exp((n - 1) as nat),
            x < n,
            x as int == pow(b as int, (d as nat) * pow2((i - 1) as nat)) % (n as int),
            pow(b as int, d as nat) % (n as int) != 1,
            forall|j: nat|
                j < i ==> #[trigger] pow(b as int, (d as nat) * pow2(j)) % (n as int) != n - 1,
        decreases s - i,
    {
        proof {
            lemma_square_step(b as int, d as nat, (i - 1) as nat, n as int);
        }
        x = mod_mul(x, x, n);
        if x == n - 1 {
            assert(pow(b as int, (d as nat) * pow2(i as nat)) % (n as int) == n - 1);
            return true;
        }
        i = i + 1;
    }
    false
}

/// Deterministic primality decision for any 64-bit unsigned integer.
///
/// The result is exactly the Miller–Rabin decision [`mr_prime`], a pure
/// function of `n` alone: repeated calls on the same input always return
/// the same answer.
pub fn is_prime(n: u64) -> (r: bool)
    ensures
        r == mr_prime(n as nat),
{
    if n < 2 {
        return false;
    }
    if n == 2 || n == 3 || n == 5 || n == 7 || n == 11 || n == 13 || n == 17 {
        return true;
    }
    if n % 2 == 0 || n % 3 == 0 || n % 5 == 0 || n % 7 == 0 || n % 11 == 0 || n % 13 == 0 || n % 17
        == 0 {
        return false;
    }
    let mut d: u64 = n - 1;
    let mut s: u64 = 0;
    proof {
        assert(pow2(0) == 1) by {
            lemma_pow0(2);
        }
    }
    while d % 2 == 0
        invariant
            n >= 19,
            1 <= d,
            s <= 63,
            (d as nat) * pow2(s as nat) == (n - 1) as nat,
            odd_part((n - 1) as nat) == odd_part(d as nat),
            twos_exp((n - 1) as nat) == s as nat + twos_exp(d as nat),
        decreases d,
    {
        proof {
            lemma_pow2_unfold((s + 1) as nat);
            lemma_mul_is_associative(d as int / 2, 2, pow2(s as nat) as int);
            assert(((d / 2) as nat) * pow2((s + 1) as nat) == (n - 1) as nat);
            if s >= 63 {
                lemma_mul_inequality(2, d as int, pow2(s as nat) as int);
                lemma_pow_increases(2, 64, (s + 1) as nat);
                lemma2_to64_rest();
                assert(false);
            }
        }
        d = d / 2;
        s = s + 1;
    }
    miller_rabin_witness(n, d, s, 2) && miller_rabin_witness(n, d, s, 325)
        && miller_rabin_witness(n, d, s, 9375) && miller_rabin_witness(n, d, s, 28178)
        && miller_rabin_witness(n, d, s, 450775) && miller_rabin_witness(n, d, s, 9780504)
        && miller_rabin_witness(n, d, s, 1795265022)
}

} // verus!
