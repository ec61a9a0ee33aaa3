//! Exact modular multiplication and exponentiation over 64-bit operands.
//!
//! Both operations are total pure functions of their arguments for any
//! modulus of at least 1; the product is widened to 128 bits before the
//! reduction, so no intermediate value ever overflows.

use vstd::prelude::*;

verus! {

use vstd::calc;

use vstd::arithmetic::div_mod::lemma_mod_bound;
use vstd::arithmetic::div_mod::lemma_mul_mod_noop_general;
use vstd::arithmetic::div_mod::lemma_small_mod;
use vstd::arithmetic::mul::lemma_mul_upper_bound;
use vstd::arithmetic::power::lemma_pow1;
use vstd::arithmetic::power::lemma_pow_adds;
use vstd::arithmetic::power::lemma_pow_mod_noop;
use vstd::arithmetic::power::lemma_pow_multiplies;
use vstd::arithmetic::power::pow;

/// Modular multiplication `(a * b) % m`, exact for all 64-bit operands.
///
/// The product is formed in 128 bits, so it never overflows before the
/// reduction.
pub fn mod_mul(a: u64, b: u64, m: u64) -> (r: u64)
    requires
        m >= 1,
    ensures
        r == (a as int * b as int) % (m as int),
        r < m,
{
    proof {
        lemma_mul_upper_bound(a as int, u64::MAX as int, b as int, u64::MAX as int);
        lemma_mod_bound(a as int * b as int, m as int);
    }
    (((a as u128) * (b as u128)) % (m as u128)) as u64
}

/// Modular exponentiation `base^exp % m` by binary square-and-multiply.
pub fn mod_pow(base: u64, exp: u64, modu: u64) -> (r: u64)
    requires
        modu >= 1,
    ensures
        r == pow(base as int, exp as nat) % (modu as int),
        r < modu,
{
    let mut result: u64 = 1 % modu;
    let mut b: u64 = base % modu;
    let mut e: u64 = exp;
    proof {
        lemma_pow_mod_noop(base as int, exp as nat, modu as int);
        lemma_mul_mod_noop_general(1, pow(b as int, e as nat), modu as int);
        lemma_mod_bound(pow(base as int, exp as nat), modu as int);
    }
    while e > 0
        invariant
            modu >= 1,
            result < modu,
            b < modu,
            (result as int * pow(b as int, e as nat)) % (modu as int) == pow(
                base as int,
                exp as nat,
            ) % (modu as int),
        decreases e,
    {
        proof {
            lemma_step(result as int, b as int, e as nat, modu as int);
        }
        if e % 2 == 1 {
            result = mod_mul(result, b, modu);
        }
        b = mod_mul(b, b, modu);
        e = e / 2;
    }
    proof {
        assert(pow(b as int, 0) == 1) by {
            vstd::arithmetic::power::lemma_pow0(b as int);
        }
        lemma_small_mod(result as nat, modu as nat);
    }
    result
}

/// One square-and-multiply step keeps the running product's residue:
/// multiplying the odd bit into the accumulator, squaring the base and
/// halving the exponent leaves `acc * b^e` unchanged modulo `m`.
proof fn lemma_step(acc: int, b: int, e: nat, m: int)
    requires
        m >= 1,
        e > 0,
        0 <= acc,
        0 <= b,
    ensures
        e % 2 == 1 ==> ((acc * b) % m * pow((b * b) % m, (e / 2) as nat)) % m == (acc * pow(
            b,
            e,
        )) % m,
        e % 2 == 0 ==> (acc * pow((b * b) % m, (e / 2) as nat)) % m == (acc * pow(b, e)) % m,
{
    let h = (e / 2) as nat;
    assert(pow((b * b) % m, h) % m == pow(b * b, h) % m) by {
        lemma_pow_mod_noop(b * b, h, m);
    }
    assert(pow(b * b, h) == pow(b, 2 * h)) by {
        lemma_pow_adds(b, 1, 1);
        lemma_pow1(b);
        lemma_pow_multiplies(b, 2, h);
    }
    if e % 2 == 1 {
        assert(pow(b, e) == b * pow(b, 2 * h)) by {
            lemma_pow_adds(b, 1, 2 * h);
            lemma_pow1(b);
        }
        calc! {
            (==)
            ((acc * b) % m * pow((b * b) % m, h)) % m; {
                lemma_mul_mod_noop_general(acc * b, pow((b * b) % m, h), m);
            }
            ((acc * b) * (pow((b * b) % m, h) % m)) % m; {}
            ((acc * b) * (pow(b, 2 * h) % m)) % m; {
                lemma_mul_mod_noop_general(acc * b, pow(b, 2 * h), m);
            }
            ((acc * b) * pow(b, 2 * h)) % m; {
                vstd::arithmetic::mul::lemma_mul_is_associative(acc, b, pow(b, 2 * h));
            }
            (acc * (b * pow(b, 2 * h))) % m; {}
            (acc * pow(b, e)) % m;
        }
    } else {
        calc! {
            (==)
            (acc * pow((b * b) % m, h)) % m; {
                lemma_mul_mod_noop_general(acc, pow((b * b) % m, h), m);
            }
            (acc * (pow((b * b) % m, h) % m)) % m; {}
            (acc * (pow(b, 2 * h) % m)) % m; {
                lemma_mul_mod_noop_general(acc, pow(b, 2 * h), m);
            }
            (acc * pow(b, 2 * h)) % m; {}
            (acc * pow(b, e)) % m;
        }
    }
}

} // verus!
