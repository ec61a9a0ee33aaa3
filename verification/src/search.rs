//! The downward search for the largest prime strictly below a bound.

use vstd::prelude::*;

verus! {

use crate::primality::is_prime;
use crate::primality::mr_prime;

/// The largest prime strictly below `n`, or `None` when no value below `n`
/// is prime (which happens exactly for `n <= 2`).
///
/// The result is characterised against the oracle's decision [`mr_prime`]:
/// a returned value is accepted by the oracle, lies below `n`, and nothing
/// between it and `n` is accepted; `None` is returned exactly when the
/// oracle accepts nothing below `n`, which happens exactly for `n <= 2`.
pub fn largest_prime_below(n: u64) -> (r: Option<u64>)
    ensures
        match r {
            Some(p) => p < n && mr_prime(p as nat) && (forall|q: u64|
                p < q < n ==> !mr_prime(q as nat)),
            None => forall|q: u64| q < n ==> !mr_prime(q as nat),
        },
        r is None <==> n <= 2,
{
    if n <= 2 {
        return None;
    }
    let mut candidate: u64 = n - 1;
    // Start the descent on an odd number whenever possible: the only even
    // number ever tested is 2 itself.
    if candidate > 2 && candidate % 2 == 0 {
        candidate = candidate - 1;
    }
    loop
        invariant
            2 <= candidate < n,
            candidate == 2 || candidate % 2 == 1,
            forall|q: u64| candidate < q < n ==> !mr_prime(q as nat),
        decreases candidate,
    {
        if is_prime(candidate) {
            return Some(candidate);
        }
        // 2 and 3 are accepted by the oracle, so the failed test pins the
        // candidate at 5 or above and the descent can skip the even value
        // in between.
        assert(candidate >= 5);
        candidate = candidate - 2;
        assert(!mr_prime((candidate + 1) as nat));
    }
}

/// The search is monotone in its bound: a larger bound can only yield a
/// larger (or equal) result. Stated over the characterisation that
/// [`largest_prime_below`] ensures: if `pa` is the largest oracle-accepted
/// value below `a`, `pb` the largest below `b`, and `a <= b`, then
/// `pa <= pb`.
pub proof fn lemma_largest_prime_below_monotonic(a: u64, b: u64, pa: u64, pb: u64)
    requires
        a <= b,
        pa < a,
        mr_prime(pa as nat),
        forall|q: u64| pa < q < a ==> !mr_prime(q as nat),
        pb < b,
        mr_prime(pb as nat),
        forall|q: u64| pb < q < b ==> !mr_prime(q as nat),
    ensures
        pa <= pb,
{
    if pb < pa {
        assert(!mr_prime(pa as nat));
        assert(false);
    }
}

} // verus!
