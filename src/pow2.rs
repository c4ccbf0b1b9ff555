//! Powers of two: the only transform lengths the radix-2 FFT accepts.

use vstd::prelude::*;

verus! {

/// `2^k`.
pub open spec fn pow2(k: nat) -> nat
    decreases k,
{
    if k == 0 {
        1
    } else {
        2 * pow2((k - 1) as nat)
    }
}

/// `n` is a power of two (1, 2, 4, ...).
pub open spec fn is_pow2(n: int) -> bool {
    exists|k: nat| pow2(k) == n
}

proof fn lemma_pow2_positive(k: nat)
    ensures
        pow2(k) >= 1,
    decreases k,
{
    if k > 0 {
        lemma_pow2_positive((k - 1) as nat);
    }
}

/// Halving a power of two greater than one gives a power of two.
pub proof fn lemma_half_pow2(n: int)
    requires
        is_pow2(n),
        n > 1,
    ensures
        is_pow2(n / 2),
        n % 2 == 0,
{
    let k = choose|k: nat| pow2(k) == n;
    assert(k > 0);
    assert(pow2((k - 1) as nat) == n / 2);
}

/// Doubling a power of two gives a power of two.
pub proof fn lemma_double_pow2(n: int)
    requires
        is_pow2(n),
    ensures
        is_pow2(2 * n),
{
    let k = choose|k: nat| pow2(k) == n;
    assert(pow2(k + 1) == 2 * n);
}

/// Every power of two is at least one.
pub proof fn lemma_pow2_ge_one(n: int)
    requires
        is_pow2(n),
    ensures
        n >= 1,
{
    let k = choose|k: nat| pow2(k) == n;
    lemma_pow2_positive(k);
}

/// Whether `n` is a power of two.
pub fn is_power_of_two(n: usize) -> (r: bool)
    ensures
        r == is_pow2(n as int),
    decreases n,
{
    if n == 0 {
        proof {
            if is_pow2(0) {
                lemma_pow2_ge_one(0);
            }
        }
        false
    } else if n == 1 {
        assert(pow2(0) == 1);
        true
    } else if n % 2 == 1 {
        proof {
            if is_pow2(n as int) {
                lemma_half_pow2(n as int);
            }
        }
        false
    } else {
        let r = is_power_of_two(n / 2);
        proof {
            if r {
                lemma_double_pow2((n / 2) as int);
            } else if is_pow2(n as int) {
                lemma_half_pow2(n as int);
            }
        }
        r
    }
}

/// The smallest power of two that is at least `n` (1 for `n == 0`).
pub fn next_power_of_two(n: usize) -> (r: usize)
    requires
        n <= usize::MAX / 2,
    ensures
        is_pow2(r as int),
        r >= n,
        r == 1 || r < 2 * n,
{
    let mut p: usize = 1;
    assert(pow2(0) == 1);
    while p < n
        invariant
            is_pow2(p as int),
            p >= 1,
            n <= usize::MAX / 2,
            p == 1 || p < 2 * n,
        decreases 2 * n - p,
    {
        proof {
            lemma_double_pow2(p as int);
        }
        p = p * 2;
    }
    p
}

} // verus!
