//! Powers of two and binary logarithms on machine integers.
use vstd::arithmetic::power2::{lemma_pow2_strictly_increases, lemma_pow2_unfold, pow2};
use vstd::prelude::*;

verus! {

/// `n` is a power of two.
pub open spec fn is_power_of_two(n: nat) -> bool {
    exists|k: nat| pow2(k) == n
}

/// The largest power of two that fits in a `usize`.
pub open spec fn max_usize_pow2() -> nat {
    (usize::MAX / 2 + 1) as nat
}

/// `r` is the smallest power of two that is at least `n`.
pub open spec fn is_next_power_of_two(n: nat, r: nat) -> bool {
    &&& is_power_of_two(r)
    &&& n <= r
    &&& (r == 1 || r / 2 < n)
}

/// `2^0 == 1`.
pub proof fn lemma_pow2_zero()
    ensures
        pow2(0) == 1,
{
    vstd::arithmetic::power2::lemma2_to64();
}

/// Doubling a power of two gives the next power of two.
pub proof fn lemma_pow2_double(k: nat)
    ensures
        pow2(k + 1) == 2 * pow2(k),
{
    lemma_pow2_unfold(k + 1);
}

/// Powers of two are positive.
pub proof fn lemma_pow2_positive(k: nat)
    ensures
        pow2(k) >= 1,
{
    vstd::arithmetic::power2::lemma_pow2_pos(k);
}

/// Powers of two are monotone in the exponent.
pub proof fn lemma_pow2_monotone(a: nat, b: nat)
    requires
        a <= b,
    ensures
        pow2(a) <= pow2(b),
{
    if a < b {
        lemma_pow2_strictly_increases(a, b);
    }
}

/// No power of two lies strictly between `2^k` and `2^(k+1)`.
pub proof fn lemma_no_pow2_between(k: nat, n: nat)
    requires
        pow2(k) < n < 2 * pow2(k),
    ensures
        !is_power_of_two(n),
{
    assert forall|j: nat| pow2(j) != n by {
        if j <= k {
            lemma_pow2_monotone(j, k);
        } else {
            lemma_pow2_monotone(k + 1, j);
            lemma_pow2_double(k);
        }
    }
}

/// The smallest power of two that is at least `n` is unique.
pub proof fn lemma_next_power_of_two_unique(n: nat, r1: nat, r2: nat)
    requires
        is_next_power_of_two(n, r1),
        is_next_power_of_two(n, r2),
    ensures
        r1 == r2,
{
    let k1 = choose|k: nat| pow2(k) == r1;
    let k2 = choose|k: nat| pow2(k) == r2;
    lemma_pow2_positive(k1);
    lemma_pow2_positive(k2);
    if k1 < k2 {
        lemma_pow2_monotone(k1, (k2 - 1) as nat);
        lemma_pow2_double((k2 - 1) as nat);
    } else if k2 < k1 {
        lemma_pow2_monotone(k2, (k1 - 1) as nat);
        lemma_pow2_double((k1 - 1) as nat);
    }
}

/// Whether `n` is a power of two.
pub fn is_power_of_two_usize(n: usize) -> (r: bool)
    ensures
        r == is_power_of_two(n as nat),
{
    if n == 0 {
        assert forall|j: nat| pow2(j) != 0 by {
            lemma_pow2_positive(j);
        }
        return false;
    }
    let k = ilog2(n);
    let mut p: usize = 1;
    let mut i: u32 = 0;
    proof {
        lemma_pow2_zero();
    }
    while i < k
        invariant
            i <= k,
            p == pow2(i as nat),
            pow2(k as nat) <= n,
        decreases k - i,
    {
        proof {
            lemma_pow2_double(i as nat);
            lemma_pow2_monotone((i + 1) as nat, k as nat);
        }
        p = p * 2;
        i = i + 1;
    }
    if p == n {
        true
    } else {
        proof {
            lemma_pow2_double(k as nat);
            lemma_no_pow2_between(k as nat, n as nat);
        }
        false
    }
}

/// The binary logarithm of `n`, rounded down.
pub fn ilog2(n: usize) -> (r: u32)
    requires
        n > 0,
    ensures
        pow2(r as nat) <= n,
        n < pow2((r + 1) as nat),
{
    let mut m: usize = n;
    let mut r: u32 = 0;
    proof {
        lemma_pow2_zero();
    }
    while m > 1
        invariant
            1 <= m <= n,
            r < 64,
            pow2(r as nat) * m <= n,
            n < pow2(r as nat) * (m + 1),
        decreases m,
    {
        proof {
            lemma_pow2_double(r as nat);
            let p = pow2(r as nat);
            assert(p * 2 * (m / 2) <= p * m) by (nonlinear_arith)
                requires
                    p >= 0,
                    m >= 0,
            ;
            assert(p * (m + 1) <= p * 2 * (m / 2 + 1)) by (nonlinear_arith)
                requires
                    p >= 0,
                    m >= 0,
            ;
            assert(r < 63) by {
                if r >= 63 {
                    lemma_pow2_monotone(63, r as nat);
                    vstd::arithmetic::power2::lemma2_to64_rest();
                    assert(p * m >= p * 2) by (nonlinear_arith)
                        requires
                            m >= 2,
                            p >= 0,
                    ;
                }
            }
        }
        m = m / 2;
        r = r + 1;
    }
    proof {
        lemma_pow2_double(r as nat);
        assert(m == 1);
        assert(pow2(r as nat) * (m + 1) == 2 * pow2(r as nat)) by (nonlinear_arith)
            requires
                m == 1,
        ;
        assert(((r + 1) as nat) == r as nat + 1);
    }
    r
}

/// The largest power of two that fits in a `usize` is a power of two.
pub proof fn lemma_max_usize_pow2()
    ensures
        exists|j: nat| pow2(j) == max_usize_pow2(),
{
    vstd::arithmetic::power2::lemma2_to64();
    vstd::arithmetic::power2::lemma2_to64_rest();
    if usize::MAX == 0xffff_ffff {
        assert(pow2(31) == max_usize_pow2());
    } else {
        assert(pow2(63) == max_usize_pow2());
    }
}

/// A power of two below another one is at most half of it.
pub proof fn lemma_pow2_below(k: nat, m: nat)
    requires
        pow2(k) < m,
        is_power_of_two(m),
    ensures
        2 * pow2(k) <= m,
{
    let j = choose|j: nat| pow2(j) == m;
    if j <= k {
        lemma_pow2_monotone(j, k);
    }
    lemma_pow2_monotone(k + 1, j);
    lemma_pow2_double(k);
}

/// The smallest power of two that is at least `n`.
pub fn next_power_of_two(n: usize) -> (r: usize)
    requires
        n <= max_usize_pow2(),
    ensures
        is_next_power_of_two(n as nat, r as nat),
{
    let mut p: usize = 1;
    let ghost mut k: nat = 0;
    proof {
        lemma_pow2_zero();
    }
    while p < n
        invariant
            p == pow2(k),
            p >= 1,
            p <= max_usize_pow2(),
            p == 1 || p / 2 < n,
            n <= max_usize_pow2(),
        decreases max_usize_pow2() - p,
    {
        proof {
            lemma_max_usize_pow2();
            lemma_pow2_below(k, max_usize_pow2());
            lemma_pow2_double(k);
            k = k + 1;
        }
        p = p * 2;
    }
    p
}

} // verus!
