//! Integer square root: the quadratic-power rule turns a reserved stake
//! into voting power through `isqrt`, so the weight of stake grows only
//! with its square root.

use vstd::prelude::*;

verus! {

/// `r` is the integer square root of `n`.
pub open spec fn is_isqrt(n: int, r: int) -> bool {
    0 <= r && r * r <= n && n < (r + 1) * (r + 1)
}

/// The integer square root of `n` (meaningful for `n >= 0`, see
/// `lemma_isqrt_exists`).
pub open spec fn isqrt(n: int) -> int {
    choose|r: int| is_isqrt(n, r)
}

/// Every non-negative integer has an integer square root.
pub proof fn lemma_isqrt_exists(n: int)
    requires
        n >= 0,
    ensures
        is_isqrt(n, isqrt(n)),
    decreases n,
{
    if n == 0 {
        assert(is_isqrt(0, 0));
    } else {
        lemma_isqrt_exists(n - 1);
        let r = isqrt(n - 1);
        if n < (r + 1) * (r + 1) {
            assert(is_isqrt(n, r));
        } else {
            assert(n == (r + 1) * (r + 1));
            assert((r + 2) * (r + 2) > (r + 1) * (r + 1)) by (nonlinear_arith)
                requires r >= 0;
            assert(is_isqrt(n, r + 1));
        }
    }
}

/// Integer square roots are unique.
pub proof fn lemma_isqrt_unique(n: int, r1: int, r2: int)
    requires
        is_isqrt(n, r1),
        is_isqrt(n, r2),
    ensures
        r1 == r2,
{
    if r1 < r2 {
        assert((r1 + 1) * (r1 + 1) <= r2 * r2) by (nonlinear_arith)
            requires 0 <= r1, r1 + 1 <= r2;
    } else if r2 < r1 {
        assert((r2 + 1) * (r2 + 1) <= r1 * r1) by (nonlinear_arith)
            requires 0 <= r2, r2 + 1 <= r1;
    }
}

/// The square root of anything a `u128` can hold fits in 64 bits.
pub proof fn lemma_isqrt_bound(n: int)
    requires
        0 <= n <= u128::MAX,
    ensures
        is_isqrt(n, isqrt(n)),
        0 <= isqrt(n) <= u64::MAX,
{
    lemma_isqrt_exists(n);
    let r = isqrt(n);
    if r > u64::MAX {
        assert(r * r >= (u64::MAX as int + 1) * (u64::MAX as int + 1)) by (nonlinear_arith)
            requires r >= u64::MAX as int + 1 > 0;
        assert((u64::MAX as int + 1) * (u64::MAX as int + 1) > u128::MAX as int);
    }
}

/// Computes the integer square root by binary search.
pub fn integer_sqrt(n: u128) -> (r: u128)
    ensures
        r as int == isqrt(n as int),
        is_isqrt(n as int, r as int),
        r <= u64::MAX,
{
    let mut lo: u128 = 0;
    let mut hi: u128 = 0xFFFF_FFFF_FFFF_FFFF;
    proof {
        assert((hi as int + 1) * (hi as int + 1) > u128::MAX as int);
    }
    while lo < hi
        invariant
            lo <= hi <= 0xFFFF_FFFF_FFFF_FFFFu128,
            (lo as int) * (lo as int) <= n as int,
            (n as int) < (hi as int + 1) * (hi as int + 1),
        decreases hi - lo,
    {
        let mid = lo + (hi - lo + 1) / 2;
        assert(lo < mid <= hi);
        assert((mid as int) * (mid as int) <= (u64::MAX as int) * (u64::MAX as int)) by (nonlinear_arith)
            requires 0 < mid <= u64::MAX;
        let sq = mid * mid;
        if sq <= n {
            lo = mid;
        } else {
            hi = mid - 1;
        }
    }
    proof {
        assert(is_isqrt(n as int, lo as int));
        lemma_isqrt_exists(n as int);
        lemma_isqrt_unique(n as int, lo as int, isqrt(n as int));
    }
    lo
}

} // verus!
