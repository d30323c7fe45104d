//! Integer square root.
//!
//! The growth pass measures the gap between two circles as
//! `isqrt(dist2) - r_a - r_b`: the floor of the real center distance keeps
//! all gap arithmetic exact and can never overstate the room available, so
//! growing by a floored gap can never create an overlap.

use vstd::prelude::*;

verus! {

use crate::geom::DIST2_LIMIT;

/// Floor of the square root of `n` (0 for negative `n`).
pub open spec fn isqrt_spec(n: int) -> int
    decreases n,
{
    if n <= 0 {
        0
    } else {
        let p = isqrt_spec(n - 1);
        if (p + 1) * (p + 1) <= n {
            p + 1
        } else {
            p
        }
    }
}

/// Squaring is monotone over the non-negative integers.
pub proof fn lemma_square_mono(a: int, b: int)
    by (nonlinear_arith)
    requires
        0 <= a <= b,
    ensures
        a * a <= b * b,
{
}

/// The defining property of the integer square root:
/// `isqrt(n)^2 <= n < (isqrt(n) + 1)^2`.
pub proof fn lemma_isqrt_props(n: int)
    requires
        n >= 0,
    ensures
        0 <= isqrt_spec(n),
        isqrt_spec(n) * isqrt_spec(n) <= n,
        n < (isqrt_spec(n) + 1) * (isqrt_spec(n) + 1),
    decreases n,
{
    if n == 0 {
    } else {
        lemma_isqrt_props(n - 1);
        let p = isqrt_spec(n - 1);
        if (p + 1) * (p + 1) <= n {
            assert((p + 2) * (p + 2) > (p + 1) * (p + 1)) by (nonlinear_arith)
                requires p >= 0;
        }
    }
}

/// Any non-negative value whose square is at most `n` is at most `isqrt(n)`.
pub proof fn lemma_isqrt_at_least(n: int, s: int)
    requires
        n >= 0,
        s >= 0,
        s * s <= n,
    ensures
        isqrt_spec(n) >= s,
{
    lemma_isqrt_props(n);
    if isqrt_spec(n) < s {
        lemma_square_mono(isqrt_spec(n) + 1, s);
    }
}

/// `isqrt(n)` is at most any `b` with `n < (b + 1)^2`.
pub proof fn lemma_isqrt_at_most(n: int, b: int)
    requires
        n >= 0,
        b >= 0,
        n < (b + 1) * (b + 1),
    ensures
        isqrt_spec(n) <= b,
{
    lemma_isqrt_props(n);
    if isqrt_spec(n) > b {
        lemma_square_mono(b + 1, isqrt_spec(n));
    }
}

/// Floor of the square root, computed by binary search.
pub fn isqrt64(n: i64) -> (r: i64)
    requires
        0 <= n <= DIST2_LIMIT,
    ensures
        r == isqrt_spec(n as int),
        0 <= r <= 2_828_427,
{
    let mut lo: i64 = 0;
    let mut hi: i64 = 2_828_427;
    proof {
        assert(DIST2_LIMIT < 2_828_428i64 * 2_828_428);
    }
    while lo < hi
        invariant
            0 <= lo <= hi <= 2_828_427,
            lo * lo <= n,
            n < (hi + 1) * (hi + 1),
        decreases hi - lo,
    {
        let mid = lo + (hi - lo + 1) / 2;
        proof {
            lemma_square_mono(mid as int, 2_828_427);
        }
        if mid * mid <= n {
            lo = mid;
        } else {
            hi = mid - 1;
        }
    }
    proof {
        lemma_isqrt_props(n as int);
        let s = isqrt_spec(n as int);
        if lo < s {
            lemma_square_mono(lo as int + 1, s);
        }
        if lo > s {
            lemma_square_mono(s + 1, lo as int);
        }
    }
    lo
}

} // verus!
