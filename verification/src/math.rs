//! Small integer helpers shared by the physics and rasterization code:
//! clamping, integer square root and flooring division by the fixed-point
//! scale.

use vstd::prelude::*;

verus! {

/// Fixed-point quantities in this crate are integers counting thousandths
/// of a cell (or of the derived units built from cells).
pub const SCALE: i64 = 1000;

/// `r` is the integer square root of `n`.
pub open spec fn is_isqrt(n: int, r: int) -> bool {
    0 <= r && r * r <= n && n < (r + 1) * (r + 1)
}

/// The integer square root as a function of `n`; for `n >= 0` it is the
/// unique `r` with `is_isqrt(n, r)`.
pub open spec fn isqrt_spec(n: int) -> int {
    choose|r: int| is_isqrt(n, r)
}

/// Two integer square roots of the same value coincide.
proof fn lemma_isqrt_unique(n: int, r1: int, r2: int)
    requires
        is_isqrt(n, r1),
        is_isqrt(n, r2),
    ensures
        r1 == r2,
{
    assert(r1 == r2) by (nonlinear_arith)
        requires
            0 <= r1,
            r1 * r1 <= n,
            n < (r1 + 1) * (r1 + 1),
            0 <= r2,
            r2 * r2 <= n,
            n < (r2 + 1) * (r2 + 1),
    ;
}

/// A witness that `r` is an integer square root of `n` pins `isqrt_spec`.
pub proof fn lemma_isqrt_val(n: int, r: int)
    requires
        is_isqrt(n, r),
    ensures
        isqrt_spec(n) == r,
{
    assert(exists|q: int| is_isqrt(n, q)) by {
        assert(is_isqrt(n, r));
    }
    lemma_isqrt_unique(n, isqrt_spec(n), r);
}

/// `x` clamped into `[-limit, limit]`.
pub open spec fn clamp_spec(x: int, limit: int) -> int {
    if x < -limit {
        -limit
    } else if x > limit {
        limit
    } else {
        x
    }
}

/// Clamp `x` into `[-limit, limit]`.
pub fn clamp_i64(x: i64, limit: i64) -> (r: i64)
    requires
        0 <= limit,
    ensures
        r == clamp_spec(x as int, limit as int),
{
    if x < -limit {
        -limit
    } else if x > limit {
        limit
    } else {
        x
    }
}

/// Integer square root of `n`, by binary search.
pub fn isqrt(n: u64) -> (r: u64)
    ensures
        is_isqrt(n as int, r as int),
        r as int == isqrt_spec(n as int),
{
    if n == 0 {
        proof {
            lemma_isqrt_val(0, 0);
        }
        return 0;
    }
    let mut lo: u64 = 0;
    let mut hi: u64 = 0x1_0000_0000;
    proof {
        assert((hi as int) * (hi as int) > n as int) by (nonlinear_arith)
            requires
                hi == 0x1_0000_0000u64,
                n <= u64::MAX,
        ;
    }
    while lo + 1 < hi
        invariant
            lo < hi <= 0x1_0000_0000u64,
            (lo as int) * (lo as int) <= n as int,
            (n as int) < (hi as int) * (hi as int),
        decreases hi - lo,
    {
        let mid = lo + (hi - lo) / 2;
        proof {
            assert((mid as int) * (mid as int) <= 0x1_0000_0000_0000_0000int) by (nonlinear_arith)
                requires
                    mid <= 0x1_0000_0000u64,
            ;
        }
        if (mid as u128) * (mid as u128) <= n as u128 {
            lo = mid;
        } else {
            hi = mid;
        }
    }
    proof {
        lemma_isqrt_val(n as int, lo as int);
    }
    lo
}

/// Flooring division of `a` by the fixed-point scale; in specifications it
/// is exactly the Euclidean `/` on `int`.
pub fn floor_div_scale(a: i64) -> (q: i64)
    ensures
        q == a as int / SCALE as int,
{
    proof {
        vstd::arithmetic::div_mod::lemma_div_is_ordered(i64::MIN as int, a as int, SCALE as int);
        vstd::arithmetic::div_mod::lemma_div_is_ordered(a as int, i64::MAX as int, SCALE as int);
        vstd::arithmetic::div_mod::lemma_div_nonincreasing(i64::MAX as int, SCALE as int);
        assert(i64::MIN as int / SCALE as int >= i64::MIN) by (nonlinear_arith);
    }
    a.checked_div_euclid(SCALE).unwrap()
}

} // verus!
