//! Fixed-point scalar arithmetic.
//!
//! A scalar is an `i64` counting millionths of a world unit. Sums are
//! saturated into the coordinate range; products are divided with rounding
//! toward zero, mirroring how a magnitude-and-sign computation truncates.

use vstd::prelude::*;

verus! {

/// Number of fixed-point units in one world unit.
pub const SCALE: i64 = 1_000_000;

/// Largest magnitude a stored coordinate or velocity component may take
/// (one billion world units).
pub const COORD_LIMIT: i64 = 1_000_000_000_000_000;

/// Largest squared norm of a difference of two in-range vectors:
/// `3 * (2 * COORD_LIMIT)^2`.
pub const NORM_SQ_LIMIT: u128 = 12_000_000_000_000_000_000_000_000_000_000;

/// A scalar that may be stored as a coordinate or velocity component.
pub open spec fn in_coord(x: int) -> bool {
    -COORD_LIMIT <= x <= COORD_LIMIT
}

/// Saturation of an arbitrary integer into the coordinate range.
pub open spec fn clamped(x: int) -> int {
    if x < -COORD_LIMIT {
        -COORD_LIMIT as int
    } else if x > COORD_LIMIT {
        COORD_LIMIT as int
    } else {
        x
    }
}

/// Quotient rounded toward zero, for a positive divisor.
pub open spec fn div_tz(a: int, d: int) -> int
    recommends
        d > 0,
{
    if a >= 0 {
        a / d
    } else {
        -((-a) / d)
    }
}

/// The integer square root (largest `r` with `r * r <= x`).
pub open spec fn sqrt_floor(x: nat) -> nat
    decreases x,
{
    if x == 0 {
        0
    } else {
        let r = sqrt_floor((x - 1) as nat);
        if (r + 1) * (r + 1) <= x {
            r + 1
        } else {
            r
        }
    }
}

/// `sqrt_floor` is bracketed by the two adjacent squares.
pub proof fn lemma_sqrt_floor_bounds(x: nat)
    ensures
        sqrt_floor(x) * sqrt_floor(x) <= x,
        x < (sqrt_floor(x) + 1) * (sqrt_floor(x) + 1),
    decreases x,
{
    if x == 0 {
        assert(x < (sqrt_floor(x) + 1) * (sqrt_floor(x) + 1)) by (nonlinear_arith)
            requires
                x == 0,
                sqrt_floor(x) == 0,
        ;
    } else {
        lemma_sqrt_floor_bounds((x - 1) as nat);
        let r = sqrt_floor((x - 1) as nat);
        assert(r * r <= x - 1);
        assert(x - 1 < (r + 1) * (r + 1));
        if (r + 1) * (r + 1) <= x {
            assert(sqrt_floor(x) == r + 1);
            assert(x < (r + 2) * (r + 2)) by (nonlinear_arith)
                requires
                    x <= (r + 1) * (r + 1),
            ;
        } else {
            assert(sqrt_floor(x) == r);
            assert(x < (r + 1) * (r + 1));
        }
    }
}

/// Any `r` bracketed by the adjacent squares of `x` is its square root.
pub proof fn lemma_sqrt_floor_unique(x: nat, r: nat)
    requires
        r * r <= x,
        x < (r + 1) * (r + 1),
    ensures
        r == sqrt_floor(x),
{
    let s = sqrt_floor(x);
    lemma_sqrt_floor_bounds(x);
    if r < s {
        assert((r + 1) * (r + 1) <= s * s) by (nonlinear_arith)
            requires
                r + 1 <= s,
        ;
    }
    if s < r {
        assert((s + 1) * (s + 1) <= r * r) by (nonlinear_arith)
            requires
                s + 1 <= r,
        ;
    }
}

/// Saturate an arbitrary scalar into the coordinate range.
pub fn clamp_coord(c: i64) -> (r: i64)
    ensures
        r == clamped(c as int),
        in_coord(r as int),
{
    if c > COORD_LIMIT {
        COORD_LIMIT
    } else if c < -COORD_LIMIT {
        -COORD_LIMIT
    } else {
        c
    }
}

/// Saturating sum of two in-range scalars.
pub fn add_clamped(a: i64, b: i64) -> (r: i64)
    requires
        in_coord(a as int),
        in_coord(b as int),
    ensures
        r == clamped(a + b),
        in_coord(r as int),
{
    let s = a + b;
    if s > COORD_LIMIT {
        COORD_LIMIT
    } else if s < -COORD_LIMIT {
        -COORD_LIMIT
    } else {
        s
    }
}

/// `a * n / d` with the quotient rounded toward zero, then saturated into
/// the coordinate range.
pub fn mul_div_clamped(a: i64, n: i64, d: i64) -> (r: i64)
    requires
        d > 0,
        a > i64::MIN,
        n > i64::MIN,
    ensures
        r == clamped(div_tz(a * n, d as int)),
        in_coord(r as int),
{
    let neg_a = a < 0;
    let neg_n = n < 0;
    let ma: u128 = if neg_a {
        (-a) as u128
    } else {
        a as u128
    };
    let mn: u128 = if neg_n {
        (-n) as u128
    } else {
        n as u128
    };
    assert(ma * mn <= u128::MAX) by (nonlinear_arith)
        requires
            ma < 0x8000_0000_0000_0000,
            mn < 0x8000_0000_0000_0000,
    ;
    let q: u128 = (ma * mn) / (d as u128);
    let neg = neg_a != neg_n;
    proof {
        assert(a * n == if neg {
            -(ma * mn)
        } else {
            ma * mn as int
        }) by (nonlinear_arith)
            requires
                ma == if neg_a {
                    -a as int
                } else {
                    a as int
                },
                mn == if neg_n {
                    -n as int
                } else {
                    n as int
                },
                neg == (neg_a != neg_n),
                neg_a == (a < 0),
                neg_n == (n < 0),
        ;
        assert(q == (ma * mn) as int / (d as int));
    }
    if q > COORD_LIMIT as u128 {
        if neg {
            -COORD_LIMIT
        } else {
            COORD_LIMIT
        }
    } else {
        if neg {
            -(q as i64)
        } else {
            q as i64
        }
    }
}

/// Integer square root of a squared norm.
pub fn int_sqrt(x: u128) -> (r: u64)
    requires
        x <= NORM_SQ_LIMIT,
    ensures
        r == sqrt_floor(x as nat),
        r * r <= x,
        x < (r + 1) * (r + 1),
        r <= 4_000_000_000_000_000,
{
    let mut lo: u64 = 0;
    let mut hi: u64 = 4_000_000_000_000_000;
    assert(x < (hi + 1) * (hi + 1)) by (nonlinear_arith)
        requires
            x <= NORM_SQ_LIMIT,
            hi == 4_000_000_000_000_000,
    ;
    while lo < hi
        invariant
            lo <= hi <= 4_000_000_000_000_000,
            (lo as int) * (lo as int) <= x,
            x < (hi + 1) * (hi + 1),
        decreases hi - lo,
    {
        let mid = lo + (hi - lo + 1) / 2;
        assert(lo < mid <= hi);
        assert((mid as u128) * (mid as u128) <= u128::MAX) by (nonlinear_arith)
            requires
                mid <= 4_000_000_000_000_000,
        ;
        let sq: u128 = (mid as u128) * (mid as u128);
        if sq <= x {
            lo = mid;
        } else {
            hi = mid - 1;
        }
    }
    proof {
        lemma_sqrt_floor_unique(x as nat, lo as nat);
    }
    lo
}

} // verus!
