//! Three-component fixed-point vectors.

use vstd::prelude::*;
use crate::fixed::{
    clamped, div_tz, in_coord, int_sqrt, mul_div_clamped, sqrt_floor, COORD_LIMIT,
};

verus! {

/// A point or direction in world space, in fixed-point units.
#[derive(Clone, Copy, Debug, PartialEq, Eq, Structural)]
pub struct Vec3 {
    pub x: i64,
    pub y: i64,
    pub z: i64,
}

/// Every component is a storable coordinate.
pub open spec fn in_coord_vec(v: Vec3) -> bool {
    in_coord(v.x as int) && in_coord(v.y as int) && in_coord(v.z as int)
}

/// Every component is at most the difference of two storable coordinates.
pub open spec fn in_delta_vec(v: Vec3) -> bool {
    &&& -2 * COORD_LIMIT <= v.x <= 2 * COORD_LIMIT
    &&& -2 * COORD_LIMIT <= v.y <= 2 * COORD_LIMIT
    &&& -2 * COORD_LIMIT <= v.z <= 2 * COORD_LIMIT
}

/// Component-wise saturating sum.
pub open spec fn spec_add_clamped(a: Vec3, b: Vec3) -> Vec3 {
    Vec3 { x: clamped(a.x + b.x) as i64, y: clamped(a.y + b.y) as i64, z: clamped(
        a.z + b.z,
    ) as i64 }
}

/// Component-wise saturating difference.
pub open spec fn spec_sub_clamped(a: Vec3, b: Vec3) -> Vec3 {
    Vec3 { x: clamped(a.x - b.x) as i64, y: clamped(a.y - b.y) as i64, z: clamped(
        a.z - b.z,
    ) as i64 }
}

/// Exact component-wise difference of two in-range vectors.
pub open spec fn spec_sub(a: Vec3, b: Vec3) -> Vec3
    recommends
        in_coord_vec(a),
        in_coord_vec(b),
{
    Vec3 { x: (a.x - b.x) as i64, y: (a.y - b.y) as i64, z: (a.z - b.z) as i64 }
}

/// Component-wise `v * n / d`, rounded toward zero and saturated.
pub open spec fn spec_scale(v: Vec3, n: int, d: int) -> Vec3
    recommends
        d > 0,
{
    Vec3 { x: clamped(div_tz(v.x * n, d)) as i64, y: clamped(div_tz(v.y * n, d)) as i64, z: clamped(
        div_tz(v.z * n, d),
    ) as i64 }
}

/// Squared Euclidean norm, as an unbounded integer.
pub open spec fn norm_sq(v: Vec3) -> int {
    v.x * v.x + v.y * v.y + v.z * v.z
}

/// Euclidean norm, rounded down to an integer.
pub open spec fn norm_of(v: Vec3) -> int {
    sqrt_floor(norm_sq(v) as nat) as int
}

impl Vec3 {
    /// The zero vector.
    pub fn zero() -> (r: Vec3)
        ensures
            r == (Vec3 { x: 0, y: 0, z: 0 }),
    {
        Vec3 { x: 0, y: 0, z: 0 }
    }

    /// Saturating sum.
    pub fn add_clamped(self, o: Vec3) -> (r: Vec3)
        requires
            in_coord_vec(self) || in_delta_vec(self),
            in_coord_vec(o) || in_delta_vec(o),
        ensures
            r == spec_add_clamped(self, o),
            in_coord_vec(r),
    {
        Vec3 {
            x: clamp_wide(self.x + o.x),
            y: clamp_wide(self.y + o.y),
            z: clamp_wide(self.z + o.z),
        }
    }

    /// Saturating difference.
    pub fn sub_clamped(self, o: Vec3) -> (r: Vec3)
        requires
            in_coord_vec(self) || in_delta_vec(self),
            in_coord_vec(o) || in_delta_vec(o),
        ensures
            r == spec_sub_clamped(self, o),
            in_coord_vec(r),
    {
        Vec3 {
            x: clamp_wide(self.x - o.x),
            y: clamp_wide(self.y - o.y),
            z: clamp_wide(self.z - o.z),
        }
    }

    /// Exact difference of two in-range vectors.
    pub fn sub(self, o: Vec3) -> (r: Vec3)
        requires
            in_coord_vec(self),
            in_coord_vec(o),
        ensures
            r == spec_sub(self, o),
            in_delta_vec(r),
    {
        Vec3 { x: self.x - o.x, y: self.y - o.y, z: self.z - o.z }
    }

    /// Component-wise `v * n / d`, rounded toward zero and saturated.
    pub fn scale_clamped(self, n: i64, d: i64) -> (r: Vec3)
        requires
            d > 0,
            n > i64::MIN,
            self.x > i64::MIN,
            self.y > i64::MIN,
            self.z > i64::MIN,
        ensures
            r == spec_scale(self, n as int, d as int),
            in_coord_vec(r),
    {
        Vec3 {
            x: mul_div_clamped(self.x, n, d),
            y: mul_div_clamped(self.y, n, d),
            z: mul_div_clamped(self.z, n, d),
        }
    }

    /// Euclidean norm of a difference vector, rounded down.
    pub fn norm(self) -> (r: i64)
        requires
            in_delta_vec(self),
        ensures
            r == norm_of(self),
            0 <= r <= 4_000_000_000_000_000,
    {
        let xx: u128 = square_delta(self.x);
        let yy: u128 = square_delta(self.y);
        let zz: u128 = square_delta(self.z);
        let s: u128 = xx + yy + zz;
        let r = int_sqrt(s);
        r as i64
    }
}

/// The norm of a vector on the X axis is the magnitude of its X component.
pub proof fn lemma_norm_axis(v: Vec3)
    requires
        v.y == 0,
        v.z == 0,
    ensures
        norm_of(v) == if v.x >= 0 {
            v.x as int
        } else {
            -(v.x as int)
        },
{
    let a: int = if v.x >= 0 {
        v.x as int
    } else {
        -(v.x as int)
    };
    assert(norm_sq(v) == a * a && a * a >= 0 && a * a < (a + 1) * (a + 1)) by (nonlinear_arith)
        requires
            v.y == 0,
            v.z == 0,
            a == if v.x >= 0 {
                v.x as int
            } else {
                -(v.x as int)
            },
            a >= 0,
    ;
    crate::fixed::lemma_sqrt_floor_unique(norm_sq(v) as nat, a as nat);
}

/// The norm of a vector on the Z axis is the magnitude of its Z component.
pub proof fn lemma_norm_axis_z(v: Vec3)
    requires
        v.x == 0,
        v.y == 0,
    ensures
        norm_of(v) == if v.z >= 0 {
            v.z as int
        } else {
            -(v.z as int)
        },
{
    let a: int = if v.z >= 0 {
        v.z as int
    } else {
        -(v.z as int)
    };
    assert(norm_sq(v) == a * a && a * a >= 0 && a * a < (a + 1) * (a + 1)) by (nonlinear_arith)
        requires
            v.x == 0,
            v.y == 0,
            a == if v.z >= 0 {
                v.z as int
            } else {
                -(v.z as int)
            },
            a >= 0,
    ;
    crate::fixed::lemma_sqrt_floor_unique(norm_sq(v) as nat, a as nat);
}

/// Saturate a sum or difference of two in-range scalars (fits in `i64`).
fn clamp_wide(s: i64) -> (r: i64)
    requires
        -4 * COORD_LIMIT <= s <= 4 * COORD_LIMIT,
    ensures
        r == clamped(s as int),
        in_coord(r as int),
{
    if s > COORD_LIMIT {
        COORD_LIMIT
    } else if s < -COORD_LIMIT {
        -COORD_LIMIT
    } else {
        s
    }
}

/// Square of a difference component.
fn square_delta(c: i64) -> (r: u128)
    requires
        -2 * COORD_LIMIT <= c <= 2 * COORD_LIMIT,
    ensures
        r == c * c,
        r <= 4_000_000_000_000_000_000_000_000_000_000,
{
    assert((c as int) * (c as int) <= 4_000_000_000_000_000_000_000_000_000_000 && 0 <= (c as int)
        * (c as int) && (c as i128) * (c as i128) == (c as int) * (c as int)) by (nonlinear_arith)
        requires
            -2 * COORD_LIMIT <= c <= 2 * COORD_LIMIT,
            COORD_LIMIT == 1_000_000_000_000_000,
    ;
    let w: i128 = (c as i128) * (c as i128);
    w as u128
}

} // verus!
