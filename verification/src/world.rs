//! World-facade layout logic: the standard gravity and sub-step constants
//! the world steps with, and the particle layout of a spawned liquid block.

use vstd::prelude::*;
use crate::fixed::COORD_LIMIT;
use crate::vec3::{in_coord_vec, Vec3};

verus! {

/// The fixed physics sub-step the world advances by (a sixtieth of a
/// second, rounded to fixed point).
pub const WORLD_DT: i64 = 16_667;

/// Vertical component of standard gravity (-9.81 world units per second
/// squared).
pub const GRAVITY_Y: i64 = -9_810_000;

/// Particles per edge of a spawned liquid block.
pub const LIQUID_BLOCK_N: usize = 5;

/// Spacing between liquid particles (twice the particle radius).
pub const LIQUID_SPACING: i64 = 200_000;

/// The standard gravity acceleration vector.
pub fn standard_gravity() -> (g: Vec3)
    ensures
        g == (Vec3 { x: 0, y: GRAVITY_Y, z: 0 }),
        in_coord_vec(g),
{
    Vec3 { x: 0, y: GRAVITY_Y, z: 0 }
}

/// The particle a liquid block places at lattice coordinates `(i, j, k)`.
pub open spec fn spec_liquid_point(origin: Vec3, i: int, j: int, k: int) -> Vec3 {
    Vec3 {
        x: (origin.x + i * LIQUID_SPACING) as i64,
        y: (origin.y + j * LIQUID_SPACING) as i64,
        z: (origin.z + k * LIQUID_SPACING) as i64,
    }
}

/// The positions of one spawned liquid block: a regular
/// `LIQUID_BLOCK_N`-cubed lattice of fluid particles starting at the origin
/// point, in row-major order (x outermost, z innermost).
pub fn liquid_block_positions(origin: Vec3) -> (out: Vec<Vec3>)
    requires
        in_coord_vec(origin),
        origin.x + 4 * LIQUID_SPACING <= COORD_LIMIT,
        origin.y + 4 * LIQUID_SPACING <= COORD_LIMIT,
        origin.z + 4 * LIQUID_SPACING <= COORD_LIMIT,
    ensures
        out@.len() == 125,
        forall|n: int|
            0 <= n < 125 ==> #[trigger] out@[n] == spec_liquid_point(
                origin,
                n / 25,
                (n % 25) / 5,
                n % 5,
            ),
        forall|n: int| 0 <= n < 125 ==> in_coord_vec(#[trigger] out@[n]),
{
    let mut out: Vec<Vec3> = Vec::new();
    let mut n: usize = 0;
    while n < 125
        invariant
            in_coord_vec(origin),
            origin.x + 4 * LIQUID_SPACING <= COORD_LIMIT,
            origin.y + 4 * LIQUID_SPACING <= COORD_LIMIT,
            origin.z + 4 * LIQUID_SPACING <= COORD_LIMIT,
            n <= 125,
            out@.len() == n,
            forall|t: int|
                0 <= t < n ==> #[trigger] out@[t] == spec_liquid_point(
                    origin,
                    t / 25,
                    (t % 25) / 5,
                    t % 5,
                ),
            forall|t: int| 0 <= t < n ==> in_coord_vec(#[trigger] out@[t]),
        decreases 125 - n,
    {
        let i = n / 25;
        let j = (n % 25) / 5;
        let k = n % 5;
        let p = Vec3 {
            x: origin.x + (i as i64) * LIQUID_SPACING,
            y: origin.y + (j as i64) * LIQUID_SPACING,
            z: origin.z + (k as i64) * LIQUID_SPACING,
        };
        out.push(p);
        n = n + 1;
    }
    out
}

} // verus!
