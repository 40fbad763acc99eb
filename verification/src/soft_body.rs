//! Particle/spring soft bodies and their position-based solver.
//!
//! A soft body owns an ordered list of particles and a list of springs whose
//! endpoints index into that list. The builder lays out a planar cloth grid;
//! the solver advances the body one time-step in three phases (gravity kick,
//! iterative spring relaxation, integration with floor and rigid-surface
//! collision resolution).

use vstd::prelude::*;
use vstd::arithmetic::div_mod::lemma_fundamental_div_mod_converse;
use crate::fixed::{clamped, div_tz, in_coord, mul_div_clamped, COORD_LIMIT, SCALE};
use crate::vec3::{
    in_coord_vec, norm_of, spec_add_clamped, spec_scale, spec_sub, spec_sub_clamped, Vec3,
};

verus! {

/// Mass given to every cloth particle (one world unit of mass).
pub const PARTICLE_MASS: i64 = 1_000_000;

/// Largest mass a particle may carry; keeps the fixed-point reciprocal
/// (`INV_MASS_ONE / mass`) at least 1 for positive masses.
pub const MASS_LIMIT: i64 = 1_000_000_000_000;

/// Numerator of the fixed-point reciprocal of a mass (`SCALE * SCALE`).
pub const INV_MASS_ONE: i64 = 1_000_000_000_000;

/// Stiffness coefficient stored on every structural spring (100 world units).
pub const STIFFNESS: i64 = 100_000_000;

/// Damping coefficient stored on every structural spring (0.5 world units).
pub const SPRING_DAMPING: i64 = 500_000;

/// A particle: point mass with a position, a velocity and a pin flag.
#[derive(Clone, Copy, Debug, PartialEq, Eq, Structural)]
pub struct Particle {
    pub position: Vec3,
    pub velocity: Vec3,
    pub mass: i64,
    pub inv_mass: i64,
    pub pinned: bool,
}

impl Particle {
    /// A free particle at rest at the given position. A positive mass gets
    /// the fixed-point reciprocal `INV_MASS_ONE / mass` (at least 1 for
    /// storable masses); a zero mass, like a pin, gets inverse mass zero.
    pub fn new(x: i64, y: i64, z: i64, mass: i64) -> (p: Particle)
        requires
            in_coord(x as int),
            in_coord(y as int),
            in_coord(z as int),
            0 <= mass <= MASS_LIMIT,
        ensures
            p.position == (Vec3 { x, y, z }),
            p.velocity == (Vec3 { x: 0, y: 0, z: 0 }),
            p.mass == mass,
            !p.pinned,
            p.inv_mass == if mass > 0 {
                INV_MASS_ONE as int / mass as int
            } else {
                0
            },
            particle_wf(p),
    {
        let inv_mass: i64 = if mass > 0 {
            assert((INV_MASS_ONE as int) / (mass as int) >= 1) by (nonlinear_arith)
                requires
                    0 < mass <= INV_MASS_ONE,
            ;
            ((INV_MASS_ONE as u64) / (mass as u64)) as i64
        } else {
            0
        };
        Particle {
            position: Vec3 { x, y, z },
            velocity: Vec3 { x: 0, y: 0, z: 0 },
            mass,
            inv_mass,
            pinned: false,
        }
    }
}

/// A spring between two particles of the same body, stored directionally.
#[derive(Clone, Copy, Debug, PartialEq, Eq, Structural)]
pub struct Spring {
    pub p1: usize,
    pub p2: usize,
    pub rest_length: i64,
    pub stiffness: i64,
    pub damping: i64,
}

/// A soft body: particles plus springs over their indices.
pub struct SoftBody {
    pub particles: Vec<Particle>,
    pub springs: Vec<Spring>,
}

/// Particle validity: stored vectors are in range, the mass is bounded, and
/// the inverse mass is zero exactly for pinned or massless particles.
pub open spec fn particle_wf(p: Particle) -> bool {
    &&& in_coord_vec(p.position)
    &&& in_coord_vec(p.velocity)
    &&& 0 <= p.mass <= MASS_LIMIT
    &&& 0 <= p.inv_mass
    &&& (p.inv_mass == 0 <==> (p.pinned || p.mass == 0))
}

/// Spring validity against a particle count: endpoints are distinct valid
/// indices and the rest length is positive and storable.
pub open spec fn spring_wf(s: Spring, n: int) -> bool {
    &&& s.p1 < n
    &&& s.p2 < n
    &&& s.p1 != s.p2
    &&& 0 < s.rest_length <= COORD_LIMIT
}

/// All particles of a sequence are valid.
pub open spec fn particles_wf(ps: Seq<Particle>) -> bool {
    forall|i: int| 0 <= i < ps.len() ==> particle_wf(#[trigger] ps[i])
}

/// All springs of a sequence are valid against a particle count.
pub open spec fn springs_wf(ss: Seq<Spring>, n: int) -> bool {
    forall|i: int| 0 <= i < ss.len() ==> spring_wf(#[trigger] ss[i], n)
}

impl SoftBody {
    /// The body is well-formed: valid particles, springs within bounds.
    pub open spec fn wf(self) -> bool {
        &&& particles_wf(self.particles@)
        &&& springs_wf(self.springs@, self.particles@.len() as int)
    }

    /// An empty body.
    pub fn new() -> (body: SoftBody)
        ensures
            body.particles@ == Seq::<Particle>::empty(),
            body.springs@ == Seq::<Spring>::empty(),
            body.wf(),
    {
        SoftBody { particles: Vec::new(), springs: Vec::new() }
    }

    /// Append one spring between two existing, distinct particles.
    fn add_spring(&mut self, p1: usize, p2: usize, rest_length: i64, stiffness: i64, damping: i64)
        requires
            old(self).wf(),
            p1 < old(self).particles@.len(),
            p2 < old(self).particles@.len(),
            p1 != p2,
            0 < rest_length <= COORD_LIMIT,
        ensures
            final(self).particles == old(self).particles,
            final(self).springs@ == old(self).springs@.push(
                Spring { p1, p2, rest_length, stiffness, damping },
            ),
            final(self).wf(),
    {
        self.springs.push(Spring { p1, p2, rest_length, stiffness, damping });
    }
}

/// The particle a cloth grid of the given width places at column `x`,
/// row `z`: positioned on the X–Z plane at the grid offset, at rest, of unit
/// mass, pinned exactly at the first row's two corners.
pub open spec fn cloth_particle(x: int, z: int, width: int, spacing: int, offset: Vec3) -> Particle {
    let pinned = z == 0 && (x == 0 || x == width - 1);
    Particle {
        position: Vec3 {
            x: (offset.x + x * spacing) as i64,
            y: offset.y,
            z: (offset.z + z * spacing) as i64,
        },
        velocity: Vec3 { x: 0, y: 0, z: 0 },
        mass: PARTICLE_MASS,
        inv_mass: if pinned {
            0
        } else {
            SCALE as i64
        },
        pinned: pinned,
    }
}

/// The cloth particle at flat offset `k` (row-major) of a grid.
pub open spec fn cloth_particle_at(k: int, width: int, spacing: int, offset: Vec3) -> Particle
    recommends
        width >= 1,
        k >= 0,
{
    cloth_particle(k % width, k / width, width, spacing, offset)
}

/// The structural spring from grid cell `(x, z)` to its right neighbour.
pub open spec fn right_spring(base: int, x: int, z: int, width: int, spacing: int) -> Spring {
    Spring {
        p1: (base + z * width + x) as usize,
        p2: (base + z * width + x + 1) as usize,
        rest_length: spacing as i64,
        stiffness: STIFFNESS,
        damping: SPRING_DAMPING,
    }
}

/// The structural spring from grid cell `(x, z)` to the cell below it.
pub open spec fn down_spring(base: int, x: int, z: int, width: int, spacing: int) -> Spring {
    Spring {
        p1: (base + z * width + x) as usize,
        p2: (base + (z + 1) * width + x) as usize,
        rest_length: spacing as i64,
        stiffness: STIFFNESS,
        damping: SPRING_DAMPING,
    }
}

/// The springs contributed by grid cell `(x, z)`: a right spring when a right
/// neighbour exists, then a down spring when a lower neighbour exists.
pub open spec fn cell_springs(
    base: int,
    x: int,
    z: int,
    width: int,
    height: int,
    spacing: int,
) -> Seq<Spring> {
    let r = if x < width - 1 {
        seq![right_spring(base, x, z, width, spacing)]
    } else {
        Seq::<Spring>::empty()
    };
    let d = if z < height - 1 {
        seq![down_spring(base, x, z, width, spacing)]
    } else {
        Seq::<Spring>::empty()
    };
    r + d
}

/// The springs contributed by the first `x` cells of row `z`.
pub open spec fn row_springs(
    base: int,
    x: int,
    z: int,
    width: int,
    height: int,
    spacing: int,
) -> Seq<Spring>
    decreases x,
{
    if x <= 0 {
        Seq::<Spring>::empty()
    } else {
        row_springs(base, x - 1, z, width, height, spacing) + cell_springs(
            base,
            x - 1,
            z,
            width,
            height,
            spacing,
        )
    }
}

/// The springs contributed by the first `z` full rows of the grid.
pub open spec fn grid_springs(
    base: int,
    z: int,
    width: int,
    height: int,
    spacing: int,
) -> Seq<Spring>
    decreases z,
{
    if z <= 0 {
        Seq::<Spring>::empty()
    } else {
        grid_springs(base, z - 1, width, height, spacing) + row_springs(
            base,
            width,
            z - 1,
            width,
            height,
            spacing,
        )
    }
}

/// Length of a partial row of springs.
pub proof fn lemma_row_springs_len(base: int, x: int, z: int, width: int, height: int, spacing: int)
    requires
        0 <= x <= width,
        width >= 1,
    ensures
        row_springs(base, x, z, width, height, spacing).len() == (if x <= width - 1 {
            x
        } else {
            x - 1
        }) + (if z < height - 1 {
            x
        } else {
            0
        }),
    decreases x,
{
    if x > 0 {
        lemma_row_springs_len(base, x - 1, z, width, height, spacing);
    }
}

/// Length of a stack of full rows of springs.
pub proof fn lemma_grid_springs_len(base: int, z: int, width: int, height: int, spacing: int)
    requires
        0 <= z <= height,
        width >= 1,
        height >= 1,
    ensures
        grid_springs(base, z, width, height, spacing).len() == z * (width - 1) + width * (if z
            <= height - 1 {
            z
        } else {
            height - 1
        }),
    decreases z,
{
    if z == 0 {
        assert(z * (width - 1) == 0 && width * z == 0) by (nonlinear_arith)
            requires
                z == 0,
        ;
    } else {
        lemma_grid_springs_len(base, z - 1, width, height, spacing);
        lemma_row_springs_len(base, width, z - 1, width, height, spacing);
        assert(z * (width - 1) == (z - 1) * (width - 1) + (width - 1)) by (nonlinear_arith);
        if z <= height - 1 {
            assert(width * z == width * (z - 1) + width) by (nonlinear_arith);
        }
    }
}

impl SoftBody {
    /// Append a `width x height` cloth grid: `width * height` particles laid
    /// out on the X–Z plane at the offset, and the structural springs between
    /// grid neighbours, sharing one stiffness and damping constant. Exactly
    /// the first row's two corner particles are pinned.
    pub fn create_cloth(&mut self, width: usize, height: usize, spacing: i64, offset: Vec3)
        requires
            old(self).wf(),
            width >= 1,
            height >= 1,
            0 < spacing <= COORD_LIMIT,
            in_coord_vec(offset),
            offset.x + (width - 1) * spacing <= COORD_LIMIT,
            offset.z + (height - 1) * spacing <= COORD_LIMIT,
            old(self).particles@.len() + width * height <= usize::MAX,
        ensures
            final(self).wf(),
            final(self).particles@.len() == old(self).particles@.len() + width * height,
            forall|k: int|
                0 <= k < old(self).particles@.len() ==> final(self).particles@[k] == old(
                    self,
                ).particles@[k],
            forall|k: int|
                old(self).particles@.len() <= k < final(self).particles@.len()
                    ==> #[trigger] final(self).particles@[k] == cloth_particle_at(
                    k - old(self).particles@.len(),
                    width as int,
                    spacing as int,
                    offset,
                ),
            final(self).springs@ == old(self).springs@ + grid_springs(
                old(self).particles@.len() as int,
                height as int,
                width as int,
                height as int,
                spacing as int,
            ),
            final(self).springs@.len() == old(self).springs@.len() + (width - 1) * height + width
                * (height - 1),
    {
        let base = self.particles.len();
        let ghost ps0 = self.particles@;
        let ghost ss0 = self.springs@;

        let mut z: usize = 0;
        while z < height
            invariant
                self.wf(),
                width >= 1,
                height >= 1,
                0 < spacing <= COORD_LIMIT,
                in_coord_vec(offset),
                offset.x + (width - 1) * spacing <= COORD_LIMIT,
                offset.z + (height - 1) * spacing <= COORD_LIMIT,
                base + width * height <= usize::MAX,
                z <= height,
                base == ps0.len(),
                self.springs@ == ss0,
                self.particles@.len() == base + z * width,
                forall|k: int| 0 <= k < base ==> self.particles@[k] == ps0[k],
                forall|k: int|
                    base <= k < self.particles@.len() ==> #[trigger] self.particles@[k]
                        == cloth_particle_at(k - base, width as int, spacing as int, offset),
            decreases height - z,
        {
            let mut x: usize = 0;
            assert(z * width + width <= width * height) by (nonlinear_arith)
                requires
                    z < height,
                    width >= 1,
            ;
            while x < width
                invariant
                    self.wf(),
                    width >= 1,
                    height >= 1,
                    0 < spacing <= COORD_LIMIT,
                    in_coord_vec(offset),
                    offset.x + (width - 1) * spacing <= COORD_LIMIT,
                    offset.z + (height - 1) * spacing <= COORD_LIMIT,
                    base + width * height <= usize::MAX,
                    z < height,
                    x <= width,
                    z * width + width <= width * height,
                    base == ps0.len(),
                    self.springs@ == ss0,
                    self.particles@.len() == base + z * width + x,
                    forall|k: int| 0 <= k < base ==> self.particles@[k] == ps0[k],
                    forall|k: int|
                        base <= k < self.particles@.len() ==> #[trigger] self.particles@[k]
                            == cloth_particle_at(k - base, width as int, spacing as int, offset),
                decreases width - x,
            {
                assert(x * spacing <= (width - 1) * spacing && x <= x * spacing && 0 <= x
                    * spacing) by (nonlinear_arith)
                    requires
                        0 <= x <= width - 1,
                        spacing >= 1,
                ;
                assert(z * spacing <= (height - 1) * spacing && z <= z * spacing && 0 <= z
                    * spacing) by (nonlinear_arith)
                    requires
                        0 <= z <= height - 1,
                        spacing >= 1,
                ;
                let px = offset.x + (x as i64) * spacing;
                let pz = offset.z + (z as i64) * spacing;
                let pinned = z == 0 && (x == 0 || x == width - 1);
                let p = Particle {
                    position: Vec3 { x: px, y: offset.y, z: pz },
                    velocity: Vec3 { x: 0, y: 0, z: 0 },
                    mass: PARTICLE_MASS,
                    inv_mass: if pinned {
                        0
                    } else {
                        SCALE
                    },
                    pinned,
                };
                proof {
                    lemma_fundamental_div_mod_converse(
                        (z * width + x) as int,
                        width as int,
                        z as int,
                        x as int,
                    );
                    assert(p == cloth_particle_at(
                        (z * width + x) as int,
                        width as int,
                        spacing as int,
                        offset,
                    ));
                }
                self.particles.push(p);
                x = x + 1;
            }
            z = z + 1;
            assert(self.particles@.len() == base + z * width) by (nonlinear_arith)
                requires
                    self.particles@.len() == base + (z - 1) * width + width,
            ;
        }
        assert(self.particles@.len() == base + width * height) by (nonlinear_arith)
            requires
                self.particles@.len() == base + height * width,
        ;

        let ghost ps1 = self.particles@;
        let mut z: usize = 0;
        while z < height
            invariant
                self.wf(),
                width >= 1,
                height >= 1,
                0 < spacing <= COORD_LIMIT,
                z <= height,
                base + width * height <= usize::MAX,
                base == ps0.len(),
                self.particles@ == ps1,
                self.particles@.len() == base + width * height,
                self.springs@ == ss0 + grid_springs(
                    base as int,
                    z as int,
                    width as int,
                    height as int,
                    spacing as int,
                ),
            decreases height - z,
        {
            let mut x: usize = 0;
            assert(z * width + width <= width * height) by (nonlinear_arith)
                requires
                    z < height,
                    width >= 1,
            ;
            while x < width
                invariant
                    self.wf(),
                    width >= 1,
                    height >= 1,
                    0 < spacing <= COORD_LIMIT,
                    z < height,
                    x <= width,
                    z * width + width <= width * height,
                    base + width * height <= usize::MAX,
                    base == ps0.len(),
                    self.particles@ == ps1,
                    self.particles@.len() == base + width * height,
                    self.springs@ == ss0 + grid_springs(
                        base as int,
                        z as int,
                        width as int,
                        height as int,
                        spacing as int,
                    ) + row_springs(
                        base as int,
                        x as int,
                        z as int,
                        width as int,
                        height as int,
                        spacing as int,
                    ),
                decreases width - x,
            {
                let idx = base + z * width + x;
                let ghost ss_cell = self.springs@;
                if x < width - 1 {
                    self.add_spring(idx, idx + 1, spacing, STIFFNESS, SPRING_DAMPING);
                }
                if z < height - 1 {
                    assert(z * width + x + width < width * height) by (nonlinear_arith)
                        requires
                            0 <= x < width,
                            0 <= z < height - 1,
                    ;
                    self.add_spring(idx, idx + width, spacing, STIFFNESS, SPRING_DAMPING);
                }
                proof {
                    assert((z + 1) * width == z * width + width) by (nonlinear_arith);
                    assert(self.springs@ =~= ss_cell + cell_springs(
                        base as int,
                        x as int,
                        z as int,
                        width as int,
                        height as int,
                        spacing as int,
                    ));
                    assert(ss0 + grid_springs(
                        base as int,
                        z as int,
                        width as int,
                        height as int,
                        spacing as int,
                    ) + row_springs(
                        base as int,
                        x + 1,
                        z as int,
                        width as int,
                        height as int,
                        spacing as int,
                    ) =~= ss_cell + cell_springs(
                        base as int,
                        x as int,
                        z as int,
                        width as int,
                        height as int,
                        spacing as int,
                    ));
                }
                x = x + 1;
            }
            z = z + 1;
            proof {
                assert(ss0 + grid_springs(
                    base as int,
                    z as int,
                    width as int,
                    height as int,
                    spacing as int,
                ) =~= ss0 + grid_springs(
                    base as int,
                    z - 1,
                    width as int,
                    height as int,
                    spacing as int,
                ) + row_springs(
                    base as int,
                    width as int,
                    z - 1,
                    width as int,
                    height as int,
                    spacing as int,
                ));
            }
        }
        proof {
            lemma_grid_springs_len(
                base as int,
                height as int,
                width as int,
                height as int,
                spacing as int,
            );
            assert((height as int) * (width - 1) == (width - 1) * height) by (nonlinear_arith);
        }
    }
}


/// Number of relaxation passes per step.
pub const RELAX_ITERATIONS: usize = 2;

/// Springs shorter than this are treated as degenerate and skipped
/// (one ten-thousandth of a world unit).
pub const DIST_EPSILON: i64 = 100;

/// Interaction radius a particle keeps from rigid surfaces
/// (a tenth of a world unit).
pub const PARTICLE_RADIUS: i64 = 100_000;

/// The closest point on any rigid surface to a queried position, and
/// whether the queried position lies inside solid geometry.
#[derive(Clone, Copy, Debug, PartialEq, Eq, Structural)]
pub struct SurfaceHit {
    pub point: Vec3,
    pub is_inside: bool,
}

/// An optional hit carries an in-range surface point.
pub open spec fn hit_wf(hit: Option<SurfaceHit>) -> bool {
    match hit {
        Option::None => true,
        Option::Some(h) => in_coord_vec(h.point),
    }
}

/// One gravity kick: a free particle gains `gravity * dt` of velocity;
/// a pinned particle is left untouched.
pub open spec fn spec_gravity_kick(p: Particle, gravity: Vec3, dt: int) -> Particle {
    if p.pinned {
        p
    } else {
        Particle {
            velocity: spec_add_clamped(p.velocity, spec_scale(gravity, dt, SCALE as int)),
            ..p
        }
    }
}

/// The whole particle list after the gravity kick.
pub open spec fn spec_after_gravity(ps: Seq<Particle>, gravity: Vec3, dt: int) -> Seq<Particle> {
    Seq::new(ps.len(), |i: int| spec_gravity_kick(ps[i], gravity, dt))
}

/// Relaxation-induced velocity damping (factor 999/1000).
pub open spec fn spec_damped(v: Vec3) -> Vec3 {
    spec_scale(v, 999, 1000)
}

/// One spring applied to the particle list: when the endpoints are farther
/// apart than the degeneracy threshold, each free endpoint is pulled toward
/// rest length by `0.4 * (dist - rest) / dist` of the separation vector and
/// its velocity is damped; pinned endpoints receive no change.
pub open spec fn spec_apply_spring(ps: Seq<Particle>, s: Spring) -> Seq<Particle>
    recommends
        spring_wf(s, ps.len() as int),
{
    let a = ps[s.p1 as int];
    let b = ps[s.p2 as int];
    let delta = spec_sub(b.position, a.position);
    let dist = norm_of(delta);
    if dist < DIST_EPSILON {
        ps
    } else {
        let corr = spec_scale(delta, 4 * (dist - s.rest_length), 10 * dist);
        let ps1 = if a.pinned {
            ps
        } else {
            ps.update(
                s.p1 as int,
                Particle {
                    position: spec_add_clamped(a.position, corr),
                    velocity: spec_damped(a.velocity),
                    ..a
                },
            )
        };
        if b.pinned {
            ps1
        } else {
            ps1.update(
                s.p2 as int,
                Particle {
                    position: spec_sub_clamped(b.position, corr),
                    velocity: spec_damped(b.velocity),
                    ..b
                },
            )
        }
    }
}

/// The particle list after the first `k` springs of one relaxation pass.
pub open spec fn spec_relax_upto(ps: Seq<Particle>, ss: Seq<Spring>, k: int) -> Seq<Particle>
    decreases k,
{
    if k <= 0 {
        ps
    } else {
        spec_apply_spring(spec_relax_upto(ps, ss, k - 1), ss[k - 1])
    }
}

/// The particle list after `n` full relaxation passes.
pub open spec fn spec_relax_iters(ps: Seq<Particle>, ss: Seq<Spring>, n: int) -> Seq<Particle>
    decreases n,
{
    if n <= 0 {
        ps
    } else {
        spec_relax_upto(spec_relax_iters(ps, ss, n - 1), ss, ss.len() as int)
    }
}

/// The tentative next position of a particle: `position + velocity * dt`.
pub open spec fn spec_tentative(p: Particle, dt: int) -> Vec3 {
    spec_add_clamped(p.position, spec_scale(p.velocity, dt, SCALE as int))
}

/// Where integration queries the rigid world for a particle: the tentative
/// position after floor clamping (pinned particles stay put and are never
/// queried).
pub open spec fn spec_probe_point(p: Particle, dt: int) -> Vec3 {
    if p.pinned {
        p.position
    } else {
        let t = spec_tentative(p, dt);
        if t.y < 0 {
            Vec3 { x: t.x, y: 0, z: t.z }
        } else {
            t
        }
    }
}

/// Integration and collision resolution for one particle. A free particle
/// moves to its tentative position; if that falls below the floor it is
/// clamped to the floor, vertical velocity is zeroed and horizontal velocity
/// loses a tenth to friction. A reported rigid hit then either snaps the
/// particle to the surface point (interior hits, halving velocity) or pushes
/// it out to the interaction radius (near hits, damping velocity by a tenth).
/// Pinned particles are untouched.
pub open spec fn spec_integrate(p: Particle, dt: int, hit: Option<SurfaceHit>) -> Particle {
    if p.pinned {
        p
    } else {
        let t = spec_tentative(p, dt);
        let pos1 = if t.y < 0 {
            Vec3 { x: t.x, y: 0, z: t.z }
        } else {
            t
        };
        let vel1 = if t.y < 0 {
            Vec3 {
                x: clamped(div_tz(p.velocity.x * 9, 10)) as i64,
                y: 0,
                z: clamped(div_tz(p.velocity.z * 9, 10)) as i64,
            }
        } else {
            p.velocity
        };
        match hit {
            Option::None => Particle { position: pos1, velocity: vel1, ..p },
            Option::Some(h) => {
                if h.is_inside {
                    Particle { position: h.point, velocity: spec_scale(vel1, 1, 2), ..p }
                } else {
                    let delta = spec_sub(pos1, h.point);
                    let dist = norm_of(delta);
                    if 0 < dist < PARTICLE_RADIUS {
                        Particle {
                            position: spec_add_clamped(
                                pos1,
                                spec_scale(delta, PARTICLE_RADIUS - dist, dist),
                            ),
                            velocity: spec_scale(vel1, 9, 10),
                            ..p
                        }
                    } else {
                        Particle { position: pos1, velocity: vel1, ..p }
                    }
                }
            },
        }
    }
}

/// A full step against empty space: gravity kick, relaxation passes, then
/// integration with no rigid hits.
pub open spec fn spec_step_free(
    ps: Seq<Particle>,
    ss: Seq<Spring>,
    gravity: Vec3,
    dt: int,
) -> Seq<Particle> {
    let relaxed = spec_relax_iters(
        spec_after_gravity(ps, gravity, dt),
        ss,
        RELAX_ITERATIONS as int,
    );
    Seq::new(relaxed.len(), |i: int| spec_integrate(relaxed[i], dt, Option::None))
}

/// One spring application preserves length, validity, every pinned
/// particle, and every particle's mass, pin flag and inverse mass.
pub proof fn lemma_apply_spring_preserves(ps: Seq<Particle>, s: Spring)
    requires
        particles_wf(ps),
        spring_wf(s, ps.len() as int),
    ensures
        spec_apply_spring(ps, s).len() == ps.len(),
        particles_wf(spec_apply_spring(ps, s)),
        forall|i: int|
            0 <= i < ps.len() ==> {
                let q = #[trigger] spec_apply_spring(ps, s)[i];
                &&& q.pinned == ps[i].pinned
                &&& q.mass == ps[i].mass
                &&& q.inv_mass == ps[i].inv_mass
                &&& (ps[i].pinned ==> q == ps[i])
            },
{
}

/// A prefix of a relaxation pass preserves the same properties.
pub proof fn lemma_relax_upto_preserves(ps: Seq<Particle>, ss: Seq<Spring>, k: int)
    requires
        particles_wf(ps),
        springs_wf(ss, ps.len() as int),
        k <= ss.len(),
    ensures
        spec_relax_upto(ps, ss, k).len() == ps.len(),
        particles_wf(spec_relax_upto(ps, ss, k)),
        forall|i: int|
            0 <= i < ps.len() ==> {
                let q = #[trigger] spec_relax_upto(ps, ss, k)[i];
                &&& q.pinned == ps[i].pinned
                &&& q.mass == ps[i].mass
                &&& q.inv_mass == ps[i].inv_mass
                &&& (ps[i].pinned ==> q == ps[i])
            },
    decreases k,
{
    if k > 0 {
        lemma_relax_upto_preserves(ps, ss, k - 1);
        lemma_apply_spring_preserves(spec_relax_upto(ps, ss, k - 1), ss[k - 1]);
    }
}

/// Any number of relaxation passes preserves the same properties.
pub proof fn lemma_relax_iters_preserves(ps: Seq<Particle>, ss: Seq<Spring>, n: int)
    requires
        particles_wf(ps),
        springs_wf(ss, ps.len() as int),
    ensures
        spec_relax_iters(ps, ss, n).len() == ps.len(),
        particles_wf(spec_relax_iters(ps, ss, n)),
        forall|i: int|
            0 <= i < ps.len() ==> {
                let q = #[trigger] spec_relax_iters(ps, ss, n)[i];
                &&& q.pinned == ps[i].pinned
                &&& q.mass == ps[i].mass
                &&& q.inv_mass == ps[i].inv_mass
                &&& (ps[i].pinned ==> q == ps[i])
            },
    decreases n,
{
    if n > 0 {
        lemma_relax_iters_preserves(ps, ss, n - 1);
        lemma_relax_upto_preserves(spec_relax_iters(ps, ss, n - 1), ss, ss.len() as int);
    }
}

impl SoftBody {
    /// Add `gravity * dt` of velocity to every free particle; pinned
    /// particles are skipped entirely.
    pub fn apply_gravity(&mut self, gravity: Vec3, dt: i64)
        requires
            old(self).wf(),
            in_coord_vec(gravity),
            0 < dt,
        ensures
            final(self).wf(),
            final(self).springs == old(self).springs,
            final(self).particles@.len() == old(self).particles@.len(),
            forall|i: int|
                0 <= i < old(self).particles@.len() ==> #[trigger] final(self).particles@[i]
                    == spec_gravity_kick(old(self).particles@[i], gravity, dt as int),
    {
        let kick = gravity.scale_clamped(dt, SCALE);
        let ghost ps0 = self.particles@;
        let n = self.particles.len();
        let mut i: usize = 0;
        while i < n
            invariant
                self.wf(),
                in_coord_vec(kick),
                kick == spec_scale(gravity, dt as int, SCALE as int),
                i <= n,
                n == ps0.len(),
                self.particles@.len() == n,
                self.springs == old(self).springs,
                forall|k: int| i <= k < n ==> self.particles@[k] == ps0[k],
                forall|k: int|
                    0 <= k < i ==> #[trigger] self.particles@[k] == spec_gravity_kick(
                        ps0[k],
                        gravity,
                        dt as int,
                    ),
            decreases n - i,
        {
            let p = self.particles[i];
            if !p.pinned {
                let q = Particle { velocity: p.velocity.add_clamped(kick), ..p };
                self.particles.set(i, q);
            }
            i = i + 1;
        }
    }

    /// Run the fixed number of relaxation passes over all springs, in order,
    /// mutating the particle list in place.
    pub fn relax_springs(&mut self)
        requires
            old(self).wf(),
        ensures
            final(self).wf(),
            final(self).springs == old(self).springs,
            final(self).particles@ == spec_relax_iters(
                old(self).particles@,
                old(self).springs@,
                RELAX_ITERATIONS as int,
            ),
    {
        let ghost ps0 = self.particles@;
        let ghost ss0 = self.springs@;
        let mut it: usize = 0;
        while it < RELAX_ITERATIONS
            invariant
                self.wf(),
                it <= RELAX_ITERATIONS,
                self.springs@ == ss0,
                self.springs == old(self).springs,
                ps0.len() == self.particles@.len(),
                particles_wf(ps0),
                springs_wf(ss0, ps0.len() as int),
                self.particles@ == spec_relax_iters(ps0, ss0, it as int),
            decreases RELAX_ITERATIONS - it,
        {
            let ghost base = self.particles@;
            proof {
                lemma_relax_iters_preserves(ps0, ss0, it as int);
            }
            let m = self.springs.len();
            let mut j: usize = 0;
            while j < m
                invariant
                    self.wf(),
                    j <= m,
                    m == ss0.len(),
                    self.springs@ == ss0,
                    self.springs == old(self).springs,
                    base.len() == self.particles@.len(),
                    particles_wf(base),
                    springs_wf(ss0, base.len() as int),
                    self.particles@ == spec_relax_upto(base, ss0, j as int),
                decreases m - j,
            {
                proof {
                    lemma_relax_upto_preserves(base, ss0, j as int);
                }
                let ghost prev = self.particles@;
                let s = self.springs[j];
                let a = self.particles[s.p1];
                let b = self.particles[s.p2];
                let delta = b.position.sub(a.position);
                let dist = delta.norm();
                if dist >= DIST_EPSILON {
                    let corr = delta.scale_clamped(4 * (dist - s.rest_length), 10 * dist);
                    if !a.pinned {
                        let na = Particle {
                            position: a.position.add_clamped(corr),
                            velocity: a.velocity.scale_clamped(999, 1000),
                            ..a
                        };
                        self.particles.set(s.p1, na);
                    }
                    if !b.pinned {
                        let nb = Particle {
                            position: b.position.sub_clamped(corr),
                            velocity: b.velocity.scale_clamped(999, 1000),
                            ..b
                        };
                        self.particles.set(s.p2, nb);
                    }
                }
                proof {
                    assert(self.particles@ =~= spec_apply_spring(prev, ss0[j as int]));
                }
                j = j + 1;
            }
            it = it + 1;
        }
    }

    /// Integration phase for one particle, against an optional rigid hit.
    pub fn integrate_particle(p: Particle, dt: i64, hit: Option<SurfaceHit>) -> (q: Particle)
        requires
            particle_wf(p),
            0 < dt,
            hit_wf(hit),
        ensures
            q == spec_integrate(p, dt as int, hit),
            particle_wf(q),
    {
        if p.pinned {
            return p;
        }
        let t = p.position.add_clamped(p.velocity.scale_clamped(dt, SCALE));
        let mut pos = t;
        let mut vel = p.velocity;
        if t.y < 0 {
            pos = Vec3 { x: t.x, y: 0, z: t.z };
            vel = Vec3 {
                x: mul_div_clamped(p.velocity.x, 9, 10),
                y: 0,
                z: mul_div_clamped(p.velocity.z, 9, 10),
            };
        }
        match hit {
            Option::None => {},
            Option::Some(h) => {
                if h.is_inside {
                    pos = h.point;
                    vel = vel.scale_clamped(1, 2);
                } else {
                    let delta = pos.sub(h.point);
                    let dist = delta.norm();
                    if 0 < dist && dist < PARTICLE_RADIUS {
                        pos = pos.add_clamped(delta.scale_clamped(PARTICLE_RADIUS - dist, dist));
                        vel = vel.scale_clamped(9, 10);
                    }
                }
            },
        }
        Particle { position: pos, velocity: vel, ..p }
    }

    /// The points at which the rigid world should be queried for each
    /// particle before `finish_step`: the floor-clamped tentative positions.
    pub fn tentative_positions(&self, dt: i64) -> (out: Vec<Vec3>)
        requires
            self.wf(),
            0 < dt,
        ensures
            out@.len() == self.particles@.len(),
            forall|i: int|
                0 <= i < out@.len() ==> #[trigger] out@[i] == spec_probe_point(
                    self.particles@[i],
                    dt as int,
                ),
    {
        let n = self.particles.len();
        let mut out: Vec<Vec3> = Vec::new();
        let mut i: usize = 0;
        while i < n
            invariant
                self.wf(),
                0 < dt,
                i <= n,
                n == self.particles@.len(),
                out@.len() == i,
                forall|k: int|
                    0 <= k < i ==> #[trigger] out@[k] == spec_probe_point(
                        self.particles@[k],
                        dt as int,
                    ),
            decreases n - i,
        {
            let p = self.particles[i];
            if p.pinned {
                out.push(p.position);
            } else {
                let t = p.position.add_clamped(p.velocity.scale_clamped(dt, SCALE));
                if t.y < 0 {
                    out.push(Vec3 { x: t.x, y: 0, z: t.z });
                } else {
                    out.push(t);
                }
            }
            i = i + 1;
        }
        out
    }

    /// Integration and collision resolution for every particle, against the
    /// rigid hits reported at the probe points.
    pub fn finish_step(&mut self, dt: i64, hits: &Vec<Option<SurfaceHit>>)
        requires
            old(self).wf(),
            0 < dt,
            hits@.len() == old(self).particles@.len(),
            forall|i: int| 0 <= i < hits@.len() ==> hit_wf(#[trigger] hits@[i]),
        ensures
            final(self).wf(),
            final(self).springs == old(self).springs,
            final(self).particles@.len() == old(self).particles@.len(),
            forall|i: int|
                0 <= i < old(self).particles@.len() ==> #[trigger] final(self).particles@[i]
                    == spec_integrate(old(self).particles@[i], dt as int, hits@[i]),
    {
        let ghost ps0 = self.particles@;
        let n = self.particles.len();
        let mut i: usize = 0;
        while i < n
            invariant
                self.wf(),
                0 < dt,
                i <= n,
                n == ps0.len(),
                self.particles@.len() == n,
                hits@.len() == n,
                forall|k: int| 0 <= k < n ==> hit_wf(#[trigger] hits@[k]),
                self.springs == old(self).springs,
                forall|k: int| i <= k < n ==> self.particles@[k] == ps0[k],
                forall|k: int|
                    0 <= k < i ==> #[trigger] self.particles@[k] == spec_integrate(
                        ps0[k],
                        dt as int,
                        hits@[k],
                    ),
            decreases n - i,
        {
            let q = Self::integrate_particle(self.particles[i], dt, hits[i]);
            self.particles.set(i, q);
            i = i + 1;
        }
    }

    /// Gravity kick plus relaxation: the first two phases of a step. The
    /// caller then queries the rigid world at `tentative_positions` and
    /// completes the step with `finish_step`.
    pub fn begin_step(&mut self, dt: i64, gravity: Vec3)
        requires
            old(self).wf(),
            in_coord_vec(gravity),
            0 < dt,
        ensures
            final(self).wf(),
            final(self).springs == old(self).springs,
            final(self).particles@.len() == old(self).particles@.len(),
            final(self).particles@ == spec_relax_iters(
                spec_after_gravity(old(self).particles@, gravity, dt as int),
                old(self).springs@,
                RELAX_ITERATIONS as int,
            ),
    {
        let ghost ps0 = self.particles@;
        let ghost ss0 = self.springs@;
        self.apply_gravity(gravity, dt);
        proof {
            assert(self.particles@ =~= spec_after_gravity(ps0, gravity, dt as int));
            lemma_relax_iters_preserves(
                spec_after_gravity(ps0, gravity, dt as int),
                ss0,
                RELAX_ITERATIONS as int,
            );
        }
        self.relax_springs();
    }

    /// Advance the body one time-step through empty space: gravity kick,
    /// relaxation passes, integration with floor collision and no rigid
    /// geometry.
    pub fn step(&mut self, dt: i64, gravity: Vec3)
        requires
            old(self).wf(),
            in_coord_vec(gravity),
            0 < dt,
        ensures
            final(self).wf(),
            final(self).springs == old(self).springs,
            final(self).particles@ == spec_step_free(
                old(self).particles@,
                old(self).springs@,
                gravity,
                dt as int,
            ),
    {
        let ghost ps0 = self.particles@;
        let ghost ss0 = self.springs@;
        self.begin_step(dt, gravity);
        let ghost relaxed = self.particles@;
        let n = self.particles.len();
        let mut i: usize = 0;
        while i < n
            invariant
                self.wf(),
                0 < dt,
                i <= n,
                n == relaxed.len(),
                self.particles@.len() == n,
                self.springs@ == ss0,
                self.springs == old(self).springs,
                forall|k: int| i <= k < n ==> self.particles@[k] == relaxed[k],
                forall|k: int|
                    0 <= k < i ==> #[trigger] self.particles@[k] == spec_integrate(
                        relaxed[k],
                        dt as int,
                        Option::None,
                    ),
            decreases n - i,
        {
            let q = Self::integrate_particle(self.particles[i], dt, Option::None);
            self.particles.set(i, q);
            i = i + 1;
        }
        proof {
            assert(self.particles@ =~= spec_step_free(ps0, ss0, gravity, dt as int));
        }
    }
}

/// A pinned particle's position and velocity are never changed by a step:
/// not by the gravity kick, not by spring relaxation, and not by
/// integration, whatever rigid hit is reported for it.
pub proof fn lemma_pinned_particle_fixed(
    ps: Seq<Particle>,
    ss: Seq<Spring>,
    gravity: Vec3,
    dt: int,
    hit: Option<SurfaceHit>,
    i: int,
)
    requires
        particles_wf(ps),
        springs_wf(ss, ps.len() as int),
        0 <= i < ps.len(),
        ps[i].pinned,
    ensures
        spec_step_free(ps, ss, gravity, dt)[i] == ps[i],
        spec_integrate(
            spec_relax_iters(spec_after_gravity(ps, gravity, dt), ss, RELAX_ITERATIONS as int)[i],
            dt,
            hit,
        ) == ps[i],
{
    let kicked = spec_after_gravity(ps, gravity, dt);
    assert(kicked[i] == ps[i]);
    lemma_relax_iters_preserves(kicked, ss, RELAX_ITERATIONS as int);
}

/// Floor clamping: a free particle whose tentative next position falls
/// below the floor ends the step exactly on the floor, with zero vertical
/// velocity (stated for steps in which no rigid surface interferes).
pub proof fn lemma_floor_clamp(p: Particle, dt: int)
    requires
        !p.pinned,
        spec_tentative(p, dt).y < 0,
    ensures
        spec_integrate(p, dt, Option::None).position.y == 0,
        spec_integrate(p, dt, Option::None).velocity.y == 0,
{
}

/// Exactly the first row's two corner particles of a cloth grid are pinned:
/// among the grid's `width * height` particles, the pinned ones are those at
/// flat offsets `0` and `width - 1` and no others.
pub proof fn lemma_cloth_pinned_exactly(
    k: int,
    width: int,
    height: int,
    spacing: int,
    offset: Vec3,
)
    requires
        width >= 1,
        height >= 1,
        0 <= k < width * height,
    ensures
        cloth_particle_at(k, width, spacing, offset).pinned <==> (k == 0 || k == width - 1),
{
    vstd::arithmetic::div_mod::lemma_fundamental_div_mod(k, width);
    vstd::arithmetic::div_mod::lemma_mod_bound(k, width);
    let q = k / width;
    let r0 = k % width;
    if k < width {
        assert(q == 0 && r0 == k) by (nonlinear_arith)
            requires
                k == width * q + r0,
                0 <= r0 < width,
                0 <= k < width,
        ;
    } else {
        assert(q >= 1) by (nonlinear_arith)
            requires
                k == width * q + r0,
                0 <= r0 < width,
                k >= width,
        ;
    }
}

/// Dividing `4 * d * e` by `10 * d` cancels the common factor.
proof fn lemma_correction_cancel(d: int, e: int)
    requires
        d > 0,
        e >= 0,
    ensures
        (4 * d * e) / (10 * d) == (4 * e) / 10,
{
    let q = (4 * e) / 10;
    let r0 = (4 * e) % 10;
    vstd::arithmetic::div_mod::lemma_fundamental_div_mod(4 * e, 10);
    vstd::arithmetic::div_mod::lemma_mod_bound(4 * e, 10);
    assert(4 * d * e == q * (10 * d) + r0 * d && 0 <= r0 * d < 10 * d) by (nonlinear_arith)
        requires
            d > 0,
            4 * e == 10 * q + r0,
            0 <= r0 < 10,
    ;
    vstd::arithmetic::div_mod::lemma_fundamental_div_mod_converse(4 * d * e, 10 * d, q, r0 * d);
}

/// Spring convergence, one relaxation: applying a spring to an isolated,
/// axis-aligned pair of free particles moves their distance monotonically
/// toward the rest length and never past it; a degenerate pair is left
/// untouched. Alignment, validity and pin flags are preserved, so the claim
/// iterates.
pub proof fn lemma_spring_relaxation_contracts(ps: Seq<Particle>, s: Spring)
    requires
        particles_wf(ps),
        ps.len() == 2,
        s.p1 == 0,
        s.p2 == 1,
        spring_wf(s, 2),
        !ps[0].pinned,
        !ps[1].pinned,
        ps[0].position.y == ps[1].position.y,
        ps[0].position.z == ps[1].position.z,
    ensures
        ({
            let qs = spec_apply_spring(ps, s);
            let d0 = norm_of(spec_sub(ps[1].position, ps[0].position));
            let d1 = norm_of(spec_sub(qs[1].position, qs[0].position));
            &&& qs.len() == 2
            &&& particles_wf(qs)
            &&& !qs[0].pinned
            &&& !qs[1].pinned
            &&& qs[0].position.y == ps[0].position.y
            &&& qs[1].position.y == ps[1].position.y
            &&& qs[0].position.z == ps[0].position.z
            &&& qs[1].position.z == ps[1].position.z
            &&& ((ps[0].velocity == (Vec3 { x: 0, y: 0, z: 0 }) && ps[1].velocity == (Vec3 {
                x: 0,
                y: 0,
                z: 0,
            })) ==> (qs[0].velocity == (Vec3 { x: 0, y: 0, z: 0 }) && qs[1].velocity == (Vec3 {
                x: 0,
                y: 0,
                z: 0,
            })))
            &&& (d0 >= s.rest_length ==> s.rest_length <= d1 <= d0)
            &&& (DIST_EPSILON <= d0 < s.rest_length ==> d0 <= d1 <= s.rest_length)
            &&& (d0 < DIST_EPSILON ==> qs == ps)
        }),
{
    lemma_apply_spring_preserves(ps, s);
    let a = ps[0];
    let b = ps[1];
    let delta = spec_sub(b.position, a.position);
    let dx = delta.x as int;
    crate::vec3::lemma_norm_axis(delta);
    let d0 = norm_of(delta);
    let r = s.rest_length as int;
    let qs = spec_apply_spring(ps, s);
    if d0 < DIST_EPSILON {
        assert(qs == ps);
    } else {
        let num = 4 * (d0 - r);
        let den = 10 * d0;
        let corr = spec_scale(delta, num, den);
        assert(delta.y * num == 0 && delta.z * num == 0) by (nonlinear_arith)
            requires
                delta.y == 0,
                delta.z == 0,
        ;
        assert(corr.y == 0 && corr.z == 0);
        let e = if d0 >= r {
            d0 - r
        } else {
            r - d0
        };
        let t0 = (4 * e) / 10;
        vstd::arithmetic::div_mod::lemma_fundamental_div_mod(4 * e, 10);
        vstd::arithmetic::div_mod::lemma_mod_bound(4 * e, 10);
        assert(0 <= t0 && 2 * t0 <= e);
        lemma_correction_cancel(d0, e);
        let cv = div_tz(dx * num, den);
        if d0 >= r {
            if dx >= 0 {
                assert(dx * num == 4 * d0 * e && dx * num >= 0) by (nonlinear_arith)
                    requires
                        dx == d0,
                        num == 4 * e,
                        e >= 0,
                        d0 > 0,
                ;
                assert(cv == t0);
            } else {
                assert(dx * num == -(4 * d0 * e) && dx * num <= 0) by (nonlinear_arith)
                    requires
                        dx == -d0,
                        num == 4 * e,
                        e >= 0,
                        d0 > 0,
                ;
                assert(cv == -t0);
            }
        } else {
            if dx >= 0 {
                assert(dx * num == -(4 * d0 * e) && dx * num <= 0) by (nonlinear_arith)
                    requires
                        dx == d0,
                        num == -4 * e,
                        e >= 0,
                        d0 > 0,
                ;
                assert(cv == -t0);
            } else {
                assert(dx * num == 4 * d0 * e && dx * num >= 0) by (nonlinear_arith)
                    requires
                        dx == -d0,
                        num == -4 * e,
                        e >= 0,
                        d0 > 0,
                ;
                assert(cv == t0);
            }
        }
        let t = if t0 > COORD_LIMIT {
            COORD_LIMIT as int
        } else {
            t0
        };
        assert(corr.x == if (dx >= 0) == (d0 >= r) {
            t
        } else {
            -t
        });
        let ax = a.position.x as int;
        let bx = b.position.x as int;
        let nd = spec_sub(qs[1].position, qs[0].position);
        assert(nd.y == 0 && nd.z == 0);
        crate::vec3::lemma_norm_axis(nd);
        let d1 = norm_of(nd);
        if d0 >= r {
            // endpoints move toward each other by t each; both stay between
            // the old endpoints, so no saturation occurs
            assert(2 * t <= e);
            if dx >= 0 {
                assert(qs[0].position.x == ax + t);
                assert(qs[1].position.x == bx - t);
                assert(d1 == d0 - 2 * t);
            } else {
                assert(qs[0].position.x == ax - t);
                assert(qs[1].position.x == bx + t);
                assert(d1 == d0 - 2 * t);
            }
        } else {
            // endpoints move apart by at most t each; saturation can only
            // shorten the movement
            if dx >= 0 {
                let nax = qs[0].position.x as int;
                let nbx = qs[1].position.x as int;
                assert(ax - t <= nax <= ax);
                assert(bx <= nbx <= bx + t);
                assert(d0 <= nbx - nax <= d0 + 2 * t);
                assert(d1 == nbx - nax);
            } else {
                let nax = qs[0].position.x as int;
                let nbx = qs[1].position.x as int;
                assert(ax <= nax <= ax + t);
                assert(bx - t <= nbx <= bx);
                assert(d0 <= nax - nbx <= d0 + 2 * t);
                assert(d1 == nax - nbx);
            }
        }
    }
}

/// Spring convergence, iterated: repeated relaxation of an isolated,
/// axis-aligned pair of free particles keeps their distance between its
/// starting value and the rest length, approaching the rest length from one
/// side and never diverging; a degenerate pair never moves.
pub proof fn lemma_two_particle_relaxation_converges(ps: Seq<Particle>, s: Spring, n: int)
    requires
        particles_wf(ps),
        ps.len() == 2,
        s.p1 == 0,
        s.p2 == 1,
        spring_wf(s, 2),
        !ps[0].pinned,
        !ps[1].pinned,
        ps[0].position.y == ps[1].position.y,
        ps[0].position.z == ps[1].position.z,
        n >= 0,
    ensures
        ({
            let qs = spec_relax_iters(ps, seq![s], n);
            let d0 = norm_of(spec_sub(ps[1].position, ps[0].position));
            let dn = norm_of(spec_sub(qs[1].position, qs[0].position));
            &&& qs.len() == 2
            &&& particles_wf(qs)
            &&& !qs[0].pinned
            &&& !qs[1].pinned
            &&& qs[0].position.y == ps[0].position.y
            &&& qs[1].position.y == ps[1].position.y
            &&& qs[0].position.z == ps[0].position.z
            &&& qs[1].position.z == ps[1].position.z
            &&& ((ps[0].velocity == (Vec3 { x: 0, y: 0, z: 0 }) && ps[1].velocity == (Vec3 {
                x: 0,
                y: 0,
                z: 0,
            })) ==> (qs[0].velocity == (Vec3 { x: 0, y: 0, z: 0 }) && qs[1].velocity == (Vec3 {
                x: 0,
                y: 0,
                z: 0,
            })))
            &&& (d0 >= s.rest_length ==> s.rest_length <= dn <= d0)
            &&& (DIST_EPSILON <= d0 < s.rest_length ==> d0 <= dn <= s.rest_length)
            &&& (d0 < DIST_EPSILON ==> qs == ps)
        }),
    decreases n,
{
    if n > 0 {
        lemma_two_particle_relaxation_converges(ps, s, n - 1);
        let prev = spec_relax_iters(ps, seq![s], n - 1);
        lemma_spring_relaxation_contracts(prev, s);
        assert(spec_relax_upto(prev, seq![s], 1) == spec_apply_spring(
            spec_relax_upto(prev, seq![s], 0),
            seq![s][0],
        ));
        assert(spec_relax_upto(prev, seq![s], 0) == prev);
    }
}

/// The particle list after `n` whole steps through empty space.
pub open spec fn spec_steps_free(
    ps: Seq<Particle>,
    ss: Seq<Spring>,
    gravity: Vec3,
    dt: int,
    n: int,
) -> Seq<Particle>
    decreases n,
{
    if n <= 0 {
        ps
    } else {
        spec_step_free(spec_steps_free(ps, ss, gravity, dt, n - 1), ss, gravity, dt)
    }
}

/// One whole gravity-free step acts on an isolated, axis-aligned pair of
/// free particles at rest above the floor exactly as its relaxation passes
/// do: the pair stays at rest and its distance moves monotonically toward
/// the rest length.
pub proof fn lemma_two_particle_step_converges(ps: Seq<Particle>, s: Spring, dt: int)
    requires
        particles_wf(ps),
        ps.len() == 2,
        s.p1 == 0,
        s.p2 == 1,
        spring_wf(s, 2),
        !ps[0].pinned,
        !ps[1].pinned,
        ps[0].position.y == ps[1].position.y,
        ps[0].position.z == ps[1].position.z,
        ps[0].velocity == (Vec3 { x: 0, y: 0, z: 0 }),
        ps[1].velocity == (Vec3 { x: 0, y: 0, z: 0 }),
        ps[0].position.y >= 0,
        0 < dt,
    ensures
        ({
            let qs = spec_step_free(ps, seq![s], Vec3 { x: 0, y: 0, z: 0 }, dt);
            let d0 = norm_of(spec_sub(ps[1].position, ps[0].position));
            let dn = norm_of(spec_sub(qs[1].position, qs[0].position));
            &&& qs.len() == 2
            &&& particles_wf(qs)
            &&& !qs[0].pinned
            &&& !qs[1].pinned
            &&& qs[0].position.y == ps[0].position.y
            &&& qs[1].position.y == ps[1].position.y
            &&& qs[0].position.z == ps[0].position.z
            &&& qs[1].position.z == ps[1].position.z
            &&& qs[0].velocity == (Vec3 { x: 0, y: 0, z: 0 })
            &&& qs[1].velocity == (Vec3 { x: 0, y: 0, z: 0 })
            &&& (d0 >= s.rest_length ==> s.rest_length <= dn <= d0)
            &&& (DIST_EPSILON <= d0 < s.rest_length ==> d0 <= dn <= s.rest_length)
            &&& (d0 < DIST_EPSILON ==> dn == d0)
        }),
{
    let zero = Vec3 { x: 0, y: 0, z: 0 };
    let kicked = spec_after_gravity(ps, zero, dt);
    assert forall|i: int| 0 <= i < 2 implies kicked[i] == ps[i] by {
        assert(particle_wf(ps[i]));
        assert(0int * dt == 0) by (nonlinear_arith);
        assert(spec_scale(zero, dt, SCALE as int) == zero);
        assert(spec_add_clamped(ps[i].velocity, zero) == ps[i].velocity);
    }
    assert(kicked =~= ps);
    lemma_two_particle_relaxation_converges(ps, s, RELAX_ITERATIONS as int);
    let relaxed = spec_relax_iters(ps, seq![s], RELAX_ITERATIONS as int);
    let qs = spec_step_free(ps, seq![s], zero, dt);
    assert forall|i: int| 0 <= i < 2 implies qs[i] == relaxed[i] by {
        assert(particle_wf(relaxed[i]));
        let p = relaxed[i];
        assert(p.velocity.x * dt == 0 && p.velocity.y * dt == 0 && p.velocity.z * dt == 0) by (
        nonlinear_arith)
            requires
                p.velocity == (Vec3 { x: 0, y: 0, z: 0 }),
        ;
        assert(spec_scale(p.velocity, dt, SCALE as int) == zero);
        assert(spec_tentative(p, dt) == p.position);
        assert(p.position.y >= 0);
        assert(spec_integrate(p, dt, Option::None) == p);
    }
    if norm_of(spec_sub(ps[1].position, ps[0].position)) < DIST_EPSILON {
        assert(relaxed == ps);
    }
}

/// Spring convergence over repeated stepping: through any number of whole
/// gravity-free steps, an isolated, axis-aligned pair of free particles at
/// rest above the floor stays at rest, and its distance moves monotonically
/// toward the rest length, never past it and never diverging.
pub proof fn lemma_two_particle_stepping_converges(ps: Seq<Particle>, s: Spring, dt: int, n: int)
    requires
        particles_wf(ps),
        ps.len() == 2,
        s.p1 == 0,
        s.p2 == 1,
        spring_wf(s, 2),
        !ps[0].pinned,
        !ps[1].pinned,
        ps[0].position.y == ps[1].position.y,
        ps[0].position.z == ps[1].position.z,
        ps[0].velocity == (Vec3 { x: 0, y: 0, z: 0 }),
        ps[1].velocity == (Vec3 { x: 0, y: 0, z: 0 }),
        ps[0].position.y >= 0,
        0 < dt,
        n >= 0,
    ensures
        ({
            let qs = spec_steps_free(ps, seq![s], Vec3 { x: 0, y: 0, z: 0 }, dt, n);
            let d0 = norm_of(spec_sub(ps[1].position, ps[0].position));
            let dn = norm_of(spec_sub(qs[1].position, qs[0].position));
            &&& qs.len() == 2
            &&& (d0 >= s.rest_length ==> s.rest_length <= dn <= d0)
            &&& (DIST_EPSILON <= d0 < s.rest_length ==> d0 <= dn <= s.rest_length)
            &&& (d0 < DIST_EPSILON ==> dn == d0)
        }),
    decreases n,
{
    if n > 0 {
        lemma_two_particle_stepping_converges(ps, s, dt, n - 1);
        let prev = spec_steps_free(ps, seq![s], Vec3 { x: 0, y: 0, z: 0 }, dt, n - 1);
        lemma_steps_free_shape(ps, s, dt, n - 1);
        lemma_two_particle_step_converges(prev, s, dt);
    }
}

/// Through any number of gravity-free steps, the resting pair keeps its
/// shape: still two valid free particles, axis-aligned, at rest, above the
/// floor.
proof fn lemma_steps_free_shape(ps: Seq<Particle>, s: Spring, dt: int, n: int)
    requires
        particles_wf(ps),
        ps.len() == 2,
        s.p1 == 0,
        s.p2 == 1,
        spring_wf(s, 2),
        !ps[0].pinned,
        !ps[1].pinned,
        ps[0].position.y == ps[1].position.y,
        ps[0].position.z == ps[1].position.z,
        ps[0].velocity == (Vec3 { x: 0, y: 0, z: 0 }),
        ps[1].velocity == (Vec3 { x: 0, y: 0, z: 0 }),
        ps[0].position.y >= 0,
        0 < dt,
        n >= 0,
    ensures
        ({
            let qs = spec_steps_free(ps, seq![s], Vec3 { x: 0, y: 0, z: 0 }, dt, n);
            &&& qs.len() == 2
            &&& particles_wf(qs)
            &&& !qs[0].pinned
            &&& !qs[1].pinned
            &&& qs[0].position.y == ps[0].position.y
            &&& qs[1].position.y == ps[1].position.y
            &&& qs[0].position.z == ps[0].position.z
            &&& qs[1].position.z == ps[1].position.z
            &&& qs[0].velocity == (Vec3 { x: 0, y: 0, z: 0 })
            &&& qs[1].velocity == (Vec3 { x: 0, y: 0, z: 0 })
        }),
    decreases n,
{
    if n > 0 {
        lemma_steps_free_shape(ps, s, dt, n - 1);
        let prev = spec_steps_free(ps, seq![s], Vec3 { x: 0, y: 0, z: 0 }, dt, n - 1);
        lemma_two_particle_step_converges(prev, s, dt);
    }
}

/// Relaxation passes over an empty spring list change nothing.
proof fn lemma_relax_iters_empty(ps: Seq<Particle>, n: int)
    ensures
        spec_relax_iters(ps, Seq::<Spring>::empty(), n) == ps,
    decreases n,
{
    if n > 0 {
        lemma_relax_iters_empty(ps, n - 1);
    }
}

/// Floor clamping through a whole step: in a springless body stepped through
/// empty space, a free particle whose tentative next position (after the
/// gravity kick) falls below the floor ends the step exactly on the floor,
/// with zero vertical velocity and both horizontal velocity components
/// keeping nine tenths.
pub proof fn lemma_step_floor_clamp(ps: Seq<Particle>, gravity: Vec3, dt: int, i: int)
    requires
        0 <= i < ps.len(),
        !ps[i].pinned,
        spec_tentative(spec_gravity_kick(ps[i], gravity, dt), dt).y < 0,
    ensures
        ({
            let kicked = spec_gravity_kick(ps[i], gravity, dt);
            let t = spec_tentative(kicked, dt);
            let q = spec_step_free(ps, Seq::<Spring>::empty(), gravity, dt)[i];
            &&& q.position == (Vec3 { x: t.x, y: 0, z: t.z })
            &&& q.velocity == (Vec3 {
                x: clamped(div_tz(kicked.velocity.x * 9, 10)) as i64,
                y: 0,
                z: clamped(div_tz(kicked.velocity.z * 9, 10)) as i64,
            })
        }),
{
    let kicked_all = spec_after_gravity(ps, gravity, dt);
    lemma_relax_iters_empty(kicked_all, RELAX_ITERATIONS as int);
    assert(spec_step_free(ps, Seq::<Spring>::empty(), gravity, dt)[i] == spec_integrate(
        kicked_all[i],
        dt,
        Option::None,
    ));
}

/// Relaxation damping of one velocity component (factor 999/1000,
/// rounded toward zero, saturated).
pub open spec fn spec_damped_y(v: int) -> int {
    clamped(div_tz(v * 999, 1000))
}

/// The vertical velocity one gravity kick adds to a particle at rest.
pub open spec fn spec_kick_y(gravity: Vec3, dt: int) -> int {
    clamped(div_tz(gravity.y * dt, SCALE as int))
}

/// The vertical displacement one step can give a particle whose only
/// velocity is a single gravity kick.
pub open spec fn spec_kick_reach(gravity: Vec3, dt: int) -> int {
    div_tz(spec_kick_y(gravity, dt) * dt, SCALE as int)
}

/// Quotients rounded toward zero preserve order, for a positive divisor.
proof fn lemma_div_tz_ordered(a: int, b: int, d: int)
    requires
        a <= b,
        0 < d,
    ensures
        div_tz(a, d) <= div_tz(b, d),
{
    vstd::arithmetic::div_mod::lemma_div_basics(d);
    if a >= 0 {
        vstd::arithmetic::div_mod::lemma_div_is_ordered(a, b, d);
    } else if b < 0 {
        vstd::arithmetic::div_mod::lemma_div_is_ordered(-b, -a, d);
    } else {
        vstd::arithmetic::div_mod::lemma_div_is_ordered(0, b, d);
        vstd::arithmetic::div_mod::lemma_div_is_ordered(0, -a, d);
    }
}

/// Damping keeps a downward velocity component downward: it never increases
/// the magnitude, and from magnitude `b` at least `(b * 999) / 1000` is left.
proof fn lemma_damped_y_bounds(v: int, b: int)
    requires
        -COORD_LIMIT <= v <= -b,
        0 < b <= COORD_LIMIT,
    ensures
        v <= spec_damped_y(v) <= -((b * 999) / 1000),
{
    let m = -v;
    assert(div_tz(v * 999, 1000) == -((m * 999) / 1000));
    vstd::arithmetic::div_mod::lemma_div_is_ordered(m * 999, m * 1000, 1000);
    vstd::arithmetic::div_mod::lemma_div_multiples_vanish(m, 1000);
    vstd::arithmetic::div_mod::lemma_div_is_ordered(b * 999, m * 999, 1000);
    vstd::arithmetic::div_mod::lemma_div_is_ordered(0, b * 999, 1000);
    vstd::arithmetic::div_mod::lemma_div_basics(1000);
}

/// A spring exactly at its rest length corrects no position: applying it
/// damps the velocities of its free endpoints and changes nothing else.
proof fn lemma_apply_spring_at_rest(ps: Seq<Particle>, s: Spring)
    requires
        particles_wf(ps),
        spring_wf(s, ps.len() as int),
        DIST_EPSILON <= s.rest_length,
        norm_of(spec_sub(ps[s.p2 as int].position, ps[s.p1 as int].position)) == s.rest_length,
    ensures
        ({
            let a = ps[s.p1 as int];
            let b = ps[s.p2 as int];
            let ps1 = if a.pinned {
                ps
            } else {
                ps.update(s.p1 as int, Particle { velocity: spec_damped(a.velocity), ..a })
            };
            spec_apply_spring(ps, s) == (if b.pinned {
                ps1
            } else {
                ps1.update(s.p2 as int, Particle { velocity: spec_damped(b.velocity), ..b })
            })
        }),
{
    let a = ps[s.p1 as int];
    let b = ps[s.p2 as int];
    let delta = spec_sub(b.position, a.position);
    let dist = norm_of(delta);
    let num = 4 * (dist - s.rest_length);
    assert(num == 0);
    assert(delta.x * num == 0 && delta.y * num == 0 && delta.z * num == 0) by (nonlinear_arith)
        requires
            num == 0,
    ;
    vstd::arithmetic::div_mod::lemma_div_basics(10 * dist);
    assert(spec_scale(delta, num, 10 * dist) == (Vec3 { x: 0, y: 0, z: 0 }));
    assert(particle_wf(a) && particle_wf(b));
    assert(spec_add_clamped(a.position, Vec3 { x: 0, y: 0, z: 0 }) == a.position);
    assert(spec_sub_clamped(b.position, Vec3 { x: 0, y: 0, z: 0 }) == b.position);
}

/// One relaxation pass over a freshly laid two-by-two cloth: all four
/// structural springs are exactly at rest length, so no particle moves; the
/// two free particles are each damped twice (once per incident spring) and
/// the pinned corners are untouched.
proof fn lemma_small_cloth_pass(ps: Seq<Particle>, spacing: int, offset: Vec3)
    requires
        in_coord_vec(offset),
        DIST_EPSILON <= spacing <= COORD_LIMIT,
        offset.x + spacing <= COORD_LIMIT,
        offset.z + spacing <= COORD_LIMIT,
        ps.len() == 4,
        particles_wf(ps),
        forall|k: int|
            0 <= k < 4 ==> (#[trigger] ps[k]).position == cloth_particle_at(
                k,
                2,
                spacing,
                offset,
            ).position,
        forall|k: int| 0 <= k < 4 ==> ((#[trigger] ps[k]).pinned <==> (k == 0 || k == 1)),
        ps[2].velocity.x == 0 && ps[2].velocity.z == 0,
        ps[3].velocity.x == 0 && ps[3].velocity.z == 0,
    ensures
        grid_springs(0, 2, 2, 2, spacing).len() == 4,
        springs_wf(grid_springs(0, 2, 2, 2, spacing), 4),
        spec_relax_upto(ps, grid_springs(0, 2, 2, 2, spacing), 4) == ps.update(
            2,
            Particle {
                velocity: Vec3 {
                    x: 0,
                    y: spec_damped_y(spec_damped_y(ps[2].velocity.y as int)) as i64,
                    z: 0,
                },
                ..ps[2]
            },
        ).update(
            3,
            Particle {
                velocity: Vec3 {
                    x: 0,
                    y: spec_damped_y(spec_damped_y(ps[3].velocity.y as int)) as i64,
                    z: 0,
                },
                ..ps[3]
            },
        ),
{
    let sp = spacing;
    let sa = Spring {
        p1: 0usize,
        p2: 1usize,
        rest_length: sp as i64,
        stiffness: STIFFNESS,
        damping: SPRING_DAMPING,
    };
    let sb = Spring {
        p1: 0usize,
        p2: 2usize,
        rest_length: sp as i64,
        stiffness: STIFFNESS,
        damping: SPRING_DAMPING,
    };
    let sc = Spring {
        p1: 1usize,
        p2: 3usize,
        rest_length: sp as i64,
        stiffness: STIFFNESS,
        damping: SPRING_DAMPING,
    };
    let sd = Spring {
        p1: 2usize,
        p2: 3usize,
        rest_length: sp as i64,
        stiffness: STIFFNESS,
        damping: SPRING_DAMPING,
    };
    let ss = grid_springs(0, 2, 2, 2, sp);
    assert(right_spring(0, 0, 0, 2, sp) == sa);
    assert(down_spring(0, 0, 0, 2, sp) == sb);
    assert(down_spring(0, 1, 0, 2, sp) == sc);
    assert(right_spring(0, 0, 1, 2, sp) == sd);
    assert(cell_springs(0, 0, 0, 2, 2, sp) =~= seq![sa, sb]);
    assert(cell_springs(0, 1, 0, 2, 2, sp) =~= seq![sc]);
    assert(cell_springs(0, 0, 1, 2, 2, sp) =~= seq![sd]);
    assert(cell_springs(0, 1, 1, 2, 2, sp) =~= Seq::<Spring>::empty());
    assert(row_springs(0, 0, 0, 2, 2, sp) =~= Seq::<Spring>::empty());
    assert(row_springs(0, 0, 1, 2, 2, sp) =~= Seq::<Spring>::empty());
    assert(row_springs(0, 1, 0, 2, 2, sp) =~= seq![sa, sb]);
    assert(row_springs(0, 2, 0, 2, 2, sp) =~= seq![sa, sb, sc]);
    assert(row_springs(0, 1, 1, 2, 2, sp) =~= seq![sd]);
    assert(row_springs(0, 2, 1, 2, 2, sp) =~= seq![sd]);
    assert(grid_springs(0, 0, 2, 2, sp) =~= Seq::<Spring>::empty());
    assert(grid_springs(0, 1, 2, 2, sp) =~= seq![sa, sb, sc]);
    assert(ss =~= seq![sa, sb, sc, sd]);
    assert forall|i: int| 0 <= i < 4 implies spring_wf(#[trigger] ss[i], 4) by {
        assert(ss[0] == sa && ss[1] == sb && ss[2] == sc && ss[3] == sd);
    }

    let p0 = ps[0];
    let p1 = ps[1];
    let p2 = ps[2];
    let p3 = ps[3];
    assert(particle_wf(p0) && particle_wf(p1) && particle_wf(p2) && particle_wf(p3));
    assert(p0.position == (Vec3 { x: offset.x, y: offset.y, z: offset.z }));
    assert(p1.position == (Vec3 { x: (offset.x + sp) as i64, y: offset.y, z: offset.z }));
    assert(p2.position == (Vec3 { x: offset.x, y: offset.y, z: (offset.z + sp) as i64 }));
    assert(p3.position == (Vec3 {
        x: (offset.x + sp) as i64,
        y: offset.y,
        z: (offset.z + sp) as i64,
    }));
    assert(p0.pinned && p1.pinned && !p2.pinned && !p3.pinned);

    // spring (0, 1): along X at rest, both endpoints pinned
    let delta_a = spec_sub(p1.position, p0.position);
    assert(delta_a == (Vec3 { x: sp as i64, y: 0, z: 0 }));
    crate::vec3::lemma_norm_axis(delta_a);
    lemma_apply_spring_at_rest(ps, sa);
    let s1 = spec_apply_spring(ps, sa);
    assert(s1 == ps);

    // spring (0, 2): along Z at rest; the free endpoint is damped
    let delta_b = spec_sub(p2.position, p0.position);
    assert(delta_b == (Vec3 { x: 0, y: 0, z: sp as i64 }));
    crate::vec3::lemma_norm_axis_z(delta_b);
    lemma_apply_spring_at_rest(s1, sb);
    let q2 = Particle { velocity: spec_damped(p2.velocity), ..p2 };
    let s2 = spec_apply_spring(s1, sb);
    assert(s2 == ps.update(2, q2));

    // spring (1, 3): along Z at rest; the free endpoint is damped
    assert(s2[1] == p1 && s2[3] == p3);
    let delta_c = spec_sub(p3.position, p1.position);
    assert(delta_c == (Vec3 { x: 0, y: 0, z: sp as i64 }));
    crate::vec3::lemma_norm_axis_z(delta_c);
    assert(particle_wf(q2));
    assert(particles_wf(s2));
    lemma_apply_spring_at_rest(s2, sc);
    let q3 = Particle { velocity: spec_damped(p3.velocity), ..p3 };
    let s3 = spec_apply_spring(s2, sc);
    assert(s3 == ps.update(2, q2).update(3, q3));

    // spring (2, 3): along X at rest; both free endpoints are damped again
    assert(s3[2] == q2 && s3[3] == q3);
    let delta_d = spec_sub(q3.position, q2.position);
    assert(delta_d == (Vec3 { x: sp as i64, y: 0, z: 0 }));
    crate::vec3::lemma_norm_axis(delta_d);
    assert(particle_wf(q3));
    assert(particles_wf(s3));
    lemma_apply_spring_at_rest(s3, sd);
    let q2d = Particle { velocity: spec_damped(q2.velocity), ..q2 };
    let q3d = Particle { velocity: spec_damped(q3.velocity), ..q3 };
    let s4 = spec_apply_spring(s3, sd);
    assert(s4 =~= ps.update(2, q2d).update(3, q3d));

    // the pass is exactly these four applications, in order
    assert(spec_relax_upto(ps, ss, 0) == ps);
    assert(spec_relax_upto(ps, ss, 1) == s1);
    assert(spec_relax_upto(ps, ss, 2) == s2);
    assert(spec_relax_upto(ps, ss, 3) == s3);
    assert(spec_relax_upto(ps, ss, 4) == s4);

    // double damping of a vertical velocity, component by component
    assert(q2d.velocity == (Vec3 {
        x: 0,
        y: spec_damped_y(spec_damped_y(p2.velocity.y as int)) as i64,
        z: 0,
    }));
    assert(q3d.velocity == (Vec3 {
        x: 0,
        y: spec_damped_y(spec_damped_y(p3.velocity.y as int)) as i64,
        z: 0,
    }));
}

/// Scenario law: one step of a freshly spawned two-by-two cloth through
/// empty space. The two pinned first-row corners stay exactly at their
/// spawn state; both free particles acquire strictly downward velocity and
/// move strictly down. Stated for a downward gravity kick of at least one
/// world unit per second of velocity, a time-step of at least two units,
/// and a spawn height the first step cannot carry below the floor.
pub proof fn lemma_small_cloth_first_step(
    ps: Seq<Particle>,
    spacing: int,
    offset: Vec3,
    gravity: Vec3,
    dt: int,
)
    requires
        in_coord_vec(offset),
        DIST_EPSILON <= spacing <= COORD_LIMIT,
        offset.x + spacing <= COORD_LIMIT,
        offset.z + spacing <= COORD_LIMIT,
        ps.len() == 4,
        forall|k: int| 0 <= k < 4 ==> #[trigger] ps[k] == cloth_particle_at(k, 2, spacing, offset),
        gravity.x == 0,
        gravity.z == 0,
        spec_kick_y(gravity, dt) <= -SCALE,
        offset.y + spec_kick_reach(gravity, dt) >= 0,
        dt >= 2,
    ensures
        ({
            let qs = spec_step_free(ps, grid_springs(0, 2, 2, 2, spacing), gravity, dt);
            &&& qs.len() == 4
            &&& qs[0] == ps[0]
            &&& qs[1] == ps[1]
            &&& qs[2].velocity.y < 0
            &&& qs[3].velocity.y < 0
            &&& qs[2].position.y < ps[2].position.y
            &&& qs[3].position.y < ps[3].position.y
        }),
{
    let ss = grid_springs(0, 2, 2, 2, spacing);
    let kv = spec_kick_y(gravity, dt);
    let zero = Vec3 { x: 0, y: 0, z: 0 };

    assert(ps[0] == cloth_particle(0, 0, 2, spacing, offset));
    assert(ps[1] == cloth_particle(1, 0, 2, spacing, offset));
    assert(ps[2] == cloth_particle(0, 1, 2, spacing, offset));
    assert(ps[3] == cloth_particle(1, 1, 2, spacing, offset));
    assert(ps[0].pinned && ps[1].pinned && !ps[2].pinned && !ps[3].pinned);
    assert(ps[2].position.y == offset.y && ps[3].position.y == offset.y);
    assert(particle_wf(ps[0]) && particle_wf(ps[1]) && particle_wf(ps[2]) && particle_wf(ps[3]));
    assert(particles_wf(ps));

    // the gravity kick adds exactly (0, kv, 0) to each free particle
    let kicked = spec_after_gravity(ps, gravity, dt);
    assert(gravity.x * dt == 0 && gravity.z * dt == 0) by (nonlinear_arith)
        requires
            gravity.x == 0,
            gravity.z == 0,
    ;
    vstd::arithmetic::div_mod::lemma_div_basics(SCALE as int);
    assert(spec_scale(gravity, dt, SCALE as int) == (Vec3 { x: 0, y: kv as i64, z: 0 }));
    assert(kicked.len() == 4);
    assert(kicked[0] == ps[0] && kicked[1] == ps[1]);
    assert(kicked[2] == (Particle { velocity: Vec3 { x: 0, y: kv as i64, z: 0 }, ..ps[2] }));
    assert(kicked[3] == (Particle { velocity: Vec3 { x: 0, y: kv as i64, z: 0 }, ..ps[3] }));
    assert(particle_wf(kicked[2]) && particle_wf(kicked[3]));
    assert(particles_wf(kicked));

    // two relaxation passes: nothing moves, the free velocities are damped
    // twice per pass
    lemma_small_cloth_pass(kicked, spacing, offset);
    let r1 = spec_relax_upto(kicked, ss, 4);
    assert(spec_relax_iters(kicked, ss, 0) == kicked);
    assert(spec_relax_iters(kicked, ss, 1) == r1);
    let v1 = spec_damped_y(kv);
    let v2 = spec_damped_y(v1);
    assert(r1[0] == ps[0] && r1[1] == ps[1]);
    assert(r1[2] == (Particle { velocity: Vec3 { x: 0, y: v2 as i64, z: 0 }, ..kicked[2] }));
    assert(r1[3] == (Particle { velocity: Vec3 { x: 0, y: v2 as i64, z: 0 }, ..kicked[3] }));
    assert(particle_wf(r1[2]) && particle_wf(r1[3]));
    assert(particles_wf(r1));
    assert(r1.len() == 4);
    lemma_small_cloth_pass(r1, spacing, offset);
    let r2 = spec_relax_upto(r1, ss, 4);
    assert(spec_relax_iters(kicked, ss, 2) == r2);
    let v3 = spec_damped_y(v2);
    let v4 = spec_damped_y(v3);
    assert(r2[0] == ps[0] && r2[1] == ps[1]);
    assert(r2[2] == (Particle { velocity: Vec3 { x: 0, y: v4 as i64, z: 0 }, ..r1[2] }));
    assert(r2[3] == (Particle { velocity: Vec3 { x: 0, y: v4 as i64, z: 0 }, ..r1[3] }));
    assert(r2.len() == 4);

    // four dampings keep the kick's sign and most of its magnitude
    assert(-COORD_LIMIT <= kv && kv <= -1_000_000);
    lemma_damped_y_bounds(kv, 1_000_000);
    lemma_damped_y_bounds(v1, 999_000);
    lemma_damped_y_bounds(v2, 998_001);
    lemma_damped_y_bounds(v3, 997_002);
    assert(kv <= v4 <= -996_004);

    // integration moves each free particle strictly down, above the floor
    let reach = spec_kick_reach(gravity, dt);
    assert(v4 * dt <= -1_992_008) by (nonlinear_arith)
        requires
            v4 <= -996_004,
            dt >= 2,
    ;
    lemma_div_tz_ordered(v4 * dt, -1_992_008, SCALE as int);
    assert(div_tz(-1_992_008, SCALE as int) == -1);
    assert(kv * dt <= v4 * dt) by (nonlinear_arith)
        requires
            kv <= v4,
            dt >= 2,
    ;
    lemma_div_tz_ordered(kv * dt, v4 * dt, SCALE as int);
    let dy = clamped(div_tz(v4 * dt, SCALE as int));
    assert(reach >= -COORD_LIMIT);
    assert(reach <= dy <= -1);
    assert(r2[2].velocity.x * dt == 0 && r2[2].velocity.z * dt == 0 && r2[3].velocity.x * dt == 0
        && r2[3].velocity.z * dt == 0) by (nonlinear_arith)
        requires
            r2[2].velocity.x == 0,
            r2[2].velocity.z == 0,
            r2[3].velocity.x == 0,
            r2[3].velocity.z == 0,
    ;
    assert(spec_scale(r2[2].velocity, dt, SCALE as int) == (Vec3 { x: 0, y: dy as i64, z: 0 }));
    assert(spec_scale(r2[3].velocity, dt, SCALE as int) == (Vec3 { x: 0, y: dy as i64, z: 0 }));
    let t2 = spec_tentative(r2[2], dt);
    let t3 = spec_tentative(r2[3], dt);
    assert(0 <= offset.y + dy <= COORD_LIMIT);
    assert(t2.y == offset.y + dy && t3.y == offset.y + dy);

    // assemble the step
    let qs = spec_step_free(ps, ss, gravity, dt);
    assert(qs.len() == 4);
    assert(qs[0] == spec_integrate(r2[0], dt, Option::None) && qs[0] == ps[0]);
    assert(qs[1] == spec_integrate(r2[1], dt, Option::None) && qs[1] == ps[1]);
    assert(qs[2] == spec_integrate(r2[2], dt, Option::None));
    assert(qs[3] == spec_integrate(r2[3], dt, Option::None));
    assert(qs[2].velocity.y == v4 && qs[2].position.y == offset.y + dy);
    assert(qs[3].velocity.y == v4 && qs[3].position.y == offset.y + dy);
}

} // verus!
