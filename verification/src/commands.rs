//! Spawn-command dispatch: turning a transport message (a command name with
//! optional coordinates) into the primitive spawns the world performs.
//! Coordinates default to `(0, 5, 0)` when absent and are saturated into the
//! storable range; unrecognized command names dispatch to nothing.

use vstd::prelude::*;
use crate::fixed::{clamp_coord, clamped};
use crate::vec3::{in_coord_vec, spec_add_clamped, Vec3};

verus! {

/// Default spawn height when a command carries no coordinates
/// (five world units up).
pub const DEFAULT_SPAWN_Y: i64 = 5_000_000;

/// Width of the cloth grid the cloth command spawns.
pub const CLOTH_GRID_WIDTH: usize = 10;

/// Height of the cloth grid the cloth command spawns.
pub const CLOTH_GRID_HEIGHT: usize = 10;

/// Particle spacing of a spawned cloth grid (a fifth of a world unit).
pub const CLOTH_SPACING: i64 = 200_000;

/// A spawn command as delivered by the transport: a command name and
/// optional coordinates.
pub struct SimCommand {
    pub cmd: String,
    pub x: Option<i64>,
    pub y: Option<i64>,
    pub z: Option<i64>,
}

/// One primitive spawn for the world to perform.
#[derive(Clone, Copy, Debug, PartialEq, Eq, Structural)]
pub enum Spawn {
    Cuboid(Vec3),
    Sphere(Vec3),
    Liquid(Vec3),
    Cloth(Vec3),
}

/// A coordinate, or its default when absent.
pub open spec fn spec_coord_or(c: Option<i64>, d: i64) -> i64 {
    match c {
        Option::Some(v) => v,
        Option::None => d,
    }
}

/// The position a command spawns at: given coordinates defaulted to
/// `(0, 5, 0)` where absent, saturated into the storable range.
pub open spec fn spec_command_position(x: Option<i64>, y: Option<i64>, z: Option<i64>) -> Vec3 {
    Vec3 {
        x: clamped(spec_coord_or(x, 0) as int) as i64,
        y: clamped(spec_coord_or(y, DEFAULT_SPAWN_Y) as int) as i64,
        z: clamped(spec_coord_or(z, 0) as int) as i64,
    }
}

/// The avalanche preset: a double column of boxes and spheres stacked over
/// the spawn point, released together.
pub open spec fn spec_avalanche(p: Vec3) -> Seq<Spawn> {
    seq![
        Spawn::Cuboid(spec_add_clamped(p, Vec3 { x: -1_500_000i64, y: 0, z: 0 })),
        Spawn::Sphere(spec_add_clamped(p, Vec3 { x: 1_500_000, y: 0, z: 0 })),
        Spawn::Cuboid(spec_add_clamped(p, Vec3 { x: -1_500_000i64, y: 2_000_000, z: 0 })),
        Spawn::Sphere(spec_add_clamped(p, Vec3 { x: 1_500_000, y: 2_000_000, z: 0 })),
        Spawn::Cuboid(spec_add_clamped(p, Vec3 { x: -1_500_000i64, y: 4_000_000, z: 0 })),
        Spawn::Sphere(spec_add_clamped(p, Vec3 { x: 1_500_000, y: 4_000_000, z: 0 })),
    ]
}

/// The tsunami preset: a row of liquid blocks along the X axis.
pub open spec fn spec_tsunami(p: Vec3) -> Seq<Spawn> {
    seq![
        Spawn::Liquid(p),
        Spawn::Liquid(spec_add_clamped(p, Vec3 { x: 1_200_000, y: 0, z: 0 })),
        Spawn::Liquid(spec_add_clamped(p, Vec3 { x: 2_400_000, y: 0, z: 0 })),
    ]
}

/// What a command name dispatches to at a spawn position: one primitive
/// spawn for the four plain commands, a preset expansion for the two
/// world-scale commands, nothing for an unrecognized name.
pub open spec fn spec_decide(name: Seq<char>, p: Vec3) -> Option<Seq<Spawn>> {
    if name == "spawn_box"@ {
        Option::Some(seq![Spawn::Cuboid(p)])
    } else if name == "spawn_sphere"@ {
        Option::Some(seq![Spawn::Sphere(p)])
    } else if name == "spawn_liquid"@ {
        Option::Some(seq![Spawn::Liquid(p)])
    } else if name == "spawn_cloth"@ {
        Option::Some(seq![Spawn::Cloth(p)])
    } else if name == "spawn_avalanche"@ {
        Option::Some(spec_avalanche(p))
    } else if name == "spawn_tsunami"@ {
        Option::Some(spec_tsunami(p))
    } else {
        Option::None
    }
}

/// The position a command spawns at.
pub fn command_position(c: &SimCommand) -> (p: Vec3)
    ensures
        p == spec_command_position(c.x, c.y, c.z),
        in_coord_vec(p),
{
    let x = match c.x {
        Option::Some(v) => v,
        Option::None => 0,
    };
    let y = match c.y {
        Option::Some(v) => v,
        Option::None => DEFAULT_SPAWN_Y,
    };
    let z = match c.z {
        Option::Some(v) => v,
        Option::None => 0,
    };
    Vec3 { x: clamp_coord(x), y: clamp_coord(y), z: clamp_coord(z) }
}

/// Dispatch one command: the primitive spawns it asks for, or nothing when
/// the command name is not recognized (the caller may log such commands;
/// they have no effect).
pub fn decide(c: &SimCommand) -> (r: Option<Vec<Spawn>>)
    ensures
        ({
            let sd = spec_decide(c.cmd@, spec_command_position(c.x, c.y, c.z));
            match r {
                Option::Some(v) => sd matches Option::Some(s) && v@ == s,
                Option::None => sd is None,
            }
        }),
{
    let p = command_position(c);
    let mut out: Vec<Spawn> = Vec::new();
    if c.cmd == "spawn_box".to_owned() {
        out.push(Spawn::Cuboid(p));
        proof {
            assert(out@ =~= seq![Spawn::Cuboid(p)]);
        }
        Option::Some(out)
    } else if c.cmd == "spawn_sphere".to_owned() {
        out.push(Spawn::Sphere(p));
        proof {
            assert(out@ =~= seq![Spawn::Sphere(p)]);
        }
        Option::Some(out)
    } else if c.cmd == "spawn_liquid".to_owned() {
        out.push(Spawn::Liquid(p));
        proof {
            assert(out@ =~= seq![Spawn::Liquid(p)]);
        }
        Option::Some(out)
    } else if c.cmd == "spawn_cloth".to_owned() {
        out.push(Spawn::Cloth(p));
        proof {
            assert(out@ =~= seq![Spawn::Cloth(p)]);
        }
        Option::Some(out)
    } else if c.cmd == "spawn_avalanche".to_owned() {
        out.push(Spawn::Cuboid(p.add_clamped(Vec3 { x: -1_500_000, y: 0, z: 0 })));
        out.push(Spawn::Sphere(p.add_clamped(Vec3 { x: 1_500_000, y: 0, z: 0 })));
        out.push(Spawn::Cuboid(p.add_clamped(Vec3 { x: -1_500_000, y: 2_000_000, z: 0 })));
        out.push(Spawn::Sphere(p.add_clamped(Vec3 { x: 1_500_000, y: 2_000_000, z: 0 })));
        out.push(Spawn::Cuboid(p.add_clamped(Vec3 { x: -1_500_000, y: 4_000_000, z: 0 })));
        out.push(Spawn::Sphere(p.add_clamped(Vec3 { x: 1_500_000, y: 4_000_000, z: 0 })));
        proof {
            assert(out@ =~= spec_avalanche(p));
        }
        Option::Some(out)
    } else if c.cmd == "spawn_tsunami".to_owned() {
        out.push(Spawn::Liquid(p));
        out.push(Spawn::Liquid(p.add_clamped(Vec3 { x: 1_200_000, y: 0, z: 0 })));
        out.push(Spawn::Liquid(p.add_clamped(Vec3 { x: 2_400_000, y: 0, z: 0 })));
        proof {
            assert(out@ =~= spec_tsunami(p));
        }
        Option::Some(out)
    } else {
        Option::None
    }
}

} // verus!
