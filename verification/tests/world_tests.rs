//! Tests for the registry, command dispatch, render buffer and spawn layout.

use physics_sandbox::commands::{decide, SimCommand, Spawn, DEFAULT_SPAWN_Y};
use physics_sandbox::fixed::{add_clamped, clamp_coord, int_sqrt, mul_div_clamped, COORD_LIMIT, SCALE};
use physics_sandbox::registry::{BodyHandle, ObjectKind, ObjectRegistry};
use physics_sandbox::render_data::{get_first_object_y, get_render_data, BodyState, Quat};
use physics_sandbox::vec3::Vec3;
use physics_sandbox::world::liquid_block_positions;

fn v3(x: i64, y: i64, z: i64) -> Vec3 {
    Vec3 { x, y, z }
}

fn handle(index: u32, generation: u32) -> BodyHandle {
    BodyHandle { index, generation }
}

fn body_state(h: BodyHandle, pos: Vec3, dynamic: bool) -> BodyState {
    BodyState {
        handle: h,
        position: pos,
        rotation: Quat { x: 0, y: 0, z: 0, w: SCALE },
        dynamic,
    }
}

#[test]
fn registry_lookup_and_default_tag() {
    let mut reg = ObjectRegistry::new();
    reg.register(handle(0, 1), ObjectKind::Cuboid);
    reg.register(handle(1, 1), ObjectKind::Sphere);
    reg.register(handle(2, 3), ObjectKind::Liquid);
    assert_eq!(reg.kind_of(handle(0, 1)), Some(ObjectKind::Cuboid));
    assert_eq!(reg.kind_of(handle(1, 1)), Some(ObjectKind::Sphere));
    assert_eq!(reg.kind_of(handle(1, 2)), None);
    assert_eq!(reg.tag_of(handle(0, 1)), 0);
    assert_eq!(reg.tag_of(handle(1, 1)), 1);
    assert_eq!(reg.tag_of(handle(2, 3)), 2);
    // absent handles default to the box tag
    assert_eq!(reg.tag_of(handle(9, 9)), 0);
}

#[test]
fn registry_find_by_index_ignores_generation() {
    let mut reg = ObjectRegistry::new();
    reg.register(handle(4, 7), ObjectKind::Sphere);
    reg.register(handle(5, 1), ObjectKind::Cuboid);
    assert_eq!(reg.find_by_index(4), Some(handle(4, 7)));
    assert_eq!(reg.find_by_index(5), Some(handle(5, 1)));
    assert_eq!(reg.find_by_index(6), None);
}

#[test]
fn render_buffer_shape_and_records() {
    let mut reg = ObjectRegistry::new();
    reg.register(handle(0, 1), ObjectKind::Sphere);
    let bodies = vec![
        body_state(handle(0, 1), v3(1_000_000, 2_000_000, 3_000_000), true),
        body_state(handle(1, 1), v3(-4_000_000, 500_000, 0), true),
    ];
    let fluid = vec![v3(7, 8, 9), v3(10, 11, 12), v3(13, 14, 15)];
    let data = get_render_data(&reg, &bodies, &fluid);
    // one eight-wide record per rigid body, then per fluid particle
    assert_eq!(data.len(), (2 + 3) * 8);
    // first body: position, identity rotation, sphere tag (scaled)
    assert_eq!(&data[0..8], &[
        1_000_000,
        2_000_000,
        3_000_000,
        0,
        0,
        0,
        SCALE,
        1 * SCALE,
    ]);
    // second body is not registered: box tag 0
    assert_eq!(data[8 + 7], 0);
    // fluid records: identity rotation, liquid tag 2 (scaled)
    assert_eq!(&data[16..24], &[7, 8, 9, 0, 0, 0, SCALE, 2 * SCALE]);
    assert_eq!(data[4 * 8 + 0], 13);
    assert_eq!(data[4 * 8 + 7], 2 * SCALE);
}

#[test]
fn first_object_y_picks_first_dynamic() {
    let floor = body_state(handle(0, 1), v3(0, -100_000, 0), false);
    let ball = body_state(handle(1, 1), v3(0, 4_700_000, 0), true);
    let cube = body_state(handle(2, 1), v3(0, 9_000_000, 0), true);
    assert_eq!(get_first_object_y(&vec![floor, ball, cube]), 4_700_000);
    assert_eq!(get_first_object_y(&vec![floor]), 0);
    assert_eq!(get_first_object_y(&vec![]), 0);
}

#[test]
fn liquid_block_is_a_five_cube_lattice() {
    let origin = v3(1_000_000, 5_000_000, -2_000_000);
    let out = liquid_block_positions(origin);
    assert_eq!(out.len(), 125);
    assert_eq!(out[0], origin);
    // innermost axis is z
    assert_eq!(out[1], v3(1_000_000, 5_000_000, -1_800_000));
    // then y
    assert_eq!(out[5], v3(1_000_000, 5_200_000, -2_000_000));
    // then x
    assert_eq!(out[25], v3(1_200_000, 5_000_000, -2_000_000));
    assert_eq!(out[124], v3(1_800_000, 5_800_000, -1_200_000));
}

#[test]
fn decide_defaults_position() {
    let c = SimCommand { cmd: "spawn_box".to_string(), x: None, y: None, z: None };
    let spawns = decide(&c).unwrap();
    assert_eq!(spawns.len(), 1);
    assert_eq!(spawns[0], Spawn::Cuboid(v3(0, DEFAULT_SPAWN_Y, 0)));
}

#[test]
fn decide_primitive_commands() {
    let c = SimCommand {
        cmd: "spawn_sphere".to_string(),
        x: Some(1_000_000),
        y: Some(2_000_000),
        z: Some(-3_000_000),
    };
    assert_eq!(decide(&c).unwrap(), vec![Spawn::Sphere(v3(1_000_000, 2_000_000, -3_000_000))]);
    let c = SimCommand { cmd: "spawn_liquid".to_string(), x: Some(7), y: None, z: None };
    assert_eq!(decide(&c).unwrap(), vec![Spawn::Liquid(v3(7, DEFAULT_SPAWN_Y, 0))]);
    let c = SimCommand { cmd: "spawn_cloth".to_string(), x: None, y: Some(9), z: None };
    assert_eq!(decide(&c).unwrap(), vec![Spawn::Cloth(v3(0, 9, 0))]);
}

#[test]
fn decide_presets_expand_to_primitives() {
    let c = SimCommand { cmd: "spawn_avalanche".to_string(), x: None, y: None, z: None };
    let spawns = decide(&c).unwrap();
    assert_eq!(spawns.len(), 6);
    assert_eq!(spawns[0], Spawn::Cuboid(v3(-1_500_000, DEFAULT_SPAWN_Y, 0)));
    assert_eq!(spawns[1], Spawn::Sphere(v3(1_500_000, DEFAULT_SPAWN_Y, 0)));
    assert_eq!(spawns[5], Spawn::Sphere(v3(1_500_000, DEFAULT_SPAWN_Y + 4_000_000, 0)));
    let c = SimCommand { cmd: "spawn_tsunami".to_string(), x: None, y: Some(0), z: None };
    let spawns = decide(&c).unwrap();
    assert_eq!(spawns.len(), 3);
    assert_eq!(spawns[0], Spawn::Liquid(v3(0, 0, 0)));
    assert_eq!(spawns[2], Spawn::Liquid(v3(2_400_000, 0, 0)));
}

#[test]
fn decide_rejects_unknown_commands() {
    let c = SimCommand { cmd: "spawn_dragon".to_string(), x: None, y: None, z: None };
    assert!(decide(&c).is_none());
    let c = SimCommand { cmd: "".to_string(), x: None, y: None, z: None };
    assert!(decide(&c).is_none());
}

#[test]
fn decide_saturates_wild_coordinates() {
    let c = SimCommand { cmd: "spawn_box".to_string(), x: Some(i64::MAX), y: None, z: Some(
        i64::MIN,
    ) };
    let spawns = decide(&c).unwrap();
    assert_eq!(spawns[0], Spawn::Cuboid(v3(COORD_LIMIT, DEFAULT_SPAWN_Y, -COORD_LIMIT)));
}

#[test]
fn fixed_point_primitives() {
    assert_eq!(int_sqrt(0), 0);
    assert_eq!(int_sqrt(1), 1);
    assert_eq!(int_sqrt(3), 1);
    assert_eq!(int_sqrt(4), 2);
    assert_eq!(int_sqrt(10), 3);
    assert_eq!(int_sqrt(1_000_000_000_000), 1_000_000);
    // quotients round toward zero
    assert_eq!(mul_div_clamped(7, 1, 2), 3);
    assert_eq!(mul_div_clamped(-7, 1, 2), -3);
    assert_eq!(mul_div_clamped(-500_000, 9, 10), -450_000);
    // sums saturate at the coordinate limit
    assert_eq!(add_clamped(COORD_LIMIT, COORD_LIMIT), COORD_LIMIT);
    assert_eq!(add_clamped(-COORD_LIMIT, -COORD_LIMIT), -COORD_LIMIT);
    assert_eq!(clamp_coord(i64::MAX), COORD_LIMIT);
}

#[test]
fn vector_norm_is_euclidean() {
    let d = v3(3_000_000, 4_000_000, 0);
    assert_eq!(d.norm(), 5_000_000);
    assert_eq!(v3(0, 0, 0).norm(), 0);
    assert_eq!(v3(-1, 0, 0).norm(), 1);
    // truncated: |(1, 1, 1)| = floor(sqrt(3))
    assert_eq!(v3(1, 1, 1).norm(), 1);
}
