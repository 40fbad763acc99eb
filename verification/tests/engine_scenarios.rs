//! End-to-end scenarios: the library's bookkeeping driven against the real
//! rigid-body and fluid engines.

use physics_sandbox::registry::{BodyHandle, ObjectKind, ObjectRegistry};
use physics_sandbox::render_data::{get_first_object_y, get_render_data, BodyState, Quat};
use physics_sandbox::vec3::Vec3;
use physics_sandbox::world::liquid_block_positions;
use rapier3d::prelude::{
    BroadPhaseBvh, CCDSolver, ColliderBuilder, ColliderSet, ImpulseJointSet,
    IntegrationParameters, IslandManager, MultibodyJointSet, NarrowPhase, PhysicsPipeline,
    QueryFilter, Ray, RigidBodyBuilder, RigidBodyHandle, RigidBodySet, Vector,
};
use salva3d::integrations::rapier::FluidsPipeline;
use salva3d::object::interaction_groups::InteractionGroups as FluidGroups;
use salva3d::object::Fluid;

const FIXED_PER_UNIT: f32 = 1_000_000.0;

fn to_fixed(v: f32) -> i64 {
    (v * FIXED_PER_UNIT) as i64
}

struct RigidWorld {
    pipeline: PhysicsPipeline,
    integration_parameters: IntegrationParameters,
    islands: IslandManager,
    broad_phase: BroadPhaseBvh,
    narrow_phase: NarrowPhase,
    bodies: RigidBodySet,
    colliders: ColliderSet,
    impulse_joints: ImpulseJointSet,
    multibody_joints: MultibodyJointSet,
    ccd_solver: CCDSolver,
}

impl RigidWorld {
    fn new() -> Self {
        RigidWorld {
            pipeline: PhysicsPipeline::new(),
            integration_parameters: IntegrationParameters::default(),
            islands: IslandManager::new(),
            broad_phase: BroadPhaseBvh::new(),
            narrow_phase: NarrowPhase::new(),
            bodies: RigidBodySet::new(),
            colliders: ColliderSet::new(),
            impulse_joints: ImpulseJointSet::new(),
            multibody_joints: MultibodyJointSet::new(),
            ccd_solver: CCDSolver::new(),
        }
    }

    fn step(&mut self, gravity: Vector) {
        self.pipeline.step(
            gravity,
            &self.integration_parameters,
            &mut self.islands,
            &mut self.broad_phase,
            &mut self.narrow_phase,
            &mut self.bodies,
            &mut self.colliders,
            &mut self.impulse_joints,
            &mut self.multibody_joints,
            &mut self.ccd_solver,
            &(),
            &(),
        );
    }

    fn body_states(&self, reg: &ObjectRegistry) -> Vec<BodyState> {
        let mut out = Vec::new();
        for entry in reg.entries.iter() {
            let h = RigidBodyHandle::from_raw_parts(entry.handle.index, entry.handle.generation);
            let body = &self.bodies[h];
            let t = body.translation();
            let r = body.rotation();
            out.push(BodyState {
                handle: entry.handle,
                position: Vec3 { x: to_fixed(t.x), y: to_fixed(t.y), z: to_fixed(t.z) },
                rotation: Quat {
                    x: to_fixed(r.x),
                    y: to_fixed(r.y),
                    z: to_fixed(r.z),
                    w: to_fixed(r.w),
                },
                dynamic: body.is_dynamic(),
            });
        }
        out
    }
}

fn register(reg: &mut ObjectRegistry, h: RigidBodyHandle, kind: ObjectKind) -> u32 {
    let (index, generation) = h.into_raw_parts();
    reg.register(BodyHandle { index, generation }, kind);
    index
}

#[test]
fn scenario_sphere_settles_on_floor() {
    let mut world = RigidWorld::new();
    let mut reg = ObjectRegistry::new();

    let floor = world.bodies.insert(RigidBodyBuilder::fixed());
    world.colliders.insert_with_parent(
        ColliderBuilder::cuboid(100.0, 0.1, 100.0),
        floor,
        &mut world.bodies,
    );
    register(&mut reg, floor, ObjectKind::Cuboid);

    let ball = world.bodies.insert(
        RigidBodyBuilder::dynamic().translation(Vector::new(0.0, 5.0, 0.0)),
    );
    world.colliders.insert_with_parent(
        ColliderBuilder::ball(0.5).restitution(0.7),
        ball,
        &mut world.bodies,
    );
    register(&mut reg, ball, ObjectKind::Sphere);

    let gravity = Vector::new(0.0, -9.81, 0.0);
    for _ in 0..900 {
        world.step(gravity);
    }
    // resting height: floor top (0.1) plus ball radius (0.5)
    let y = get_first_object_y(&world.body_states(&reg));
    assert!((y - 600_000).abs() < 100_000, "resting height {}", y);
    // and it stays there
    for _ in 0..120 {
        world.step(gravity);
    }
    let y2 = get_first_object_y(&world.body_states(&reg));
    assert!((y2 - 600_000).abs() < 100_000, "drifted to {}", y2);
    // the render buffer sees both bodies with their tags
    let data = get_render_data(&reg, &world.body_states(&reg), &Vec::new());
    assert_eq!(data.len(), 2 * 8);
    assert_eq!(data[7], 0);
    assert_eq!(data[15], 1_000_000);
}

#[test]
fn scenario_ray_pick_and_impulse() {
    let mut world = RigidWorld::new();
    let mut reg = ObjectRegistry::new();

    let cube = world.bodies.insert(
        RigidBodyBuilder::dynamic().translation(Vector::new(0.0, 0.0, 0.0)),
    );
    world.colliders.insert_with_parent(
        ColliderBuilder::cuboid(0.5, 0.5, 0.5).restitution(0.7),
        cube,
        &mut world.bodies,
    );
    let spawn_id = register(&mut reg, cube, ObjectKind::Cuboid);

    // populate the broad phase, without gravity so the box stays put
    let no_gravity = Vector::new(0.0, 0.0, 0.0);
    world.step(no_gravity);

    // cast a ray straight down through the box
    let query = world.broad_phase.as_query_pipeline(
        world.narrow_phase.query_dispatcher(),
        &world.bodies,
        &world.colliders,
        QueryFilter::default(),
    );
    let ray = Ray::new(Vector::new(0.0, 5.0, 0.0), Vector::new(0.0, -1.0, 0.0));
    let (hit_collider, _toi) = query.cast_ray(&ray, 100.0, true).expect("ray must hit the box");
    let hit_body = world.colliders[hit_collider].parent().expect("collider has a body");
    let hit_id = hit_body.into_raw_parts().0;
    assert_eq!(hit_id, spawn_id);

    // resolve the public identifier back to a handle through the registry
    let handle = reg.find_by_index(hit_id).expect("registered body");
    let rb = RigidBodyHandle::from_raw_parts(handle.index, handle.generation);
    let before = world.bodies[rb].linvel().y;
    world.bodies.get_mut(rb).unwrap().apply_impulse(Vector::new(0.0, 5.0, 0.0), true);
    world.step(no_gravity);
    let after = world.bodies[rb].linvel().y;
    assert!(after > before, "impulse must raise vertical velocity: {} -> {}", before, after);

    // a ray that points away from everything misses without side effects
    let query = world.broad_phase.as_query_pipeline(
        world.narrow_phase.query_dispatcher(),
        &world.bodies,
        &world.colliders,
        QueryFilter::default(),
    );
    let miss = Ray::new(Vector::new(0.0, 5.0, 0.0), Vector::new(0.0, 1.0, 0.0));
    assert!(query.cast_ray(&miss, 100.0, true).is_none());

    // a stale identifier resolves to nothing: impulse is a silent no-op
    assert!(reg.find_by_index(9999).is_none());
}

#[test]
fn scenario_liquid_block_feeds_fluid_engine() {
    let mut fluid_pipeline = FluidsPipeline::new(0.1, 2.0);
    let fluid = Fluid::new(Vec::new(), 0.1, 1000.0, FluidGroups::default());
    let fluid_handle = fluid_pipeline.liquid_world.add_fluid(fluid);

    // lay the block out in fixed point, then hand it to the engine
    let origin = Vec3 { x: 0, y: 5_000_000, z: 0 };
    let block = liquid_block_positions(origin);
    let positions: Vec<nalgebra::Vector3<f32>> = block
        .iter()
        .map(|p| {
            nalgebra::Vector3::new(
                p.x as f32 / FIXED_PER_UNIT,
                p.y as f32 / FIXED_PER_UNIT,
                p.z as f32 / FIXED_PER_UNIT,
            )
        })
        .collect();
    let fluid = fluid_pipeline.liquid_world.fluids_mut().get_mut(fluid_handle).unwrap();
    fluid.add_particles(&positions, None);
    assert_eq!(fluid.positions.len(), 125);

    // the render buffer gains one record per fluid particle
    let reg = ObjectRegistry::new();
    let fluid_fixed: Vec<Vec3> = fluid
        .positions
        .iter()
        .map(|p| Vec3 { x: to_fixed(p.x), y: to_fixed(p.y), z: to_fixed(p.z) })
        .collect();
    let data = get_render_data(&reg, &Vec::new(), &fluid_fixed);
    assert_eq!(data.len(), 125 * 8);
    assert_eq!(data[7], 2_000_000);
}
