//! Tests for the soft-body builder and solver.

use physics_sandbox::fixed::SCALE;
use physics_sandbox::soft_body::{Particle, SoftBody, Spring, SurfaceHit};
use physics_sandbox::vec3::Vec3;
use physics_sandbox::world::WORLD_DT;

fn v3(x: i64, y: i64, z: i64) -> Vec3 {
    Vec3 { x, y, z }
}

fn zero_gravity() -> Vec3 {
    v3(0, 0, 0)
}

fn standard_gravity() -> Vec3 {
    v3(0, -9_810_000, 0)
}

fn two_particle_body(x0: i64, x1: i64, rest: i64) -> SoftBody {
    let mut body = SoftBody::new();
    let mut a = Particle::new(x0, 5_000_000, 0, SCALE);
    let mut b = Particle::new(x1, 5_000_000, 0, SCALE);
    a.velocity = v3(0, 0, 0);
    b.velocity = v3(0, 0, 0);
    body.particles.push(a);
    body.particles.push(b);
    body.springs.push(Spring {
        p1: 0,
        p2: 1,
        rest_length: rest,
        stiffness: 100_000_000,
        damping: 500_000,
    });
    body
}

#[test]
fn cloth_grid_counts() {
    let mut body = SoftBody::new();
    body.create_cloth(10, 10, 200_000, v3(0, 2_000_000, 0));
    assert_eq!(body.particles.len(), 100);
    assert_eq!(body.springs.len(), 9 * 10 + 10 * 9);
    for (k, p) in body.particles.iter().enumerate() {
        assert_eq!(p.pinned, k == 0 || k == 9, "pin flag at {}", k);
        assert_eq!(p.mass, SCALE);
        assert_eq!(p.inv_mass, if k == 0 || k == 9 { 0 } else { SCALE });
        assert_eq!(p.velocity, v3(0, 0, 0));
    }
}

#[test]
fn cloth_grid_positions() {
    let mut body = SoftBody::new();
    body.create_cloth(2, 2, 1_000_000, v3(0, 2_000_000, 0));
    assert_eq!(body.particles.len(), 4);
    assert_eq!(body.particles[0].position, v3(0, 2_000_000, 0));
    assert_eq!(body.particles[1].position, v3(1_000_000, 2_000_000, 0));
    assert_eq!(body.particles[2].position, v3(0, 2_000_000, 1_000_000));
    assert_eq!(body.particles[3].position, v3(1_000_000, 2_000_000, 1_000_000));
    assert!(body.particles[0].pinned);
    assert!(body.particles[1].pinned);
    assert!(!body.particles[2].pinned);
    assert!(!body.particles[3].pinned);
    assert_eq!(body.springs.len(), 4);
    for s in body.springs.iter() {
        assert_eq!(s.rest_length, 1_000_000);
    }
}

#[test]
fn cloth_grids_append_without_index_collision() {
    let mut body = SoftBody::new();
    body.create_cloth(3, 2, 200_000, v3(0, 2_000_000, 0));
    let first_particles = body.particles.len();
    let first_springs = body.springs.len();
    body.create_cloth(2, 2, 200_000, v3(5_000_000, 2_000_000, 0));
    assert_eq!(body.particles.len(), first_particles + 4);
    assert_eq!(body.springs.len(), first_springs + 4);
    for s in body.springs.iter().skip(first_springs) {
        assert!(s.p1 >= first_particles);
        assert!(s.p2 >= first_particles);
    }
}

#[test]
fn scenario_two_by_two_cloth_one_step() {
    let mut body = SoftBody::new();
    body.create_cloth(2, 2, 1_000_000, v3(0, 2_000_000, 0));
    let initial: Vec<Vec3> = body.particles.iter().map(|p| p.position).collect();
    body.step(WORLD_DT, standard_gravity());
    // the two pinned first-row corners are exactly where they spawned
    assert_eq!(body.particles[0].position, initial[0]);
    assert_eq!(body.particles[1].position, initial[1]);
    // the two free particles picked up downward velocity
    assert!(body.particles[2].velocity.y < 0);
    assert!(body.particles[3].velocity.y < 0);
    assert!(body.particles[2].position.y < initial[2].y);
    assert!(body.particles[3].position.y < initial[3].y);
}

#[test]
fn pinned_particles_never_move() {
    let mut body = SoftBody::new();
    body.create_cloth(4, 4, 500_000, v3(0, 3_000_000, 0));
    let p0 = body.particles[0].position;
    let p3 = body.particles[3].position;
    for _ in 0..50 {
        body.step(WORLD_DT, standard_gravity());
    }
    assert_eq!(body.particles[0].position, p0);
    assert_eq!(body.particles[3].position, p3);
    assert_eq!(body.particles[0].velocity, v3(0, 0, 0));
    assert_eq!(body.particles[3].velocity, v3(0, 0, 0));
}

#[test]
fn floor_clamp_zeroes_vertical_velocity() {
    let mut body = SoftBody::new();
    let mut p = Particle::new(0, 1_000, 0, SCALE);
    p.velocity = v3(900_000, -10_000_000, -500_000);
    body.particles.push(p);
    body.step(WORLD_DT, zero_gravity());
    let q = body.particles[0];
    // tentative y = 1_000 - 10_000_000 * 16_667 / 1_000_000 < 0: clamped
    assert_eq!(q.position.y, 0);
    assert_eq!(q.velocity.y, 0);
    // horizontal velocity keeps nine tenths (friction)
    assert_eq!(q.velocity.x, 810_000);
    assert_eq!(q.velocity.z, -450_000);
    // horizontal position advanced by velocity * dt before the clamp
    assert_eq!(q.position.x, 15_000);
    assert_eq!(q.position.z, -8_333);
}

#[test]
fn spring_distance_converges_to_rest_length() {
    let rest = 1_000_000;
    let mut body = two_particle_body(0, 3_000_000, rest);
    let mut last = (body.particles[1].position.x - body.particles[0].position.x).abs();
    assert_eq!(last, 3_000_000);
    for _ in 0..30 {
        body.step(WORLD_DT, zero_gravity());
        let dist = (body.particles[1].position.x - body.particles[0].position.x).abs();
        // monotone, from above, never past the rest length
        assert!(dist <= last);
        assert!(dist >= rest);
        last = dist;
    }
    // the fixed-point correction floors out within 2 units of rest
    assert!(last <= rest + 2);
}

#[test]
fn compressed_spring_expands_to_rest_length() {
    let rest = 2_000_000;
    let mut body = two_particle_body(0, 500_000, rest);
    let mut last = 500_000i64;
    for _ in 0..30 {
        body.step(WORLD_DT, zero_gravity());
        let dist = (body.particles[1].position.x - body.particles[0].position.x).abs();
        assert!(dist >= last);
        assert!(dist <= rest);
        last = dist;
    }
    assert!(last >= rest - 2);
}

#[test]
fn degenerate_spring_is_skipped() {
    let mut body = two_particle_body(0, 0, 1_000_000);
    body.step(WORLD_DT, zero_gravity());
    assert_eq!(body.particles[0].position, v3(0, 5_000_000, 0));
    assert_eq!(body.particles[1].position, v3(0, 5_000_000, 0));
}

#[test]
fn integrate_inside_hit_snaps_to_surface() {
    let mut p = Particle::new(0, 500_000, 0, SCALE);
    p.velocity = v3(0, -600_000, 0);
    let hit = SurfaceHit { point: v3(0, 200_000, 0), is_inside: true };
    let q = SoftBody::integrate_particle(p, WORLD_DT, Some(hit));
    assert_eq!(q.position, v3(0, 200_000, 0));
    assert_eq!(q.velocity, v3(0, -300_000, 0));
}

#[test]
fn integrate_near_hit_pushes_out_to_radius() {
    let p = Particle::new(0, 160_000, 0, SCALE);
    let hit = SurfaceHit { point: v3(0, 100_000, 0), is_inside: false };
    let q = SoftBody::integrate_particle(p, WORLD_DT, Some(hit));
    // pushed out along the surface normal to the full interaction radius
    assert_eq!(q.position, v3(0, 200_000, 0));
    assert_eq!(q.velocity, v3(0, 0, 0));
}

#[test]
fn integrate_far_hit_leaves_particle_alone() {
    let p = Particle::new(0, 400_000, 0, SCALE);
    let hit = SurfaceHit { point: v3(0, 100_000, 0), is_inside: false };
    let q = SoftBody::integrate_particle(p, WORLD_DT, Some(hit));
    assert_eq!(q.position, v3(0, 400_000, 0));
}

#[test]
fn integrate_pinned_ignores_hits() {
    let mut p = Particle::new(0, 500_000, 0, SCALE);
    p.pinned = true;
    p.inv_mass = 0;
    let hit = SurfaceHit { point: v3(0, 100_000, 0), is_inside: true };
    let q = SoftBody::integrate_particle(p, WORLD_DT, Some(hit));
    assert_eq!(q.position, p.position);
}

#[test]
fn three_phase_step_with_no_hits_matches_step() {
    let mut staged = SoftBody::new();
    staged.create_cloth(3, 3, 400_000, v3(0, 2_000_000, 0));
    let mut direct = SoftBody::new();
    direct.create_cloth(3, 3, 400_000, v3(0, 2_000_000, 0));

    staged.begin_step(WORLD_DT, standard_gravity());
    let probes = staged.tentative_positions(WORLD_DT);
    assert_eq!(probes.len(), staged.particles.len());
    let hits: Vec<Option<SurfaceHit>> = probes.iter().map(|_| None).collect();
    staged.finish_step(WORLD_DT, &hits);

    direct.step(WORLD_DT, standard_gravity());
    for (a, b) in staged.particles.iter().zip(direct.particles.iter()) {
        assert_eq!(a.position, b.position);
        assert_eq!(a.velocity, b.velocity);
    }
}

#[test]
fn large_time_steps_are_accepted() {
    let mut body = SoftBody::new();
    body.particles.push(Particle::new(0, 100_000_000_000, 0, SCALE));
    // one minute in a single step
    let dt: i64 = 60_000_000;
    body.step(dt, standard_gravity());
    let q = body.particles[0];
    // kick: -9.81 * 60 units of velocity; then one minute of free fall
    assert_eq!(q.velocity.y, -588_600_000);
    assert_eq!(q.position.y, 100_000_000_000 - 35_316_000_000);
}

#[test]
fn particle_new_inverse_mass() {
    assert_eq!(Particle::new(0, 0, 0, SCALE).inv_mass, SCALE);
    assert_eq!(Particle::new(0, 0, 0, 2_000_000).inv_mass, 500_000);
    assert_eq!(Particle::new(0, 0, 0, 0).inv_mass, 0);
    assert_eq!(Particle::new(0, 0, 0, 1).inv_mass, 1_000_000_000_000);
}

#[test]
fn gravity_kick_skips_pinned_and_scales_by_dt() {
    let mut body = SoftBody::new();
    let mut free = Particle::new(0, 5_000_000, 0, SCALE);
    free.velocity = v3(100, 200, 300);
    let mut pinned = Particle::new(1_000_000, 5_000_000, 0, SCALE);
    pinned.pinned = true;
    pinned.inv_mass = 0;
    body.particles.push(free);
    body.particles.push(pinned);
    body.apply_gravity(standard_gravity(), WORLD_DT);
    // -9_810_000 * 16_667 / 1_000_000, truncated toward zero
    assert_eq!(body.particles[0].velocity, v3(100, 200 - 163_503, 300));
    assert_eq!(body.particles[1].velocity, v3(0, 0, 0));
}
