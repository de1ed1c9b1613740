//! End-to-end checks of the simulation core on concrete populations.

use verlet_sandbox::chunks::solve_grid;
use verlet_sandbox::collisions::{get_adjustments, solve, solve_at, Ball};
use verlet_sandbox::grid::SpatialGrid;
use verlet_sandbox::world::trespass_vector;
use verlet_sandbox::object::VerletObject;
use verlet_sandbox::vec2::Vec2;
use verlet_sandbox::world::{Constraint, PipelineOrder, World};
use verlet_sandbox::UNIT;

fn test_world(gravity: Vec2) -> World {
    World::new(
        gravity,
        Constraint::Rectangular { bound: 900_000 },
        PipelineOrder::ConstraintFirst,
        false,
        50,
        50,
        1000,
        1000,
    )
}

#[test]
fn integrator_gravity_step() {
    let mut b = VerletObject::new(Vec2::new(0, 0), 100_000, 0xffffffff);
    b.set_acceleration(Vec2::new(0, -UNIT));
    b.update_position(UNIT);
    assert_eq!(b.position, Vec2::new(0, -UNIT));
    assert_eq!(b.previous_position, Vec2::new(0, 0));
    assert_eq!(b.acceleration, Vec2::new(0, 0));
}

#[test]
fn velocity_carry_over() {
    let mut b = VerletObject::new(Vec2::new(0, 0), 100_000, 0xffffffff);
    b.shift(Vec2::new(UNIT, 0));
    assert_eq!(b.position, Vec2::new(UNIT, 0));
    assert_eq!(b.previous_position, Vec2::new(0, 0));
    b.update_position(UNIT);
    assert_eq!(b.position, Vec2::new(2 * UNIT, 0));
    assert_eq!(b.previous_position, Vec2::new(UNIT, 0));
}

#[test]
fn zero_timestep_keeps_velocity_terms_out() {
    let mut b = VerletObject::new(Vec2::new(300, 400), 1_000, 0);
    b.set_acceleration(Vec2::new(1_000_000, 1_000_000));
    b.update_position(0);
    assert_eq!(b.position, Vec2::new(300, 400));
    assert_eq!(b.acceleration, Vec2::new(0, 0));
}

#[test]
fn collision_separation_equal_masses() {
    let b0 = Ball { center: Vec2::new(0, 0), radius: 100_000 };
    let b1 = Ball { center: Vec2::new(100_000, 0), radius: 100_000 };
    let (v0, v1) = get_adjustments(b0, b1).expect("overlapping disks must collide");
    assert_eq!(v0, Vec2::new(-50_000, 0));
    assert_eq!(v1, Vec2::new(50_000, 0));

    let mut objects = vec![
        VerletObject::new(Vec2::new(0, 0), 100_000, 0),
        VerletObject::new(Vec2::new(100_000, 0), 100_000, 0),
    ];
    solve(&mut objects);
    assert_eq!(objects[0].position, Vec2::new(-50_000, 0));
    assert_eq!(objects[1].position, Vec2::new(150_000, 0));
    // The pair ends up exactly touching: separation equals the radius sum.
    assert_eq!(objects[1].position.x - objects[0].position.x, 200_000);
}

#[test]
fn mass_weighting() {
    let b0 = Ball { center: Vec2::new(0, 0), radius: 100_000 };
    let b1 = Ball { center: Vec2::new(100_000, 0), radius: 200_000 };
    let (v0, v1) = get_adjustments(b0, b1).expect("overlapping disks must collide");
    // Masses are 1:4, so the small body moves four times as far.
    assert_eq!(v0, Vec2::new(-160_000, 0));
    assert_eq!(v1, Vec2::new(40_000, 0));
    // Total separation after the corrections equals the radius sum.
    assert_eq!((100_000 + v1.x) - v0.x, 300_000);
}

#[test]
fn zero_distance_is_degenerate_non_collision() {
    let b0 = Ball { center: Vec2::new(7, 7), radius: 50_000 };
    let b1 = Ball { center: Vec2::new(7, 7), radius: 60_000 };
    assert!(get_adjustments(b0, b1).is_none());
}

#[test]
fn separated_disks_do_not_collide() {
    let b0 = Ball { center: Vec2::new(0, 0), radius: 100_000 };
    let b1 = Ball { center: Vec2::new(300_000, 0), radius: 100_000 };
    assert!(get_adjustments(b0, b1).is_none());
}

#[test]
fn collision_test_is_exact_at_the_diagonal() {
    // Centers (0,0) and (0.1, 0.1): the distance is sqrt(0.02), between
    // 0.141421 and 0.141422 world units.
    let near = VerletObject::new(Vec2::new(0, 0), 70_710, 0);
    let far = VerletObject::new(Vec2::new(100_000, 100_000), 70_710, 0);
    assert!(!near.collides_with(&far));
    let near = VerletObject::new(Vec2::new(0, 0), 70_711, 0);
    let far = VerletObject::new(Vec2::new(100_000, 100_000), 70_711, 0);
    assert!(near.collides_with(&far));
}

#[test]
fn no_overlap_idempotence() {
    let centers = [
        (0, 0),
        (500_000, 0),
        (-500_000, 300_000),
        (200_000, -400_000),
        (-250_000, -250_000),
    ];
    let mut brute = test_world(Vec2::new(0, 0));
    let mut gridded = test_world(Vec2::new(0, 0));
    for &(x, y) in centers.iter() {
        brute.add_obj_at(Vec2::new(x, y), 10_000);
        gridded.add_obj_at(Vec2::new(x, y), 10_000);
    }
    brute.solve_collisions();
    gridded.solve_collisions_with_grid();
    for (k, &(x, y)) in centers.iter().enumerate() {
        assert_eq!(brute.objects[k].position, Vec2::new(x, y));
        assert_eq!(gridded.objects[k].position, Vec2::new(x, y));
    }
}

#[test]
fn grid_matches_brute_force() {
    // Twenty bodies: ten isolated overlapping pairs scattered over the
    // interior of the arena. Every pair is far from every other, so the
    // brute-force pass and the phased grid pass must agree exactly.
    let mut centers: Vec<(i64, i64)> = Vec::new();
    for k in 0..10i64 {
        let base_x = -700_000 + k * 150_000;
        let base_y = if k % 2 == 0 { -300_000 } else { 350_000 };
        centers.push((base_x, base_y));
        centers.push((base_x + 5_000, base_y));
    }
    let mut brute = test_world(Vec2::new(0, 0));
    let mut gridded = test_world(Vec2::new(0, 0));
    for &(x, y) in centers.iter() {
        brute.add_obj_at(Vec2::new(x, y), 10_000);
        gridded.add_obj_at(Vec2::new(x, y), 10_000);
    }
    brute.solve_collisions();
    gridded.solve_collisions_with_grid();
    assert_eq!(brute.objects_number(), 20);
    assert_eq!(gridded.objects_number(), 20);
    for k in 0..20 {
        assert_eq!(brute.objects[k].position, gridded.objects[k].position);
    }
    // And the passes did move the pairs apart.
    assert_eq!(brute.objects[0].position.x, -707_500);
    assert_eq!(brute.objects[1].position.x, -687_500);
}

#[test]
fn boundary_clamp() {
    let b = VerletObject::new(Vec2::new(950_000, 0), 100_000, 0);
    let constraint = Constraint::Rectangular { bound: 900_000 };
    let tv = trespass_vector(&b, constraint).expect("a body past the wall trespasses");
    assert_eq!(tv, Vec2::new(150_000, 0));

    let mut world = test_world(Vec2::new(0, 0));
    world.add_obj_at(Vec2::new(0, 0), 100_000);
    world.objects[0].shift(Vec2::new(950_000, 0));
    world.constrain(constraint, false);
    assert_eq!(world.objects[0].position, Vec2::new(800_000, 0));
}

#[test]
fn circular_constraint_projects_radially() {
    // A body at (1.0, 0) with radius 0.1 in a disk of radius 0.9 must be
    // pulled back so its edge touches the disk: center at 0.8.
    let b = VerletObject::new(Vec2::new(UNIT, 0), 100_000, 0);
    let constraint = Constraint::Circular { center: Vec2::new(0, 0), bound: 900_000 };
    let tv = trespass_vector(&b, constraint).expect("a body outside the disk trespasses");
    assert_eq!(tv, Vec2::new(200_000, 0));
    // Inside the disk nothing happens.
    let inside = VerletObject::new(Vec2::new(100_000, 0), 100_000, 0);
    assert!(trespass_vector(&inside, constraint).is_none());
}

#[test]
fn world_update_single_gravity_step() {
    let mut world = test_world(Vec2::new(0, -UNIT));
    world.add_obj_at(Vec2::new(0, 0), 10_000);
    world.update(UNIT, 1);
    assert_eq!(world.objects[0].position, Vec2::new(0, -UNIT));
    assert_eq!(world.objects[0].previous_position, Vec2::new(0, 0));
    assert_eq!(world.objects[0].acceleration, Vec2::new(0, 0));
}

#[test]
fn world_update_substeps_split_the_timestep() {
    // Two substeps of dt/2 under constant gravity: the fall adds up to
    // (1/4 + 2/4) of g*dt^2 instead of one full g*dt^2.
    let mut world = test_world(Vec2::new(0, -UNIT));
    world.add_obj_at(Vec2::new(0, 0), 10_000);
    world.update(UNIT, 2);
    assert_eq!(world.objects[0].position, Vec2::new(0, -750_000));
}

#[test]
fn to_gl_coords_maps_pixels_to_world() {
    let world = test_world(Vec2::new(0, 0));
    assert_eq!(world.to_gl_coords(500, 250), Vec2::new(0, 500_000));
    assert_eq!(world.to_gl_coords(0, 0), Vec2::new(-UNIT, UNIT));
    assert_eq!(world.to_gl_coords(1000, 1000), Vec2::new(UNIT, -UNIT));
}

#[test]
fn constraint_can_preserve_the_implicit_velocity() {
    let constraint = Constraint::Rectangular { bound: 900_000 };
    // A body moving rightward at 0.01 units per step, past the wall.
    let mut world = test_world(Vec2::zero());
    world.add_obj_at(Vec2::new(940_000, 0), 100_000);
    world.objects[0].shift(Vec2::new(10_000, 0));

    let mut kept = test_world(Vec2::zero());
    kept.add_obj_at(Vec2::new(940_000, 0), 100_000);
    kept.objects[0].shift(Vec2::new(10_000, 0));

    world.constrain(constraint, false);
    assert_eq!(world.objects[0].position, Vec2::new(800_000, 0));
    assert_eq!(world.objects[0].previous_position, Vec2::new(940_000, 0));

    kept.constrain(constraint, true);
    assert_eq!(kept.objects[0].position, Vec2::new(800_000, 0));
    // Both centers moved by the correction, so the implicit velocity is
    // still 0.01 units rightward.
    assert_eq!(kept.objects[0].previous_position, Vec2::new(790_000, 0));
}

#[test]
fn plain_grid_pass_matches_brute_force() {
    let mut objects = Vec::new();
    for k in 0..6i64 {
        let base_x = -600_000 + k * 200_000;
        objects.push(VerletObject::new(Vec2::new(base_x, 100_000), 10_000, 0));
        objects.push(VerletObject::new(Vec2::new(base_x + 5_000, 100_000), 10_000, 0));
    }
    let mut brute = objects.clone();
    let mut gridded = objects;
    solve(&mut brute);
    let mut grid = SpatialGrid::new(50, 50);
    solve_grid(&mut gridded, &mut grid);
    for k in 0..brute.len() {
        assert_eq!(brute[k].position, gridded[k].position);
    }
}

#[test]
fn solve_at_touches_only_the_candidates() {
    let mut objects = vec![
        VerletObject::new(Vec2::new(0, 0), 100_000, 0),
        VerletObject::new(Vec2::new(100_000, 0), 100_000, 0),
        VerletObject::new(Vec2::new(-100_000, 0), 100_000, 0),
    ];
    // Body 2 overlaps body 0, but only the pair (0, 1) is a candidate.
    let candidates = vec![0usize, 1];
    solve_at(&mut objects, &candidates);
    assert_eq!(objects[0].position, Vec2::new(-50_000, 0));
    assert_eq!(objects[1].position, Vec2::new(150_000, 0));
    assert_eq!(objects[2].position, Vec2::new(-100_000, 0));
}

#[test]
fn body_accessors_and_accumulating_acceleration() {
    let mut b = VerletObject::new(Vec2::new(5, 6), 12_345, 0xff00ff00);
    assert_eq!(b.get_center(), Vec2::new(5, 6));
    assert_eq!(b.get_radius(), 12_345);
    assert_eq!(b.get_color(), 0xff00ff00);
    b.accelerate(Vec2::new(100, 200));
    b.accelerate(Vec2::new(-40, 1));
    assert_eq!(b.acceleration, Vec2::new(60, 201));
    let ball = Ball::from(b);
    assert_eq!(ball.center, Vec2::new(5, 6));
    assert_eq!(ball.radius, 12_345);
}

#[test]
fn adjust_position_data_keeps_the_velocity() {
    let mut b = VerletObject::new(Vec2::new(0, 0), 10_000, 0);
    b.shift(Vec2::new(7_000, 0));
    b.adjust_position_data(Vec2::new(-2_000, 500));
    assert_eq!(b.position, Vec2::new(5_000, 500));
    assert_eq!(b.previous_position, Vec2::new(-2_000, 500));
    // The implicit velocity is still 7000 rightward.
    assert_eq!(b.position.x - b.previous_position.x, 7_000);
}
