//! Checks of the broad-phase grid, the spawn generator and the timing
//! counters.

use verlet_sandbox::bench::{accumulate, Bench};
use verlet_sandbox::chunks::pocket;
use verlet_sandbox::generator::ObjectsGenerator;
use verlet_sandbox::grid::SpatialGrid;
use verlet_sandbox::object::VerletObject;
use verlet_sandbox::vec2::Vec2;
use verlet_sandbox::world::{Constraint, PipelineOrder, World};
use verlet_sandbox::UNIT;

#[test]
fn grid_cell_sizes_follow_dimensions() {
    let g = SpatialGrid::new(50, 50);
    assert_eq!(g.dims.cell_w, 40_000);
    assert_eq!(g.dims.cell_h, 40_000);
    assert_eq!(g.cells.len(), 2_500);
}

#[test]
fn grid_bins_centers() {
    let g = SpatialGrid::new(50, 50);
    assert_eq!(g.get_ij(0, 0), (25, 25));
    assert_eq!(g.get_ij(-999_000, -999_000), (0, 0));
    assert_eq!(g.get_ij(999_999, 999_999), (49, 49));
}

#[test]
fn grid_clamps_out_of_range_centers() {
    let g = SpatialGrid::new(50, 50);
    // A body that escaped the arena is filed in the nearest border cell,
    // never indexed out of bounds.
    assert_eq!(g.get_ij(1_500_000, -1_500_000), (49, 0));
}

#[test]
fn rebuild_files_every_body_once() {
    let mut g = SpatialGrid::new(50, 50);
    let objects = vec![
        VerletObject::new(Vec2::new(0, 0), 10_000, 0),
        VerletObject::new(Vec2::new(10_000, 0), 10_000, 0),
        VerletObject::new(Vec2::new(-900_000, 500_000), 10_000, 0),
    ];
    g.rebuild(&objects);
    assert_eq!(g.get(25, 25).as_slice(), &[0, 1]);
    let (i, j) = g.get_ij(-900_000, 500_000);
    assert_eq!(g.get(i, j).as_slice(), &[2]);
    // A rebuild starts from scratch: nothing is filed twice.
    g.rebuild(&objects);
    assert_eq!(g.get(25, 25).as_slice(), &[0, 1]);
}

#[test]
fn pocket_collects_the_neighborhood() {
    let mut g = SpatialGrid::new(50, 50);
    let objects = vec![
        VerletObject::new(Vec2::new(0, 0), 10_000, 0),
        VerletObject::new(Vec2::new(45_000, 0), 10_000, 0),
        VerletObject::new(Vec2::new(-900_000, 0), 10_000, 0),
    ];
    g.rebuild(&objects);
    // Bodies 0 and 1 sit in adjacent cells of the same neighborhood; body
    // 2 is far away.
    let candidates = pocket(&g, 25, 25);
    assert!(candidates.contains(&0));
    assert!(candidates.contains(&1));
    assert!(!candidates.contains(&2));
}

#[test]
fn generator_default_shape() {
    let gen = ObjectsGenerator::default();
    assert_eq!(gen.grid_columns, 50);
    assert_eq!(gen.grid_rows, 80);
    assert_eq!(gen.obj_radius, 3_000);
    assert_eq!(gen.obj_radius_deviation, 1_500);
}

#[test]
fn random_radius_stays_in_the_jitter_band() {
    let mut gen = ObjectsGenerator::default();
    for _ in 0..200 {
        let r = gen.random_radius();
        assert!(r >= 1_500 && r <= 4_500, "radius {} escaped the band", r);
    }
}

#[test]
fn populate_seeds_the_rotated_lattice() {
    let mut world = World::new(
        Vec2::new(0, -UNIT),
        Constraint::Rectangular { bound: 900_000 },
        PipelineOrder::ConstraintFirst,
        false,
        50,
        50,
        1000,
        1000,
    );
    let mut gen = ObjectsGenerator::default();
    world.populate(&mut gen);
    assert_eq!(world.objects_number(), 4_000);
    // The first body sits at the rotated top-left lattice corner.
    assert_eq!(world.objects[0].position, Vec2::new(-282_009, 336_022));
    // Row 1, column 2 of the lattice is body 52.
    assert_eq!(world.objects[52].position, Vec2::new(-262_296, 329_401));
    for obj in world.objects.iter() {
        assert_eq!(obj.previous_position, obj.position);
        assert_eq!(obj.acceleration, Vec2::new(0, 0));
        assert!(obj.radius >= 1_500 && obj.radius <= 4_500);
    }
}

#[test]
fn bench_counters_start_and_reset_to_zero() {
    let mut bench = Bench::init(10);
    assert_eq!(bench.iteration_nr, 0);
    assert_eq!(bench.sum_loop_time, 0);
    bench.loop_started();
    bench.events_cleared();
    bench.loop_ended();
    assert_eq!(bench.iteration_nr, 1);
    bench.reset();
    assert_eq!(bench.iteration_nr, 0);
    assert_eq!(bench.sum_events_clear, 0);
    assert_eq!(bench.sum_loop_time, 0);
    assert_eq!(bench.report_every_iterations, 10);
}

#[test]
fn bench_report_cadence() {
    let mut bench = Bench::init(3);
    assert!(bench.report_due());
    bench.loop_started();
    assert!(!bench.report_due());
    bench.loop_started();
    bench.loop_started();
    assert!(bench.report_due());
}

#[test]
fn bench_sums_only_grow() {
    let mut bench = Bench::init(1);
    for _ in 0..5 {
        bench.loop_started();
        let before = bench.sum_loop_time;
        bench.loop_ended();
        assert!(bench.sum_loop_time >= before);
    }
}

#[test]
fn accumulate_saturates() {
    assert_eq!(accumulate(5, 7), 12);
    assert_eq!(accumulate(u64::MAX - 1, 1), u64::MAX);
    assert_eq!(accumulate(u64::MAX - 1, 100), u64::MAX);
}

#[test]
fn bench_average() {
    let mut bench = Bench::init(1);
    assert_eq!(bench.average_nanos(100), 0);
    for _ in 0..4 {
        bench.loop_started();
    }
    assert_eq!(bench.average_nanos(100), 25);
    assert_eq!(bench.average_nanos(10), 2);
}
