//! The world: the body collection, the arena constraint, the broad-phase
//! grid, and the per-substep pipeline that drives them.
//!
//! One substep applies gravity to every body, projects bodies back into the
//! arena, resolves collisions through the phased grid, and integrates. The
//! order of the constraint and collision stages is configurable, because
//! both orders are defensible; the default pipeline runs the constraint
//! first.

use vstd::prelude::*;

use crate::chunks::{chunks_solved, solve_grid_chunks};
use crate::collisions::{bodies_ok, same_frame, solve, solved_all};
use crate::fixed::{
    abs_spec, sqrt_floor, ACCEL_LIMIT, COORD_LIMIT, DT_LIMIT, RADIUS_LIMIT, SHIFT_LIMIT, UNIT,
};
use crate::generator::{populate_center, ObjectsGenerator};
use crate::grid::{GridDims, SpatialGrid};
use crate::object::{body_wf, integrated, shifted, VerletObject};
use crate::vec2::Vec2;

verus! {

/// The arena boundary: a centered square of half-side `bound`, or a disk.
#[derive(Clone, Copy, PartialEq, Eq, Structural, Debug)]
pub enum Constraint {
    Circular { center: Vec2, bound: i64 },
    Rectangular { bound: i64 },
}

impl Constraint {
    /// The half-extent of the arena.
    pub open spec fn bound(self) -> int {
        match self {
            Constraint::Circular { bound, .. } => bound as int,
            Constraint::Rectangular { bound } => bound as int,
        }
    }

    /// A positive bound no larger than one world unit, with the disk's
    /// center inside the unit square.
    pub open spec fn ok(self) -> bool {
        match self {
            Constraint::Circular { center, bound } => {
                &&& 0 < bound <= UNIT
                &&& abs_spec(center.x as int) <= UNIT
                &&& abs_spec(center.y as int) <= UNIT
            },
            Constraint::Rectangular { bound } => 0 < bound <= UNIT,
        }
    }
}

/// Whether the constraint runs before or after collision resolution within
/// a substep.
#[derive(Clone, Copy, PartialEq, Eq, Structural, Debug)]
pub enum PipelineOrder {
    ConstraintFirst,
    CollisionsFirst,
}

/// Clamp of a value into `[lo, hi]`.
pub open spec fn clamp_to(v: int, lo: int, hi: int) -> int {
    if v < lo {
        lo
    } else if v > hi {
        hi
    } else {
        v
    }
}

/// How far a body's center trespasses past the arena boundary: `None` when
/// it is inside, otherwise the vector from the admissible position to the
/// current one. Subtracting it projects the center back onto the boundary.
///
/// The admissible band is shrunk by the body's radius, so the body's edge,
/// not its center, stays inside. For the disk arena the projection runs
/// along the line to the disk's center, with integer division truncated
/// toward zero; a body exactly on the disk's center and small enough to fit
/// is simply inside.
pub open spec fn trespass_spec(b: VerletObject, c: Constraint) -> Option<Vec2> {
    match c {
        Constraint::Rectangular { bound } => {
            let mc = bound - b.radius;
            let cx = clamp_to(b.position.x as int, -mc, mc as int);
            let cy = clamp_to(b.position.y as int, -mc, mc as int);
            if cx == b.position.x && cy == b.position.y {
                None
            } else {
                Some(Vec2 { x: (b.position.x - cx) as i64, y: (b.position.y - cy) as i64 })
            }
        },
        Constraint::Circular { center, bound } => {
            let dx = b.position.x - center.x;
            let dy = b.position.y - center.y;
            let dist = sqrt_floor((dx * dx + dy * dy) as nat) as int;
            if dist + b.radius > bound {
                let scale = bound - b.radius;
                let rx = if dx >= 0 {
                    abs_spec(dx) * scale / dist
                } else {
                    -(abs_spec(dx) * scale / dist)
                };
                let ry = if dy >= 0 {
                    abs_spec(dy) * scale / dist
                } else {
                    -(abs_spec(dy) * scale / dist)
                };
                Some(Vec2 { x: (dx - rx) as i64, y: (dy - ry) as i64 })
            } else {
                None
            }
        },
    }
}

/// The body after one constraint application: moved back by its trespass
/// vector, or untouched when it is inside the arena. With `preserve_velocity`
/// the previous center moves by the same amount, so the correction injects
/// no implicit velocity; without it only the current center moves, as a
/// collision correction would.
pub open spec fn constrained(b: VerletObject, c: Constraint, preserve_velocity: bool) -> VerletObject {
    match trespass_spec(b, c) {
        None => b,
        Some(v) => {
            let back = Vec2 { x: (-(v.x as int)) as i64, y: (-(v.y as int)) as i64 };
            if preserve_velocity {
                crate::object::position_adjusted(b, back)
            } else {
                shifted(b, back)
            }
        },
    }
}

/// Every body's radius fits inside the arena.
pub open spec fn bodies_fit(s: Seq<VerletObject>, c: Constraint) -> bool {
    forall|k: int| 0 <= k < s.len() ==> (#[trigger] s[k]).radius <= c.bound()
}

/// The population with every acceleration overwritten by the gravity vector.
pub open spec fn gravity_applied(s: Seq<VerletObject>, g: Vec2) -> Seq<VerletObject> {
    Seq::new(s.len(), |k: int| VerletObject { acceleration: g, ..s[k] })
}

/// The population with the constraint applied to every body.
pub open spec fn constrained_all(s: Seq<VerletObject>, c: Constraint, pv: bool) -> Seq<VerletObject> {
    Seq::new(s.len(), |k: int| constrained(s[k], c, pv))
}

/// The population after one Verlet step of length `dt` on every body.
pub open spec fn integrated_all(s: Seq<VerletObject>, dt: int) -> Seq<VerletObject> {
    Seq::new(s.len(), |k: int| integrated(s[k], dt))
}

/// One substep of the pipeline: gravity, then constraint and phased
/// collision resolution in the configured order, then integration.
pub open spec fn stepped(
    s: Seq<VerletObject>,
    g: Vec2,
    c: Constraint,
    o: PipelineOrder,
    pv: bool,
    d: GridDims,
    dt: int,
) -> Seq<VerletObject> {
    let s1 = gravity_applied(s, g);
    match o {
        PipelineOrder::ConstraintFirst => integrated_all(
            chunks_solved(constrained_all(s1, c, pv), d),
            dt,
        ),
        PipelineOrder::CollisionsFirst => integrated_all(
            constrained_all(chunks_solved(s1, d), c, pv),
            dt,
        ),
    }
}

/// `n` substeps of the pipeline.
pub open spec fn stepped_n(
    s: Seq<VerletObject>,
    g: Vec2,
    c: Constraint,
    o: PipelineOrder,
    pv: bool,
    d: GridDims,
    dt: int,
    n: nat,
) -> Seq<VerletObject>
    decreases n,
{
    if n == 0 {
        s
    } else {
        stepped(stepped_n(s, g, c, o, pv, d, dt, (n - 1) as nat), g, c, o, pv, d, dt)
    }
}

/// The world-space position of a window pixel: both axes are mapped to
/// `[-1, 1]` and the y axis is flipped, as a window counts rows downward.
pub open spec fn gl_of(px: int, py: int, w: int, h: int) -> Vec2 {
    Vec2 {
        x: (2 * UNIT * px / w - UNIT) as i64,
        y: (-(2 * UNIT * py / h - UNIT)) as i64,
    }
}

/// The simulation world: the bodies, the gravity vector, the arena
/// constraint, the broad-phase grid, the pipeline order, and the window
/// size in pixels that mouse coordinates are measured in.
pub struct World {
    pub objects: Vec<VerletObject>,
    pub gravity: Vec2,
    pub constraint: Constraint,
    pub order: PipelineOrder,
    pub preserve_velocity: bool,
    pub grid: SpatialGrid,
    pub width: i64,
    pub height: i64,
}

impl World {
    /// The world's invariant: well-formed bodies that fit the arena, a
    /// well-formed grid, a sane constraint, bounded gravity and a sane
    /// window size.
    pub open spec fn wf(self) -> bool {
        &&& bodies_ok(self.objects@)
        &&& bodies_fit(self.objects@, self.constraint)
        &&& self.grid.wf()
        &&& self.constraint.ok()
        &&& abs_spec(self.gravity.x as int) <= ACCEL_LIMIT
        &&& abs_spec(self.gravity.y as int) <= ACCEL_LIMIT
        &&& 1 <= self.width <= 100_000
        &&& 1 <= self.height <= 100_000
    }

    /// The configuration fields a step never touches.
    pub open spec fn same_config(self, other: World) -> bool {
        &&& self.gravity == other.gravity
        &&& self.constraint == other.constraint
        &&& self.order == other.order
        &&& self.preserve_velocity == other.preserve_velocity
        &&& self.grid.dims == other.grid.dims
        &&& self.width == other.width
        &&& self.height == other.height
    }

    /// An empty world with the given configuration.
    pub fn new(
        gravity: Vec2,
        constraint: Constraint,
        order: PipelineOrder,
        preserve_velocity: bool,
        grid_rows: usize,
        grid_cols: usize,
        width: i64,
        height: i64,
    ) -> (r: World)
        requires
            abs_spec(gravity.x as int) <= ACCEL_LIMIT,
            abs_spec(gravity.y as int) <= ACCEL_LIMIT,
            constraint.ok(),
            3 <= grid_rows <= 2_000_000,
            3 <= grid_cols <= 2_000_000,
            grid_rows * grid_cols <= 100_000_000,
            1 <= width <= 100_000,
            1 <= height <= 100_000,
        ensures
            r.wf(),
            r.objects@ == Seq::<VerletObject>::empty(),
            r.gravity == gravity,
            r.constraint == constraint,
            r.order == order,
            r.preserve_velocity == preserve_velocity,
            r.grid.dims.rows == grid_rows,
            r.grid.dims.cols == grid_cols,
            r.width == width,
            r.height == height,
    {
        World {
            objects: Vec::new(),
            gravity,
            constraint,
            order,
            preserve_velocity,
            grid: SpatialGrid::new(grid_rows, grid_cols),
            width,
            height,
        }
    }

    /// The number of bodies.
    pub fn objects_number(&self) -> (r: usize)
        ensures
            r == self.objects@.len(),
    {
        self.objects.len()
    }

    /// Appends a body at rest with the given center and radius.
    pub fn add_obj_at(&mut self, center: Vec2, radius: i64)
        requires
            old(self).wf(),
            center.in_band(),
            0 < radius <= RADIUS_LIMIT,
            radius <= old(self).constraint.bound(),
        ensures
            final(self).wf(),
            final(self).same_config(*old(self)),
            final(self).grid == old(self).grid,
            final(self).objects@ == old(self).objects@.push(
                VerletObject {
                    position: center,
                    previous_position: center,
                    radius,
                    acceleration: Vec2 { x: 0, y: 0 },
                    color: 0xffffffff,
                },
            ),
    {
        let obj = VerletObject::new(center, radius, 0xffffffff);
        self.objects.push(obj);
    }

    /// Overwrites every body's acceleration with the gravity vector.
    pub fn apply_gravity(&mut self)
        requires
            old(self).wf(),
        ensures
            final(self).wf(),
            final(self).same_config(*old(self)),
            final(self).grid == old(self).grid,
            final(self).objects@ == gravity_applied(old(self).objects@, old(self).gravity),
    {
        let ghost orig = self.objects@;
        let ghost target = gravity_applied(orig, self.gravity);
        let n = self.objects.len();
        let mut k: usize = 0;
        while k < n
            invariant
                0 <= k <= n,
                n == orig.len(),
                self.objects@.len() == n,
                self.gravity == old(self).gravity,
                self.constraint == old(self).constraint,
                self.order == old(self).order,
                self.preserve_velocity == old(self).preserve_velocity,
                self.grid == old(self).grid,
                self.width == old(self).width,
                self.height == old(self).height,
                old(self).wf(),
                target == gravity_applied(orig, self.gravity),
                forall|t: int| 0 <= t < k ==> self.objects@[t] == target[t],
                forall|t: int| k <= t < n ==> self.objects@[t] == orig[t],
            decreases n - k,
        {
            let mut obj = self.objects[k];
            obj.set_acceleration(self.gravity);
            self.objects[k] = obj;
            k = k + 1;
        }
        proof {
            assert(self.objects@ =~= target);
        }
    }

    /// Applies the arena constraint to every body, projecting each one that
    /// left the arena back onto its boundary.
    pub fn constrain(&mut self, constraint: Constraint, preserve_velocity: bool)
        requires
            old(self).wf(),
            constraint.ok(),
            bodies_fit(old(self).objects@, constraint),
        ensures
            final(self).wf(),
            final(self).same_config(*old(self)),
            final(self).grid == old(self).grid,
            final(self).objects@ == constrained_all(
                old(self).objects@,
                constraint,
                preserve_velocity,
            ),
    {
        let ghost orig = self.objects@;
        let ghost target = constrained_all(orig, constraint, preserve_velocity);
        let n = self.objects.len();
        let mut k: usize = 0;
        while k < n
            invariant
                0 <= k <= n,
                n == orig.len(),
                self.objects@.len() == n,
                self.gravity == old(self).gravity,
                self.constraint == old(self).constraint,
                self.order == old(self).order,
                self.preserve_velocity == old(self).preserve_velocity,
                self.grid == old(self).grid,
                self.width == old(self).width,
                self.height == old(self).height,
                old(self).wf(),
                constraint.ok(),
                crate::collisions::bodies_ok(orig),
                bodies_fit(orig, constraint),
                target == constrained_all(orig, constraint, preserve_velocity),
                forall|t: int| 0 <= t < k ==> self.objects@[t] == target[t],
                forall|t: int| k <= t < n ==> self.objects@[t] == orig[t],
            decreases n - k,
        {
            let obj = self.objects[k];
            proof {
                assert(body_wf(orig[k as int]));
                assert(orig[k as int].radius <= constraint.bound());
            }
            if let Some(offset) = trespass_vector(&obj, constraint) {
                let mut moved = obj;
                if preserve_velocity {
                    moved.adjust_position_data(offset.neg());
                } else {
                    moved.shift(offset.neg());
                }
                self.objects[k] = moved;
            }
            k = k + 1;
        }
        proof {
            assert forall|t: int| 0 <= t < n implies self.objects@[t] == target[t] by {
                assert(target[t] == constrained(orig[t], constraint, preserve_velocity));
            }
            assert(self.objects@ =~= target);
        }
    }

    /// Integrates every body by one Verlet step of length `dt`.
    pub fn update_positions(&mut self, dt: i64)
        requires
            old(self).wf(),
            0 <= dt <= DT_LIMIT,
        ensures
            final(self).wf(),
            final(self).same_config(*old(self)),
            final(self).grid == old(self).grid,
            final(self).objects@ == integrated_all(old(self).objects@, dt as int),
    {
        let ghost orig = self.objects@;
        let ghost target = integrated_all(orig, dt as int);
        let n = self.objects.len();
        let mut k: usize = 0;
        while k < n
            invariant
                0 <= k <= n,
                n == orig.len(),
                self.objects@.len() == n,
                self.gravity == old(self).gravity,
                self.constraint == old(self).constraint,
                self.order == old(self).order,
                self.preserve_velocity == old(self).preserve_velocity,
                self.grid == old(self).grid,
                self.width == old(self).width,
                self.height == old(self).height,
                old(self).wf(),
                0 <= dt <= DT_LIMIT,
                crate::collisions::bodies_ok(orig),
                target == integrated_all(orig, dt as int),
                forall|t: int| 0 <= t < k ==> self.objects@[t] == target[t],
                forall|t: int| k <= t < n ==> self.objects@[t] == orig[t],
            decreases n - k,
        {
            let mut obj = self.objects[k];
            proof {
                assert(body_wf(orig[k as int]));
            }
            obj.update_position(dt);
            self.objects[k] = obj;
            k = k + 1;
        }
        proof {
            assert(self.objects@ =~= target);
        }
    }

    /// Resolves collisions by brute force over all pairs.
    pub fn solve_collisions(&mut self)
        requires
            old(self).wf(),
        ensures
            final(self).wf(),
            final(self).same_config(*old(self)),
            final(self).grid == old(self).grid,
            final(self).objects@ == solved_all(old(self).objects@),
            final(self).objects@.len() == old(self).objects@.len(),
    {
        solve(&mut self.objects);
        proof {
            assert forall|k: int|
                0 <= k < self.objects@.len() implies (#[trigger] self.objects@[k]).radius
                <= self.constraint.bound() by {
                assert(same_frame(old(self).objects@[k], self.objects@[k]));
            }
        }
    }

    /// Resolves collisions through the phased grid: rebuilds the grid from
    /// the current positions and runs the nine interference-free phases.
    pub fn solve_collisions_with_grid(&mut self)
        requires
            old(self).wf(),
        ensures
            final(self).wf(),
            final(self).same_config(*old(self)),
            final(self).objects@ == chunks_solved(old(self).objects@, old(self).grid.dims),
            final(self).objects@.len() == old(self).objects@.len(),
    {
        solve_grid_chunks(&mut self.objects, &mut self.grid);
        proof {
            assert forall|k: int|
                0 <= k < self.objects@.len() implies (#[trigger] self.objects@[k]).radius
                <= self.constraint.bound() by {
                assert(same_frame(old(self).objects@[k], self.objects@[k]));
            }
        }
    }

    /// Advances the world by `dt` fixed-point seconds, split into the given
    /// number of equal substeps.
    pub fn update(&mut self, dt: i64, substeps: usize)
        requires
            old(self).wf(),
            0 <= dt <= DT_LIMIT,
            1 <= substeps,
        ensures
            final(self).wf(),
            final(self).same_config(*old(self)),
            final(self).objects@ == stepped_n(
                old(self).objects@,
                old(self).gravity,
                old(self).constraint,
                old(self).order,
                old(self).preserve_velocity,
                old(self).grid.dims,
                dt as int / substeps as int,
                substeps as nat,
            ),
            final(self).objects@.len() == old(self).objects@.len(),
    {
        proof {
            vstd::arithmetic::div_mod::lemma_div_pos_is_pos(dt as int, substeps as int);
            vstd::arithmetic::div_mod::lemma_div_nonincreasing(dt as int, substeps as int);
        }
        let sub = ((dt as u64) / (substeps as u64)) as i64;
        let ghost orig = self.objects@;
        let ghost g = self.gravity;
        let ghost c = self.constraint;
        let ghost o = self.order;
        let ghost pv = self.preserve_velocity;
        let ghost d = self.grid.dims;
        let mut k: usize = 0;
        while k < substeps
            invariant
                0 <= k <= substeps,
                self.wf(),
                g == self.gravity,
                c == self.constraint,
                o == self.order,
                pv == self.preserve_velocity,
                d == self.grid.dims,
                self.gravity == old(self).gravity,
                self.constraint == old(self).constraint,
                self.order == old(self).order,
                self.preserve_velocity == old(self).preserve_velocity,
                self.grid.dims == old(self).grid.dims,
                self.width == old(self).width,
                self.height == old(self).height,
                0 <= sub <= DT_LIMIT,
                self.objects@.len() == orig.len(),
                self.objects@ == stepped_n(orig, g, c, o, pv, d, sub as int, k as nat),
            decreases substeps - k,
        {
            let ghost before = self.objects@;
            self.apply_gravity();
            match self.order {
                PipelineOrder::ConstraintFirst => {
                    let con = self.constraint;
                    let keep = self.preserve_velocity;
                    self.constrain(con, keep);
                    self.solve_collisions_with_grid();
                },
                PipelineOrder::CollisionsFirst => {
                    self.solve_collisions_with_grid();
                    let con = self.constraint;
                    let keep = self.preserve_velocity;
                    self.constrain(con, keep);
                },
            }
            self.update_positions(sub);
            proof {
                assert(self.objects@ == stepped(before, g, c, o, pv, d, sub as int));
                assert(stepped_n(orig, g, c, o, pv, d, sub as int, (k + 1) as nat) == stepped(
                    stepped_n(orig, g, c, o, pv, d, sub as int, k as nat),
                    g,
                    c,
                    o,
                    pv,
                    d,
                    sub as int,
                ));
            }
            k = k + 1;
        }
    }

    /// Seeds the world with the generator's rotated lattice of bodies:
    /// one body per lattice point, at rest, with a jittered radius.
    pub fn populate(&mut self, generator: &mut ObjectsGenerator)
        requires
            old(self).wf(),
            old(generator).ok(),
            old(generator).obj_radius + old(generator).obj_radius_deviation <= old(
                self,
            ).constraint.bound(),
        ensures
            final(self).wf(),
            final(self).same_config(*old(self)),
            *final(generator) == *old(generator),
            final(self).objects@.len() == old(self).objects@.len() + old(generator).grid_rows
                * old(generator).grid_columns,
            forall|t: int|
                0 <= t < old(self).objects@.len() ==> final(self).objects@[t] == old(
                    self,
                ).objects@[t],
            forall|t: int|
                old(self).objects@.len() <= t < final(self).objects@.len()
                    ==> spawned_body_ok(
                    #[trigger] final(self).objects@[t],
                    *old(generator),
                    t - old(self).objects@.len(),
                ),
    {
        let ghost orig = self.objects@;
        let ghost gen0 = *generator;
        let rows = generator.grid_rows;
        let cols = generator.grid_columns;
        let mut row: usize = 0;
        while row < rows
            invariant
                0 <= row <= rows,
                rows == gen0.grid_rows,
                cols == gen0.grid_columns,
                *generator == gen0,
                gen0.ok(),
                gen0.obj_radius + gen0.obj_radius_deviation <= old(self).constraint.bound(),
                old(self).wf(),
                self.wf(),
                self.gravity == old(self).gravity,
                self.constraint == old(self).constraint,
                self.order == old(self).order,
                self.preserve_velocity == old(self).preserve_velocity,
                self.grid == old(self).grid,
                self.width == old(self).width,
                self.height == old(self).height,
                self.objects@.len() == orig.len() + row * cols,
                forall|t: int| 0 <= t < orig.len() ==> self.objects@[t] == orig[t],
                forall|t: int|
                    orig.len() <= t < self.objects@.len() ==> spawned_body_ok(
                        #[trigger] self.objects@[t],
                        gen0,
                        t - orig.len(),
                    ),
            decreases rows - row,
        {
            let mut col: usize = 0;
            while col < cols
                invariant
                    0 <= row < rows,
                    0 <= col <= cols,
                    rows == gen0.grid_rows,
                    cols == gen0.grid_columns,
                    *generator == gen0,
                    gen0.ok(),
                    gen0.obj_radius + gen0.obj_radius_deviation <= old(self).constraint.bound(),
                    old(self).wf(),
                    self.wf(),
                    self.gravity == old(self).gravity,
                    self.constraint == old(self).constraint,
                    self.order == old(self).order,
                    self.preserve_velocity == old(self).preserve_velocity,
                    self.grid == old(self).grid,
                    self.width == old(self).width,
                    self.height == old(self).height,
                    self.objects@.len() == orig.len() + row * cols + col,
                    forall|t: int| 0 <= t < orig.len() ==> self.objects@[t] == orig[t],
                    forall|t: int|
                        orig.len() <= t < self.objects@.len() ==> spawned_body_ok(
                            #[trigger] self.objects@[t],
                            gen0,
                            t - orig.len(),
                        ),
                decreases cols - col,
            {
                let center = spawn_center(generator, row, col);
                let radius = generator.random_radius();
                let obj = VerletObject::new(center, radius, 0xffffffff);
                self.objects.push(obj);
                proof {
                    assert(row * cols + col + 1 <= rows * cols) by (nonlinear_arith)
                        requires
                            0 <= row < rows,
                            0 <= col < cols,
                    ;
                    vstd::arithmetic::div_mod::lemma_fundamental_div_mod_converse(
                        row * cols + col,
                        cols as int,
                        row as int,
                        col as int,
                    );
                }
                col = col + 1;
            }
            proof {
                assert(row * cols + cols == (row + 1) * cols) by (nonlinear_arith);
            }
            row = row + 1;
        }
        proof {
            assert(row * cols == rows * cols && rows * cols == gen0.grid_rows
                * gen0.grid_columns) by (nonlinear_arith)
                requires
                    row == rows,
                    rows == gen0.grid_rows,
                    cols == gen0.grid_columns,
            ;
        }
    }

    /// Maps a window pixel position to world coordinates.
    pub fn to_gl_coords(&self, px: i64, py: i64) -> (r: Vec2)
        requires
            self.wf(),
            0 <= px <= self.width,
            0 <= py <= self.height,
        ensures
            r == gl_of(px as int, py as int, self.width as int, self.height as int),
            r.in_band(),
    {
        proof {
            lemma_gl_range(px as int, self.width as int);
            lemma_gl_range(py as int, self.height as int);
        }
        let x = ((2 * (UNIT as u64) * (px as u64)) / (self.width as u64)) as i64 - UNIT;
        let y = ((2 * (UNIT as u64) * (py as u64)) / (self.height as u64)) as i64 - UNIT;
        Vec2 { x, y: -y }
    }
}

/// The pixel-to-world map lands inside `[-1, 1]`.
proof fn lemma_gl_range(p: int, w: int)
    requires
        0 <= p <= w,
        1 <= w <= 100_000,
    ensures
        0 <= 2 * UNIT * p / w <= 2 * UNIT,
        2 * UNIT * p <= 2 * UNIT * 100_000,
{
    assert(0 <= 2 * UNIT * p && 2 * UNIT * p <= 2 * UNIT * w && 2 * UNIT * w <= 2 * UNIT
        * 100_000) by (nonlinear_arith)
        requires
            0 <= p <= w,
            1 <= w <= 100_000,
    ;
    vstd::arithmetic::div_mod::lemma_div_pos_is_pos(2 * UNIT * p, w);
    vstd::arithmetic::div_mod::lemma_div_is_ordered(2 * UNIT * p, 2 * UNIT * w, w);
    vstd::arithmetic::div_mod::lemma_div_multiples_vanish(2 * UNIT, w);
    assert(2 * UNIT * w == w * (2 * UNIT)) by (nonlinear_arith);
    assert((w * (2 * UNIT)) / w == 2 * UNIT);
}

/// How far a body trespasses past the arena boundary, or `None` when it is
/// inside. Subtracting the vector from the body's center projects it back.
pub fn trespass_vector(obj: &VerletObject, constraint: Constraint) -> (r: Option<Vec2>)
    requires
        body_wf(*obj),
        constraint.ok(),
        obj.radius <= constraint.bound(),
    ensures
        r == trespass_spec(*obj, constraint),
        match r {
            Some(v) => abs_spec(v.x as int) <= SHIFT_LIMIT && abs_spec(v.y as int) <= SHIFT_LIMIT
                && v.x > i64::MIN && v.y > i64::MIN,
            None => true,
        },
{
    match constraint {
        Constraint::Rectangular { bound } => {
            let mc = bound - obj.radius;
            let cx = clamp_i64(obj.position.x, -mc, mc);
            let cy = clamp_i64(obj.position.y, -mc, mc);
            if cx == obj.position.x && cy == obj.position.y {
                None
            } else {
                Some(Vec2 { x: obj.position.x - cx, y: obj.position.y - cy })
            }
        },
        Constraint::Circular { center, bound } => {
            let dx = obj.position.x - center.x;
            let dy = obj.position.y - center.y;
            let mdx = crate::fixed::abs64(dx) as u128;
            let mdy = crate::fixed::abs64(dy) as u128;
            proof {
                assert(mdx * mdx == dx * dx && mdy * mdy == dy * dy && mdx * mdx + mdy * mdy
                    <= u128::MAX) by (nonlinear_arith)
                    requires
                        mdx == abs_spec(dx as int),
                        mdy == abs_spec(dy as int),
                        0 <= mdx <= 2 * COORD_LIMIT,
                        0 <= mdy <= 2 * COORD_LIMIT,
                ;
            }
            let d2 = mdx * mdx + mdy * mdy;
            let dist = crate::fixed::isqrt(d2);
            proof {
                crate::fixed::lemma_sqrt_floor_bounds(d2 as nat);
                assert(dist <= 3 * COORD_LIMIT) by (nonlinear_arith)
                    requires
                        dist * dist <= d2,
                        d2 == mdx * mdx + mdy * mdy,
                        0 <= mdx <= 2 * COORD_LIMIT,
                        0 <= mdy <= 2 * COORD_LIMIT,
                        0 <= dist,
                ;
            }
            if (dist as i64) + obj.radius > bound {
                let scale = (bound - obj.radius) as u128;
                proof {
                    assert(mdx * scale <= u128::MAX && mdy * scale <= u128::MAX) by (nonlinear_arith)
                        requires
                            0 <= mdx <= 2 * COORD_LIMIT,
                            0 <= mdy <= 2 * COORD_LIMIT,
                            0 <= scale <= UNIT,
                    ;
                }
                let rx_mag = (mdx * scale) / (dist as u128);
                let ry_mag = (mdy * scale) / (dist as u128);
                proof {
                    lemma_project_bound(mdx as int, scale as int, dist as int);
                    lemma_project_bound(mdy as int, scale as int, dist as int);
                }
                let rx: i64 = if dx >= 0 {
                    rx_mag as i64
                } else {
                    -(rx_mag as i64)
                };
                let ry: i64 = if dy >= 0 {
                    ry_mag as i64
                } else {
                    -(ry_mag as i64)
                };
                Some(Vec2 { x: dx - rx, y: dy - ry })
            } else {
                None
            }
        },
    }
}

/// The radial projection moves a component by no more than its magnitude.
proof fn lemma_project_bound(m: int, scale: int, dist: int)
    requires
        0 <= m,
        0 <= scale < dist,
    ensures
        0 <= m * scale / dist <= m,
{
    assert(0 <= m * scale && m * scale <= dist * m) by (nonlinear_arith)
        requires
            0 <= m,
            0 <= scale < dist,
    ;
    vstd::arithmetic::div_mod::lemma_div_pos_is_pos(m * scale, dist);
    vstd::arithmetic::div_mod::lemma_div_is_ordered(m * scale, dist * m, dist);
    vstd::arithmetic::div_mod::lemma_div_multiples_vanish(m, dist);
}

/// Clamps a value into `[lo, hi]`.
fn clamp_i64(v: i64, lo: i64, hi: i64) -> (r: i64)
    requires
        lo <= hi,
    ensures
        r == clamp_to(v as int, lo as int, hi as int),
{
    if v < lo {
        lo
    } else if v > hi {
        hi
    } else {
        v
    }
}

/// What holds of the `idx`-th spawned body: it rests at its lattice
/// center and its radius lies within the configured jitter band.
pub open spec fn spawned_body_ok(b: VerletObject, gen: ObjectsGenerator, idx: int) -> bool {
    let row = idx / (gen.grid_columns as int);
    let col = idx % (gen.grid_columns as int);
    &&& b.position == populate_center(gen, row, col)
    &&& b.previous_position == b.position
    &&& b.acceleration == (Vec2 { x: 0, y: 0 })
    &&& gen.obj_radius - gen.obj_radius_deviation <= b.radius <= gen.obj_radius
        + gen.obj_radius_deviation
    &&& b.color == 0xffffffff
}

/// Computes the spawn center of the body at `(row, col)` of the lattice.
fn spawn_center(generator: &ObjectsGenerator, row: usize, col: usize) -> (r: Vec2)
    requires
        generator.ok(),
        row < generator.grid_rows,
        col < generator.grid_columns,
    ensures
        r == populate_center(*generator, row as int, col as int),
        r.in_band(),
        abs_spec(r.x as int) <= 200_000_000_000,
        abs_spec(r.y as int) <= 200_000_000_000,
{
    let rad = generator.obj_radius + generator.obj_radius_deviation;
    let gap = 2 * rad + generator.obj_min_separation;
    proof {
        assert(0 <= generator.grid_columns * gap && generator.grid_columns * gap <= 10_000 * (3
            * UNIT) && 0 <= generator.grid_rows * gap && generator.grid_rows * gap <= 10_000 * (3
            * UNIT)) by (nonlinear_arith)
            requires
                0 < generator.grid_columns <= 10_000,
                0 < generator.grid_rows <= 10_000,
                0 <= gap <= 3 * UNIT,
        ;
        vstd::arithmetic::div_mod::lemma_div_is_ordered(
            generator.grid_columns as int * gap,
            10_000 * (3 * UNIT),
            2,
        );
        vstd::arithmetic::div_mod::lemma_div_is_ordered(
            generator.grid_rows as int * gap,
            10_000 * (3 * UNIT),
            2,
        );
        vstd::arithmetic::div_mod::lemma_div_pos_is_pos(generator.grid_columns as int * gap, 2);
        vstd::arithmetic::div_mod::lemma_div_pos_is_pos(generator.grid_rows as int * gap, 2);
    }
    let half_w = ((generator.grid_columns as u64) * (gap as u64) / 2) as i64;
    let half_h = ((generator.grid_rows as u64) * (gap as u64) / 2) as i64;
    proof {
        assert(0 <= gap * col && gap * col <= 3 * UNIT * 10_000 && 0 <= gap * row && gap * row <= 3
            * UNIT * 10_000) by (nonlinear_arith)
            requires
                0 <= gap <= 3 * UNIT,
                0 <= col <= 10_000,
                0 <= row <= 10_000,
        ;
    }
    let tx = -half_w + gap * (col as i64);
    let ty = half_h - gap * (row as i64);
    proof {
        crate::fixed::lemma_mul_le(generator.rot_cos as int, tx as int, UNIT as int, 60_000_000_000);
        crate::fixed::lemma_mul_le(generator.rot_sin as int, tx as int, UNIT as int, 60_000_000_000);
        crate::fixed::lemma_mul_le(generator.rot_cos as int, ty as int, UNIT as int, 60_000_000_000);
        crate::fixed::lemma_mul_le(generator.rot_sin as int, ty as int, UNIT as int, 60_000_000_000);
        crate::fixed::lemma_fmul_bound(
            generator.rot_cos as int,
            tx as int,
            UNIT as int,
            60_000_000_000,
        );
        crate::fixed::lemma_fmul_bound(
            generator.rot_sin as int,
            tx as int,
            UNIT as int,
            60_000_000_000,
        );
        crate::fixed::lemma_fmul_bound(
            generator.rot_cos as int,
            ty as int,
            UNIT as int,
            60_000_000_000,
        );
        crate::fixed::lemma_fmul_bound(
            generator.rot_sin as int,
            ty as int,
            UNIT as int,
            60_000_000_000,
        );
    }
    let x = crate::fixed::fmul(generator.rot_cos, tx) - crate::fixed::fmul(generator.rot_sin, ty)
        + generator.grid_center.x;
    let y = crate::fixed::fmul(generator.rot_sin, tx) + crate::fixed::fmul(generator.rot_cos, ty)
        + generator.grid_center.y;
    Vec2 { x, y }
}

} // verus!
