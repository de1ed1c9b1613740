//! Seeding the world: a rotated rectangular lattice of bodies with a
//! randomly jittered radius per body.

use vstd::prelude::*;

use crate::fixed::{abs_spec, fmul_spec, RADIUS_LIMIT, UNIT};
use crate::vec2::Vec2;

verus! {

/// The parameters of the spawn lattice: its center and tilt (as the
/// fixed-point cosine and sine of the tilt angle), the lattice size, the
/// nominal body radius with its jitter, and the extra separation between
/// neighboring bodies.
pub struct ObjectsGenerator {
    pub grid_center: Vec2,
    pub grid_columns: usize,
    pub grid_rows: usize,
    pub rot_cos: i64,
    pub rot_sin: i64,
    pub obj_radius: i64,
    pub obj_radius_deviation: i64,
    pub obj_min_separation: i64,
}

impl ObjectsGenerator {
    /// Parameter sanity: a usable radius range, a unit-bounded rotation,
    /// a lattice center inside the arena and a lattice that fits the
    /// coordinate band comfortably.
    pub open spec fn ok(self) -> bool {
        &&& 0 < self.obj_radius - self.obj_radius_deviation
        &&& self.obj_radius + self.obj_radius_deviation <= RADIUS_LIMIT
        &&& 0 <= self.obj_radius_deviation
        &&& 0 <= self.obj_min_separation <= UNIT
        &&& abs_spec(self.rot_cos as int) <= UNIT
        &&& abs_spec(self.rot_sin as int) <= UNIT
        &&& abs_spec(self.grid_center.x as int) <= UNIT
        &&& abs_spec(self.grid_center.y as int) <= UNIT
        &&& 0 < self.grid_columns <= 10_000
        &&& 0 < self.grid_rows <= 10_000
    }

    /// The center-to-center spacing of the lattice: two maximal radii plus
    /// the configured separation.
    pub open spec fn gap(self) -> int {
        2 * (self.obj_radius + self.obj_radius_deviation) + self.obj_min_separation
    }

    /// The default seeding: a dense 50 by 80 lattice of small bodies,
    /// tilted by an eighth of a right angle. The rotation fields hold the
    /// fixed-point cosine and sine of that tilt.
    pub fn default() -> (r: ObjectsGenerator)
        ensures
            r.ok(),
            r == (ObjectsGenerator {
                grid_center: Vec2 { x: 0, y: 0 },
                grid_columns: 50,
                grid_rows: 80,
                rot_cos: 990_268,
                rot_sin: 139_173,
                obj_radius: 3_000,
                obj_radius_deviation: 1_500,
                obj_min_separation: 300,
            }),
    {
        ObjectsGenerator {
            grid_center: Vec2 { x: 0, y: 0 },
            grid_columns: 50,
            grid_rows: 80,
            rot_cos: 990_268,
            rot_sin: 139_173,
            obj_radius: 3_000,
            obj_radius_deviation: 1_500,
            obj_min_separation: 300,
        }
    }

    /// The nominal radius, jittered by a uniformly random amount within the
    /// configured deviation.
    pub fn random_radius(&mut self) -> (r: i64)
        requires
            old(self).ok(),
        ensures
            *final(self) == *old(self),
            old(self).obj_radius - old(self).obj_radius_deviation <= r <= old(self).obj_radius
                + old(self).obj_radius_deviation,
    {
        let span = (2 * self.obj_radius_deviation) as u64 + 1;
        let delta = random_below(span) as i64 - self.obj_radius_deviation;
        self.obj_radius + delta
    }
}

/// Relies on rand: `Rng::gen_range` on the thread-local generator returns a
/// value of the given half-open range, uniformly distributed. Nothing more
/// is assumed of the value.
#[verifier::external_body]
fn random_below(n: u64) -> (r: u64)
    requires
        0 < n,
    ensures
        r < n,
{
    rand::Rng::gen_range(&mut rand::thread_rng(), 0..n)
}

/// The lattice position of the body at `(row, col)`, before rotation: the
/// lattice is centered on the origin, columns growing rightward and rows
/// downward.
pub open spec fn lattice_point(gen: ObjectsGenerator, row: int, col: int) -> (int, int) {
    let gap = gen.gap();
    let x0 = -((gen.grid_columns as int) * gap / 2);
    let y0 = (gen.grid_rows as int) * gap / 2;
    (x0 + gap * col, y0 - gap * row)
}

/// The spawn center of the body at `(row, col)`: the lattice point rotated
/// by the generator's tilt and moved to the lattice center.
pub open spec fn populate_center(gen: ObjectsGenerator, row: int, col: int) -> Vec2 {
    let (tx, ty) = lattice_point(gen, row, col);
    Vec2 {
        x: (fmul_spec(gen.rot_cos as int, tx) - fmul_spec(gen.rot_sin as int, ty)
            + gen.grid_center.x) as i64,
        y: (fmul_spec(gen.rot_sin as int, tx) + fmul_spec(gen.rot_cos as int, ty)
            + gen.grid_center.y) as i64,
    }
}

} // verus!
