//! The physical state of one circular body, advanced by Verlet integration.

use vstd::prelude::*;

use crate::fixed::{
    abs_spec, clamp_coord, clamp_coord_spec, fmul, fmul_spec, lemma_fmul_bound, ACCEL_LIMIT,
    COORD_LIMIT, DT_LIMIT, RADIUS_LIMIT, SHIFT_LIMIT, UNIT,
};
use crate::vec2::Vec2;

verus! {

/// One particle: current and previous center, fixed radius, and a pending
/// acceleration accumulator. The previous center encodes the implicit
/// velocity as `position - previous_position`. The color is a passenger
/// attribute for a renderer, packed as RGBA bytes; physics never reads it.
#[derive(Clone, Copy, PartialEq, Eq, Structural, Debug)]
pub struct VerletObject {
    pub position: Vec2,
    pub previous_position: Vec2,
    pub radius: i64,
    pub acceleration: Vec2,
    pub color: u32,
}

/// Well-formedness of a body: centers in the coordinate band, a positive
/// bounded radius, and a bounded acceleration.
pub open spec fn body_wf(b: VerletObject) -> bool {
    &&& b.position.in_band()
    &&& b.previous_position.in_band()
    &&& 0 < b.radius <= RADIUS_LIMIT
    &&& abs_spec(b.acceleration.x as int) <= ACCEL_LIMIT
    &&& abs_spec(b.acceleration.y as int) <= ACCEL_LIMIT
}

/// The body after a positional shift by `v`: only the current center moves,
/// clamped into the coordinate band; the implicit velocity therefore changes.
pub open spec fn shifted(b: VerletObject, v: Vec2) -> VerletObject {
    VerletObject {
        position: Vec2 {
            x: clamp_coord_spec(b.position.x + v.x) as i64,
            y: clamp_coord_spec(b.position.y + v.y) as i64,
        },
        ..b
    }
}

/// The body after both centers move by `v`: the implicit velocity is kept.
pub open spec fn position_adjusted(b: VerletObject, v: Vec2) -> VerletObject {
    VerletObject {
        position: Vec2 {
            x: clamp_coord_spec(b.position.x + v.x) as i64,
            y: clamp_coord_spec(b.position.y + v.y) as i64,
        },
        previous_position: Vec2 {
            x: clamp_coord_spec(b.previous_position.x + v.x) as i64,
            y: clamp_coord_spec(b.previous_position.y + v.y) as i64,
        },
        ..b
    }
}

/// One Verlet step of length `dt`: the new center is the old one plus the
/// implicit velocity plus `acceleration * dt * dt`; the old center becomes
/// the previous one; the acceleration accumulator is cleared.
pub open spec fn integrated(b: VerletObject, dt: int) -> VerletObject {
    let ax = fmul_spec(fmul_spec(b.acceleration.x as int, dt), dt);
    let ay = fmul_spec(fmul_spec(b.acceleration.y as int, dt), dt);
    VerletObject {
        position: Vec2 {
            x: clamp_coord_spec(b.position.x + (b.position.x - b.previous_position.x) + ax) as i64,
            y: clamp_coord_spec(b.position.y + (b.position.y - b.previous_position.y) + ay) as i64,
        },
        previous_position: b.position,
        acceleration: Vec2 { x: 0, y: 0 },
        ..b
    }
}

/// Whether the two bodies' disks overlap strictly: the squared distance of
/// the centers is below the squared sum of the radii.
pub open spec fn overlapping(a: VerletObject, b: VerletObject) -> bool {
    let dx = b.position.x - a.position.x;
    let dy = b.position.y - a.position.y;
    dx * dx + dy * dy < (a.radius + b.radius) * (a.radius + b.radius)
}

impl VerletObject {
    /// A new body at rest: the previous center equals the current one and no
    /// acceleration is pending.
    pub fn new(position: Vec2, radius: i64, color: u32) -> (r: VerletObject)
        requires
            position.in_band(),
            0 < radius <= RADIUS_LIMIT,
        ensures
            r == (VerletObject {
                position,
                previous_position: position,
                radius,
                acceleration: Vec2 { x: 0, y: 0 },
                color,
            }),
            body_wf(r),
    {
        VerletObject {
            position,
            previous_position: position,
            radius,
            acceleration: Vec2 { x: 0, y: 0 },
            color,
        }
    }

    pub fn get_center(&self) -> (r: Vec2)
        ensures
            r == self.position,
    {
        self.position
    }

    pub fn get_radius(&self) -> (r: i64)
        ensures
            r == self.radius,
    {
        self.radius
    }

    pub fn get_color(&self) -> (r: u32)
        ensures
            r == self.color,
    {
        self.color
    }

    /// Moves the current center by `vector`, clamped to the coordinate band.
    pub fn shift(&mut self, vector: Vec2)
        requires
            old(self).position.in_band(),
            abs_spec(vector.x as int) <= SHIFT_LIMIT,
            abs_spec(vector.y as int) <= SHIFT_LIMIT,
        ensures
            *final(self) == shifted(*old(self), vector),
    {
        self.position = Vec2 {
            x: clamp_coord(self.position.x + vector.x),
            y: clamp_coord(self.position.y + vector.y),
        };
    }

    /// Moves both centers by `vector`, so the implicit velocity is preserved.
    /// This works around the solver; prefer `shift` unless the velocity must
    /// survive the correction.
    pub fn adjust_position_data(&mut self, vector: Vec2)
        requires
            old(self).position.in_band(),
            old(self).previous_position.in_band(),
            abs_spec(vector.x as int) <= SHIFT_LIMIT,
            abs_spec(vector.y as int) <= SHIFT_LIMIT,
        ensures
            *final(self) == position_adjusted(*old(self), vector),
    {
        self.position = Vec2 {
            x: clamp_coord(self.position.x + vector.x),
            y: clamp_coord(self.position.y + vector.y),
        };
        self.previous_position = Vec2 {
            x: clamp_coord(self.previous_position.x + vector.x),
            y: clamp_coord(self.previous_position.y + vector.y),
        };
    }

    /// One Verlet integration step of length `dt` (fixed-point seconds).
    pub fn update_position(&mut self, dt: i64)
        requires
            body_wf(*old(self)),
            0 <= dt <= DT_LIMIT,
        ensures
            *final(self) == integrated(*old(self), dt as int),
            body_wf(*final(self)),
    {
        proof {
            let inner_bound = ACCEL_LIMIT as int * DT_LIMIT as int / UNIT as int;
            crate::fixed::lemma_mul_le(
                self.acceleration.x as int,
                dt as int,
                ACCEL_LIMIT as int,
                DT_LIMIT as int,
            );
            crate::fixed::lemma_mul_le(
                self.acceleration.y as int,
                dt as int,
                ACCEL_LIMIT as int,
                DT_LIMIT as int,
            );
            lemma_fmul_bound(self.acceleration.x as int, dt as int, ACCEL_LIMIT as int, DT_LIMIT as int);
            lemma_fmul_bound(self.acceleration.y as int, dt as int, ACCEL_LIMIT as int, DT_LIMIT as int);
            crate::fixed::lemma_mul_le(
                fmul_spec(self.acceleration.x as int, dt as int),
                dt as int,
                inner_bound,
                DT_LIMIT as int,
            );
            crate::fixed::lemma_mul_le(
                fmul_spec(self.acceleration.y as int, dt as int),
                dt as int,
                inner_bound,
                DT_LIMIT as int,
            );
            lemma_fmul_bound(
                fmul_spec(self.acceleration.x as int, dt as int),
                dt as int,
                inner_bound,
                DT_LIMIT as int,
            );
            lemma_fmul_bound(
                fmul_spec(self.acceleration.y as int, dt as int),
                dt as int,
                inner_bound,
                DT_LIMIT as int,
            );
        }
        let ax = fmul(fmul(self.acceleration.x, dt), dt);
        let ay = fmul(fmul(self.acceleration.y, dt), dt);
        let velocity_dt = Vec2 {
            x: self.position.x - self.previous_position.x,
            y: self.position.y - self.previous_position.y,
        };
        self.previous_position = self.position;
        self.position = Vec2 {
            x: clamp_coord(self.position.x + velocity_dt.x + ax),
            y: clamp_coord(self.position.y + velocity_dt.y + ay),
        };
        self.acceleration = Vec2 { x: 0, y: 0 };
    }

    /// Overwrites the pending acceleration.
    pub fn set_acceleration(&mut self, acceleration: Vec2)
        requires
            abs_spec(acceleration.x as int) <= ACCEL_LIMIT,
            abs_spec(acceleration.y as int) <= ACCEL_LIMIT,
        ensures
            *final(self) == (VerletObject { acceleration, ..*old(self) }),
    {
        self.acceleration = acceleration;
    }

    /// Adds `delta` to the pending acceleration.
    pub fn accelerate(&mut self, delta: Vec2)
        requires
            abs_spec(old(self).acceleration.x + delta.x) <= ACCEL_LIMIT,
            abs_spec(old(self).acceleration.y + delta.y) <= ACCEL_LIMIT,
            abs_spec(old(self).acceleration.x as int) <= ACCEL_LIMIT,
            abs_spec(old(self).acceleration.y as int) <= ACCEL_LIMIT,
        ensures
            *final(self) == (VerletObject {
                acceleration: Vec2 {
                    x: (old(self).acceleration.x + delta.x) as i64,
                    y: (old(self).acceleration.y + delta.y) as i64,
                },
                ..*old(self)
            }),
    {
        self.acceleration = Vec2 {
            x: self.acceleration.x + delta.x,
            y: self.acceleration.y + delta.y,
        };
    }

    /// Whether this body's disk strictly overlaps `other`'s.
    pub fn collides_with(&self, other: &VerletObject) -> (r: bool)
        requires
            self.position.in_band(),
            other.position.in_band(),
            0 < self.radius <= RADIUS_LIMIT,
            0 < other.radius <= RADIUS_LIMIT,
        ensures
            r == overlapping(*self, *other),
    {
        let dx = other.position.x - self.position.x;
        let dy = other.position.y - self.position.y;
        let mdx = crate::fixed::abs64(dx) as u128;
        let mdy = crate::fixed::abs64(dy) as u128;
        proof {
            assert(mdx * mdx == (other.position.x - self.position.x)
                * (other.position.x - self.position.x) && mdy * mdy == (other.position.y
                - self.position.y) * (other.position.y - self.position.y)) by (nonlinear_arith)
                requires
                    mdx == abs_spec(other.position.x - self.position.x),
                    mdy == abs_spec(other.position.y - self.position.y),
            ;
            assert(mdx * mdx + mdy * mdy <= u128::MAX) by (nonlinear_arith)
                requires
                    0 <= mdx <= 2 * COORD_LIMIT,
                    0 <= mdy <= 2 * COORD_LIMIT,
            ;
        }
        let d2 = mdx * mdx + mdy * mdy;
        let rsum = (self.radius + other.radius) as u128;
        proof {
            assert(rsum * rsum <= u128::MAX) by (nonlinear_arith)
                requires
                    0 <= rsum <= 2 * RADIUS_LIMIT,
            ;
        }
        d2 < rsum * rsum
    }
}

} // verus!
