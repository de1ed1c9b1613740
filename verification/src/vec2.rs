//! A two-dimensional fixed-point vector.

use vstd::prelude::*;

use crate::fixed::COORD_LIMIT;

verus! {

/// A planar vector whose components count millionths of a world unit.
#[derive(Clone, Copy, PartialEq, Eq, Structural, Debug)]
pub struct Vec2 {
    pub x: i64,
    pub y: i64,
}

impl Vec2 {
    /// Both components lie in the representable coordinate band.
    pub open spec fn in_band(self) -> bool {
        &&& -COORD_LIMIT <= self.x <= COORD_LIMIT
        &&& -COORD_LIMIT <= self.y <= COORD_LIMIT
    }

    pub fn new(x: i64, y: i64) -> (r: Vec2)
        ensures
            r == (Vec2 { x, y }),
    {
        Vec2 { x, y }
    }

    pub fn zero() -> (r: Vec2)
        ensures
            r == (Vec2 { x: 0, y: 0 }),
    {
        Vec2 { x: 0, y: 0 }
    }

    /// The componentwise opposite vector.
    pub fn neg(self) -> (r: Vec2)
        requires
            self.x > i64::MIN,
            self.y > i64::MIN,
        ensures
            r.x == -self.x,
            r.y == -self.y,
    {
        Vec2 { x: -self.x, y: -self.y }
    }
}

} // verus!
