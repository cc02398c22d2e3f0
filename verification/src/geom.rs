use vstd::prelude::*;

use crate::num::{advance, advanced, coord_ok, dt_ok, vel_ok};

verus! {

/// A 2D world-space vector in milli-units (see `MILLIS_PER_UNIT`).
#[derive(Clone, Copy, PartialEq, Eq, Structural, Debug)]
pub struct Vec2 {
    pub x: i64,
    pub y: i64,
}

pub open spec fn vec2_coord_ok(v: Vec2) -> bool {
    coord_ok(v.x as int) && coord_ok(v.y as int)
}

pub open spec fn vec2_vel_ok(v: Vec2) -> bool {
    vel_ok(v.x as int) && vel_ok(v.y as int)
}

/// Squared distance between two points, as a mathematical integer.
pub open spec fn dist2(a: Vec2, b: Vec2) -> int {
    (a.x - b.x) * (a.x - b.x) + (a.y - b.y) * (a.y - b.y)
}

impl Vec2 {
    pub fn new(x: i64, y: i64) -> (r: Vec2)
        ensures
            r == (Vec2 { x, y }),
    {
        Vec2 { x, y }
    }

    /// Squared distance to another point. Kept in 128 bits: the squares of
    /// coordinate differences do not fit in 64.
    pub fn dist2(&self, other: &Vec2) -> (r: i128)
        requires
            vec2_coord_ok(*self),
            vec2_coord_ok(*other),
        ensures
            r as int == dist2(*self, *other),
    {
        let dx: i128 = self.x as i128 - other.x as i128;
        let dy: i128 = self.y as i128 - other.y as i128;
        proof {
            assert(dx * dx + dy * dy <= i128::MAX && dx * dx >= 0 && dy * dy >= 0)
                by (nonlinear_arith)
                requires
                    -0x1_0000_0000_0000 <= dx <= 0x1_0000_0000_0000,
                    -0x1_0000_0000_0000 <= dy <= 0x1_0000_0000_0000,
            ;
        }
        dx * dx + dy * dy
    }

    /// The point advanced by `vel * dt`, clamped to the world box on each
    /// axis.
    pub fn advanced_by(&self, vel: &Vec2, dt: i64) -> (r: Vec2)
        requires
            vec2_coord_ok(*self),
            vec2_vel_ok(*vel),
            dt_ok(dt as int),
        ensures
            r.x as int == advanced(self.x as int, vel.x as int, dt as int),
            r.y as int == advanced(self.y as int, vel.y as int, dt as int),
            vec2_coord_ok(r),
    {
        Vec2 { x: advance(self.x, vel.x, dt), y: advance(self.y, vel.y, dt) }
    }
}

} // verus!
