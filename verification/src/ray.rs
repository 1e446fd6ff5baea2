//! A parametric line: origin plus `t` times direction.
use vstd::prelude::*;
use crate::fixed::abs1;
use crate::algebra::{Point, Vector, Vec3, in_box, add_s, scale_s, dot_s};

verus! {

#[derive(Clone, Copy, Debug, PartialEq, Eq, Structural)]
pub struct Ray {
    pub origin: Point,
    pub direction: Vector,
}

/// A ray the tracer works on: origin inside the world box, direction
/// bounded and at least one grid step long.
pub open spec fn ray_wf(r: Ray) -> bool {
    in_box(r.origin, 0x200_0000) && in_box(r.direction, 0x10_0000)
        && 1 <= dot_s(r.direction, r.direction)
}

/// The point reached after parameter `t`.
pub open spec fn at_s(r: Ray, t: int) -> Point {
    add_s(r.origin, scale_s(r.direction, t))
}

impl Ray {
    pub fn new(origin: Point, direction: Vector) -> (r: Ray)
        ensures r == (Ray { origin, direction }),
    {
        Ray { origin, direction }
    }

    /// Evaluates the ray at parameter `t`.
    pub fn at(&self, t: i64) -> (r: Point)
        requires
            in_box(self.origin, 0x1000_0000_0000_0000),
            in_box(self.direction, 0x20_0000),
            abs1(t as int) <= 0x80_0000_0000,
        ensures r == at_s(*self, t as int),
    {
        let scaled = self.direction.scale(t);
        proof {
            crate::algebra::lemma_scale_box(self.direction, t as int, 0x20_0000, 0x80_0000_0000);
        }
        self.origin.add(scaled)
    }

    pub fn origin(&self) -> (r: Point)
        ensures r == self.origin,
    {
        self.origin
    }

    pub fn direction(&self) -> (r: Vector)
        ensures r == self.direction,
    {
        self.direction
    }

    /// Checks the world-box bounds under which the tracer follows a ray.
    pub fn in_world(&self) -> (r: bool)
        ensures r <==> ray_wf(*self),
    {
        let obox = self.origin.x >= -0x200_0000 && self.origin.x <= 0x200_0000
            && self.origin.y >= -0x200_0000 && self.origin.y <= 0x200_0000
            && self.origin.z >= -0x200_0000 && self.origin.z <= 0x200_0000;
        let dbox = self.direction.x >= -0x10_0000 && self.direction.x <= 0x10_0000
            && self.direction.y >= -0x10_0000 && self.direction.y <= 0x10_0000
            && self.direction.z >= -0x10_0000 && self.direction.z <= 0x10_0000;
        if obox && dbox {
            let sq = self.direction.square_length();
            sq >= 1
        } else {
            false
        }
    }
}

} // verus!
