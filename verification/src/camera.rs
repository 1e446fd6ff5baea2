//! The camera: maps normalized image-plane coordinates to world rays.
use vstd::prelude::*;
use crate::fixed::abs1;
use crate::algebra::{Point, Vector, Vec3, in_box, add_s, sub_s, scale_s, lemma_scale_box};
use crate::ray::{Ray, ray_wf};

verus! {

#[derive(Clone, Copy, Debug, PartialEq, Eq, Structural)]
pub struct Camera {
    pub origin: Point,
    pub lower_left_corner: Point,
    pub horizontal: Vector,
    pub vertical: Vector,
}

/// A camera whose rays stay representable: the basis sits in a small box,
/// the image plane is perpendicular to the view axis, and the focal
/// offset keeps every ray direction at least a unit long.
pub open spec fn camera_wf(c: Camera) -> bool {
    &&& in_box(c.origin, 0x3_9000)
    &&& in_box(c.lower_left_corner, 0x3_9000)
    &&& in_box(c.horizontal, 0x3_9000)
    &&& in_box(c.vertical, 0x3_9000)
    &&& c.horizontal.z == 0
    &&& c.vertical.z == 0
    &&& abs1(c.lower_left_corner.z - c.origin.z) >= 65536
}

/// The ray through image coordinates `(u, v)`.
pub open spec fn get_ray_s(c: Camera, u: int, v: int) -> Ray {
    Ray {
        origin: c.origin,
        direction: sub_s(
            add_s(add_s(c.lower_left_corner, scale_s(c.horizontal, u)), scale_s(c.vertical, v)),
            c.origin,
        ),
    }
}

impl Camera {
    /// The ray from the camera origin through the image-plane point at
    /// `(u, v)`, both in the unit interval.
    pub fn get_ray(&self, u: i64, v: i64) -> (r: Ray)
        requires
            camera_wf(*self),
            0 <= u <= 65536,
            0 <= v <= 65536,
        ensures
            r == get_ray_s(*self, u as int, v as int),
            ray_wf(r),
    {
        let h = self.horizontal.scale(u);
        let w = self.vertical.scale(v);
        proof {
            lemma_scale_box(self.horizontal, u as int, 0x3_9000, 65536);
            lemma_scale_box(self.vertical, v as int, 0x3_9000, 65536);
        }
        let direction = self.lower_left_corner.add(h).add(w).sub(self.origin);
        proof {
            assert(direction.z == self.lower_left_corner.z - self.origin.z);
            let raw = crate::algebra::raw_dot_s(direction, direction);
            assert(raw >= 65536 * 65536) by (nonlinear_arith)
                requires
                    raw == (direction.x as int) * (direction.x as int)
                        + (direction.y as int) * (direction.y as int)
                        + (direction.z as int) * (direction.z as int),
                    abs1(direction.z as int) >= 65536,
            ;
            crate::fixed::lemma_tdiv_monotone((65536 * 65536) as int, raw, 65536 as int);
            crate::fixed::lemma_tdiv_exact(65536 as int, 65536 as int);
        }
        Ray { origin: self.origin, direction }
    }
}

impl Default for Camera {
    /// The fixed view of a 16:9 viewport of height two at focal length
    /// one: the horizontal extent is `(16/9) * 2`, and the lower-left
    /// corner sits half an extent down and left, one focal length ahead.
    fn default() -> (r: Camera)
        ensures
            r == (Camera {
                origin: Vec3 { x: 0i64, y: 0i64, z: 0i64 },
                lower_left_corner: Vec3 { x: -116508i64, y: -65536i64, z: -65536i64 },
                horizontal: Vec3 { x: 233016i64, y: 0i64, z: 0i64 },
                vertical: Vec3 { x: 0i64, y: 131072i64, z: 0i64 },
            }),
            camera_wf(r),
    {
        Camera {
            origin: Vec3 { x: 0, y: 0, z: 0 },
            lower_left_corner: Vec3 { x: -116508, y: -65536, z: -65536 },
            horizontal: Vec3 { x: 233016, y: 0, z: 0 },
            vertical: Vec3 { x: 0, y: 131072, z: 0 },
        }
    }
}

} // verus!
