//! A path-tracing renderer over fixed-point arithmetic: scenes of
//! spheres with diffuse, metallic and dielectric materials, traced by a
//! recursive integrator, with every operation pinned to an exact
//! integer specification.
use vstd::prelude::*;

pub mod algebra;
pub mod camera;
pub mod color;
pub mod fixed;
pub mod hittable;
pub mod integrator;
pub mod material;
pub mod ray;
pub mod render;

verus! {

} // verus!
