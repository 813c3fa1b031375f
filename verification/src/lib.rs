//! A Monte Carlo path-tracing engine over fixed-point arithmetic.
//!
//! Scalars are Q47.16 fixed-point numbers stored in `i64`: a raw value `v`
//! stands for the real number `v / 65536`.  All geometry (vectors, rays,
//! intervals, bounding boxes), the bounding-volume hierarchy used to
//! accelerate ray-scene intersection, the material and texture models, and
//! the recursive radiance integrator are implemented and specified over this
//! exact integer representation.

pub mod fixed;
pub mod interval;
pub mod ray;
pub mod aabb;
pub mod sphere;
pub mod hittable;
pub mod bvh;
pub mod utils;
pub mod perlin;
pub mod color;
pub mod texture;
pub mod material;
pub mod camera;
pub mod scene;
pub mod equivalence;
pub mod vec3;

use vstd::prelude::*;

verus! {

} // verus!
