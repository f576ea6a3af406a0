//! A path tracer for scenes of spheres, with the scalar type left open.
//!
//! The library holds the vector algebra, the camera, the search for the
//! nearest surface along a ray, the rules by which a surface answers a ray,
//! the walk of a light path through the scene and the values of a pixel. It
//! computes with any number type that has the operators of arithmetic, and
//! takes from its caller what such a type does not offer by itself: the
//! square root, and the numbers drawn at random.
use vstd::prelude::*;

pub mod scalar;
pub mod utils;
pub mod vec3;
pub mod ray;
pub mod hittable;
pub mod sphere;
pub mod material;
pub mod integrator;
pub mod camera;
pub mod color;
pub mod laws;
pub mod reals;
