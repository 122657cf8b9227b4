//! A verified path tracer over fixed-point arithmetic.
//!
//! The renderer casts jittered camera rays into a scene of spheres,
//! bounces them off diffuse, metallic and dielectric surfaces, and
//! averages the sampled colours into gamma-corrected pixels.  All
//! geometry and colour arithmetic is carried out on fixed-point values
//! (an `i64` mantissa scaled by 2^16), so every numeric step of the
//! core pipeline is verified.

pub mod fx;
pub mod vec3;
pub mod ray;
pub mod material;
pub mod hittable;
pub mod sphere;
pub mod rng;
pub mod camera;
pub mod render;

pub use fx::Fx;
pub use vec3::{Colour, Point3, Vec3};
