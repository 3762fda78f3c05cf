//! A small ray tracer over fixed-point scalars.
//!
//! Scalars are signed 64-bit fixed-point numbers with 16 fractional bits,
//! saturating at a large bound instead of overflowing.  Every geometric and
//! shading routine carries a contract that pins down the value it computes.

pub mod camera;
pub mod fixed;
pub mod hittable;
pub mod hittable_list;
pub mod material;
pub mod ppm;
pub mod ray3;
pub mod rng;
pub mod sphere;
pub mod vec3;
