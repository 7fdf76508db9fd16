//! A small ray tracer over fixed-point arithmetic.
//!
//! Geometry, colours and camera rays are all expressed in a signed
//! fixed-point scale (`fixed::SCALE` units to one), so every step of the
//! rendering pipeline — sphere intersection, closest-hit search, material
//! scattering and per-pixel sample averaging — is exact integer arithmetic
//! with a proved contract.

pub mod fixed;
pub mod geometry;
pub mod hit;
pub mod material;
pub mod parse;
pub mod pixel;
pub mod camera;
pub mod colour;
pub mod ray;
pub mod sampler;
pub mod scene;
pub mod shape;
pub mod stock;
pub mod vec;
