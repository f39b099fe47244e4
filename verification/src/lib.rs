//! A verified Monte Carlo path tracer over fixed-point arithmetic.
//!
//! Scene geometry (spheres), surface materials (diffuse, metallic,
//! dielectric), camera ray generation and the recursive path
//! integrator are all implemented over scaled-integer arithmetic, so
//! that every numeric step has an exact contract. Entropy for the
//! stochastic parts comes from an explicit random source argument,
//! which also admits a deterministic policy for reproducible renders.

pub mod camera;
pub mod color;
pub mod fixed;
pub mod hittable;
pub mod interval;
pub mod material;
pub mod objects;
pub mod ray;
pub mod rng;
pub mod vec3;

pub use fixed::SCALE;
