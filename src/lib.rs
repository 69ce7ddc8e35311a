//! A recursive Monte Carlo path tracer over exact fixed-point arithmetic.
//!
//! Every real quantity (coordinates, ray parameters, colors) is an integer
//! counting units of `1 / SCALE`; see [`fixed`].

pub mod fixed;
pub mod vec3;
pub mod ray;
pub mod material;
pub mod hitable;
pub mod sphere;
pub mod random;
pub mod camera;
pub mod render;
pub mod scene;
