//! A path tracer over decimal fixed-point numbers.
//!
//! Given a world of spheres with materials and a camera, the library
//! estimates for every pixel the light that arrives through it: camera rays
//! are followed from bounce to bounce until they leave the world, are
//! absorbed, or run out of bounces. All arithmetic is exact integer
//! arithmetic on billionths, so that every function has a precise contract;
//! randomness is drawn from a generator that the caller owns.

pub mod camera;
pub mod fixed;
pub mod helpers;
pub mod hittable;
pub mod material;
pub mod ppm;
pub mod ray;
pub mod render;
pub mod scene;
pub mod vec3;
