//! Core of a Monte Carlo path-tracing renderer: the verified image buffer
//! that the per-pixel radiance evaluation fills in parallel, and the PPM
//! text form of a finished image.
//!
//! The floating-point radiance kernel itself — vectors, spheres, material
//! scattering — lives with the program around the library, which hands it to
//! [`image::Image::process_in_parallel`] as the per-pixel function.

pub mod image;
pub mod ppm;
