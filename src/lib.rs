//! A path tracer over fixed-point geometry.
//!
//! Lengths, directions, colors and ray parameters are integers counted in ticks,
//! `vec3::SCALE` ticks to the unit, so that every computation is exact and its
//! contract can speak of it.  Randomness (pixel jitter, lens samples, diffuse and
//! metal bounces, split axes) comes from the `rand` crate.  Scattering, path
//! integration and the camera each have a twin that takes the drawn values as
//! arguments and has an exact contract; the functions that draw state what holds
//! of every draw.

pub mod animated_sphere;
pub mod bbox;
pub mod bvh;
pub mod camera;
pub mod hittable;
pub mod image;
pub mod intensity;
pub mod material;
pub mod ppm;
pub mod ray;
pub mod renderer;
pub mod rgb;
pub mod scene;
pub mod sphere;
pub mod time;
pub mod utils;
pub mod vec3;
