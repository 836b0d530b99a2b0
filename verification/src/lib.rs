//! The decision core of a Monte-Carlo path tracer for scenes of spheres.
//!
//! Everything here branches, selects, counts or formats; nothing here does
//! floating-point arithmetic. Numbers cross this interface as IEEE-754
//! binary64 bit patterns ([`scalar::Scalar`]), and the comparisons that the
//! decisions rest on are proved against the numeric meaning of those bits.
//!
//! * [`scalar`]: order and whole part of binary64 values held by their bits.
//! * [`geometry`]: which root of a ray/sphere quadratic counts as the hit,
//!   and which sphere of a scene a ray sees first.
//! * [`material`]: the fuzz bound of a metal, the reflect-or-refract choice
//!   of a dielectric, and the surface that a random sphere gets.
//! * [`integrator`]: the bounce budget of one traced path.
//! * [`raster`]: the order in which the pixels of an image are produced.
//! * [`ppm`]: the text of a plain PPM image.
pub mod geometry;
pub mod integrator;
pub mod material;
pub mod ppm;
pub mod raster;
pub mod scalar;
