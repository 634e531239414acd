//! The decision core of a ray caster: which surface a ray meets first, which
//! root of a sphere's quadratic is the crossing, which rule colours the ray,
//! and which byte a colour channel becomes.
//!
//! Numbers are single-precision floats held by their bit patterns. The
//! library does no floating-point arithmetic: a caller hands it the numbers
//! that its arithmetic produced, and every comparison and conversion the
//! library makes on them is an integer computation, proved against the
//! numbers that the patterns stand for.

pub mod byte;
pub mod hitable;
pub mod hitable_list;
pub mod scalar;
pub mod shader;
pub mod sphere;
pub mod vec3;
