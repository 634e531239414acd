//! Three scalars, read as a colour.

use crate::scalar::Scalar;
use vstd::prelude::*;

verus! {

/// Three scalars. As a colour they are red, green and blue, each on a scale
/// where 255 is full.
#[derive(Clone, Copy, Debug)]
pub struct Vec3 {
    pub x: Scalar,
    pub y: Scalar,
    pub z: Scalar,
}

impl Vec3 {
    /// The vector of the given components.
    pub fn new(x: Scalar, y: Scalar, z: Scalar) -> (r: Vec3)
        ensures
            r.x == x,
            r.y == y,
            r.z == z,
    {
        Vec3 { x, y, z }
    }

    /// The red channel as a byte: the integer part of `x`, wrapped.
    pub fn r(&self) -> (r: u8)
        ensures
            r == self.x@.byte(),
    {
        self.x.to_byte()
    }

    /// The green channel as a byte: the integer part of `y`, wrapped.
    pub fn g(&self) -> (r: u8)
        ensures
            r == self.y@.byte(),
    {
        self.y.to_byte()
    }

    /// The blue channel as a byte: the integer part of `z`, wrapped.
    pub fn b(&self) -> (r: u8)
        ensures
            r == self.z@.byte(),
    {
        self.z.to_byte()
    }
}

} // verus!
