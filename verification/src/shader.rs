//! Which colouring rule applies to a ray.

use crate::hitable::Hitable;
use crate::hitable_list::{closest, Hit, HitableList};
use crate::scalar::{Scalar, MAX_BITS};
use vstd::prelude::*;

verus! {

/// The rule by which a ray is coloured.
#[derive(Clone, Copy, Debug)]
pub enum Shading {
    /// The ray meets a surface: the colour shows the surface normal at the
    /// crossing, each component `n` mapped to `(n + 1) / 2`.
    Surface(Hit),
    /// The ray meets nothing: the colour is the sky's, a blend from white to
    /// blue by the height of the ray's direction.
    Sky,
}

/// What a scan over the whole of a ray found, as a rule.
pub open spec fn rule_for(result: Option<(int, Scalar)>) -> Shading {
    match result {
        Some((k, t)) => Shading::Surface(Hit { index: k as usize, t }),
        None => Shading::Sky,
    }
}

/// The rule for a ray whose surfaces are `hitables`: the nearest crossing
/// with a parameter above zero and below the largest finite number, or the
/// sky if there is none.
pub fn shade<T: Hitable>(hitables: &HitableList<T>) -> (r: Shading)
    ensures
        r == rule_for(closest(hitables.list@, Scalar { bits: 0 }, Scalar { bits: MAX_BITS })),
        hitables.list@.len() == 0 ==> r is Sky,
{
    match hitables.hit(Scalar::zero(), Scalar::max()) {
        Some(hit) => Shading::Surface(hit),
        None => Shading::Sky,
    }
}

} // verus!
