//! A sphere along one ray: the solved quadratic of their intersection.
//!
//! With `oc` the ray's origin less the sphere's centre, the ray meets the
//! sphere where `a·t² + 2b·t + c = 0`, for `a = dir·dir`, `b = oc·dir` and
//! `c = oc·oc - radius²`. The discriminant is `b² - a·c` and the roots are
//! `(-b ± √discriminant) / a`.

use crate::hitable::{inside, strictly_inside, Hitable};
use crate::scalar::{Scalar, Value};
use vstd::prelude::*;

verus! {

/// A ray whose direction has no length: its quadratic has no roots to divide
/// out.
#[derive(Clone, Copy, Debug, PartialEq, Eq)]
pub struct ZeroDirection;

/// The discriminant and the two roots of a ray's quadratic for one sphere.
#[derive(Clone, Copy, Debug)]
pub struct Roots {
    discriminant: Scalar,
    near: Scalar,
    far: Scalar,
}

impl Roots {
    /// The discriminant `b² - a·c`.
    pub closed spec fn discriminant(self) -> Scalar {
        self.discriminant
    }

    /// The root `(-b - √discriminant) / a`.
    pub closed spec fn near(self) -> Scalar {
        self.near
    }

    /// The root `(-b + √discriminant) / a`.
    pub closed spec fn far(self) -> Scalar {
        self.far
    }

    /// The roots of a quadratic with leading coefficient `a`, or the error if
    /// `a` is zero, which is when the ray's direction has no length.
    pub fn new(a: Scalar, discriminant: Scalar, near: Scalar, far: Scalar) -> (r: Result<
        Roots,
        ZeroDirection,
    >)
        ensures
            r is Err <==> a@ == Value::Finite(0),
            r matches Ok(roots) ==> roots.discriminant() == discriminant && roots.near() == near
                && roots.far() == far,
    {
        if a.is_zero() {
            Err(ZeroDirection)
        } else {
            Ok(Roots { discriminant, near, far })
        }
    }
}

impl Hitable for Roots {
    /// With a positive discriminant the near root if it lies in the interval,
    /// else the far root if that does; otherwise nothing. A discriminant of
    /// zero, where the ray only touches the sphere, is a miss.
    open spec fn spec_hit(&self, t_min: Scalar, t_max: Scalar) -> Option<Scalar> {
        if !self.discriminant()@.is_positive() {
            None
        } else if strictly_inside(self.near(), t_min, t_max) {
            Some(self.near())
        } else if strictly_inside(self.far(), t_min, t_max) {
            Some(self.far())
        } else {
            None
        }
    }

    /// The far root is not below the near one.
    open spec fn well_formed(&self) -> bool {
        !self.far()@.lt(self.near()@)
    }

    fn hit(&self, t_min: Scalar, t_max: Scalar) -> (r: Option<Scalar>) {
        if self.discriminant.is_positive() {
            if inside(self.near, t_min, t_max) {
                return Some(self.near);
            }
            if inside(self.far, t_min, t_max) {
                return Some(self.far);
            }
        }
        None
    }

    proof fn lemma_hit_inside(&self, t_min: Scalar, t_max: Scalar) {
    }

    proof fn lemma_hit_tightened(&self, t_min: Scalar, t_max: Scalar, bound: Scalar) {
    }
}

/// Of the roots that lie in the interval the smaller is reported: with the
/// far root not below the near one, a reported root is one of the two, lies
/// strictly inside the interval, and no root inside the interval is below
/// it. Nothing is reported exactly when the discriminant is not positive or
/// neither root lies inside.
pub proof fn lemma_hit_is_smallest_root(roots: Roots, t_min: Scalar, t_max: Scalar)
    requires
        roots.well_formed(),
    ensures
        roots.spec_hit(t_min, t_max) is None <==> !(roots.discriminant()@.is_positive() && (
        strictly_inside(roots.near(), t_min, t_max) || strictly_inside(
            roots.far(),
            t_min,
            t_max,
        ))),
        roots.spec_hit(t_min, t_max) matches Some(t) ==> {
            &&& t == roots.near() || t == roots.far()
            &&& strictly_inside(t, t_min, t_max)
            &&& strictly_inside(roots.near(), t_min, t_max) ==> !roots.near()@.lt(t@)
            &&& strictly_inside(roots.far(), t_min, t_max) ==> !roots.far()@.lt(t@)
        },
{
}

} // verus!
