//! What a surface owes to a ray: the parameter at which the ray meets it.

use crate::scalar::Scalar;
use vstd::prelude::*;

verus! {

/// Whether `t` lies strictly between `t_min` and `t_max`.
pub open spec fn strictly_inside(t: Scalar, t_min: Scalar, t_max: Scalar) -> bool {
    t_min@.lt(t@) && t@.lt(t_max@)
}

/// Whether `t` lies strictly between `t_min` and `t_max`. A NaN lies in no
/// interval, and no number lies in an interval with a NaN for a bound.
pub fn inside(t: Scalar, t_min: Scalar, t_max: Scalar) -> (r: bool)
    ensures
        r == strictly_inside(t, t_min, t_max),
{
    t.gt(t_min) && t.lt(t_max)
}

/// A surface along one ray: it can say where within an interval of the ray's
/// parameter the ray meets it.
pub trait Hitable {
    /// The parameter of the crossing that `hit` reports for the open interval
    /// from `t_min` to `t_max`, if it reports one.
    spec fn spec_hit(&self, t_min: Scalar, t_max: Scalar) -> Option<Scalar>;

    /// The condition under which the two laws below hold of the surface.
    spec fn well_formed(&self) -> bool;

    /// Where the ray meets the surface strictly inside the interval.
    fn hit(&self, t_min: Scalar, t_max: Scalar) -> (r: Option<Scalar>)
        ensures
            r == self.spec_hit(t_min, t_max),
    ;

    /// A reported crossing lies strictly inside the interval asked for.
    proof fn lemma_hit_inside(&self, t_min: Scalar, t_max: Scalar)
        requires
            self.well_formed(),
        ensures
            self.spec_hit(t_min, t_max) matches Some(t) ==> strictly_inside(t, t_min, t_max),
    ;

    /// Lowering the upper bound changes the answer only by dropping a
    /// crossing that the new bound excludes.
    proof fn lemma_hit_tightened(&self, t_min: Scalar, t_max: Scalar, bound: Scalar)
        requires
            self.well_formed(),
            bound@.lt(t_max@),
        ensures
            self.spec_hit(t_min, bound) == (match self.spec_hit(t_min, t_max) {
                Some(t) => if t@.lt(bound@) {
                    Some(t)
                } else {
                    None
                },
                None => None,
            }),
    ;
}

} // verus!
