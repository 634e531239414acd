//! A list of surfaces, and the one a ray meets first.

use crate::hitable::{strictly_inside, Hitable};
use crate::scalar::Scalar;
use vstd::prelude::*;

verus! {

/// The surface a ray meets, by its place in the list, and the parameter at
/// which it does.
#[derive(Clone, Copy, Debug)]
pub struct Hit {
    pub index: usize,
    pub t: Scalar,
}

/// What a scan found, as a place in the list and a parameter.
pub open spec fn found(hit: Option<Hit>) -> Option<(int, Scalar)> {
    match hit {
        Some(h) => Some((h.index as int, h.t)),
        None => None,
    }
}

/// The upper bound that is left for the surfaces still to come: the
/// parameter found so far, or the caller's bound if nothing was found.
pub open spec fn bound_after(so_far: Option<(int, Scalar)>, t_max: Scalar) -> Scalar {
    match so_far {
        Some((_, t)) => t,
        None => t_max,
    }
}

/// The closest crossing among `surfaces`, scanned in order. Each surface is
/// asked for a crossing below the closest one found before it, so a later
/// surface replaces an earlier one only with a strictly smaller parameter.
pub open spec fn closest<T: Hitable>(surfaces: Seq<T>, t_min: Scalar, t_max: Scalar) -> Option<
    (int, Scalar),
>
    decreases surfaces.len(),
{
    if surfaces.len() == 0 {
        None
    } else {
        let before = closest(surfaces.drop_last(), t_min, t_max);
        match surfaces.last().spec_hit(t_min, bound_after(before, t_max)) {
            Some(t) => Some((surfaces.len() - 1, t)),
            None => before,
        }
    }
}

/// The surfaces of a scene along one ray.
pub struct HitableList<T: Hitable> {
    pub list: Vec<T>,
}

impl<T: Hitable> HitableList<T> {
    /// The closest crossing strictly inside the interval from `t_min` to
    /// `t_max`, with the place of its surface; `None` if the list is empty or
    /// no surface reports one.
    ///
    /// The surfaces are scanned in order, each asked for a crossing below the
    /// closest one yet. Of well-formed surfaces that finds the nearest
    /// crossing, and of equal crossings the first.
    pub fn hit(&self, t_min: Scalar, t_max: Scalar) -> (r: Option<Hit>)
        ensures
            found(r) == closest(self.list@, t_min, t_max),
            self.list@.len() == 0 ==> r is None,
            all_well_formed(self.list@) ==> is_nearest(self.list@, t_min, t_max, found(r)),
    {
        let mut best: Option<Hit> = None;
        let mut closest_yet: Scalar = t_max;
        let mut i: usize = 0;
        while i < self.list.len()
            invariant
                i <= self.list.len(),
                found(best) == closest(self.list@.take(i as int), t_min, t_max),
                closest_yet == bound_after(found(best), t_max),
            decreases self.list.len() - i,
        {
            proof {
                assert(self.list@.take(i + 1).drop_last() == self.list@.take(i as int));
                assert(self.list@.take(i + 1).last() == self.list@[i as int]);
            }
            match self.list[i].hit(t_min, closest_yet) {
                Some(t) => {
                    best = Some(Hit { index: i, t });
                    closest_yet = t;
                },
                None => {},
            }
            i = i + 1;
        }
        proof {
            assert(self.list@.take(i as int) == self.list@);
            if all_well_formed(self.list@) {
                lemma_closest_is_nearest(self.list@, t_min, t_max);
            }
        }
        best
    }
}

/// Whether `result` is the nearest crossing of `surfaces` in the interval.
/// If no surface alone reports a crossing, `result` is nothing. Otherwise it
/// is a crossing of the surface it names, no surface has a crossing below
/// it, and every surface before the named one has its crossing strictly
/// above it: of equal crossings the first in the list wins.
pub open spec fn is_nearest<T: Hitable>(
    surfaces: Seq<T>,
    t_min: Scalar,
    t_max: Scalar,
    result: Option<(int, Scalar)>,
) -> bool {
    match result {
        None => forall|i: int|
            0 <= i < surfaces.len() ==> (#[trigger] surfaces[i]).spec_hit(t_min, t_max) is None,
        Some((k, t)) => {
            &&& 0 <= k < surfaces.len()
            &&& surfaces[k].spec_hit(t_min, t_max) == Some(t)
            &&& strictly_inside(t, t_min, t_max)
            &&& forall|i: int|
                0 <= i < surfaces.len() ==> ((#[trigger] surfaces[i]).spec_hit(t_min, t_max)
                    matches Some(u) ==> !u@.lt(t@) && (i < k ==> t@.lt(u@)))
        },
    }
}

/// Whether every surface of the list is well formed.
pub open spec fn all_well_formed<T: Hitable>(surfaces: Seq<T>) -> bool {
    forall|i: int| 0 <= i < surfaces.len() ==> (#[trigger] surfaces[i]).well_formed()
}

/// The scan finds the nearest crossing: asking each surface only for
/// crossings below the closest one yet loses nothing, whatever the order of
/// the list.
pub proof fn lemma_closest_is_nearest<T: Hitable>(surfaces: Seq<T>, t_min: Scalar, t_max: Scalar)
    requires
        all_well_formed(surfaces),
    ensures
        is_nearest(surfaces, t_min, t_max, closest(surfaces, t_min, t_max)),
    decreases surfaces.len(),
{
    if surfaces.len() > 0 {
        let earlier = surfaces.drop_last();
        let last = surfaces.last();
        let n = surfaces.len() - 1;
        let result = closest(surfaces, t_min, t_max);
        assert forall|i: int| 0 <= i < n implies #[trigger] earlier[i] == surfaces[i] by {}
        assert(all_well_formed(earlier));
        lemma_closest_is_nearest(earlier, t_min, t_max);
        assert forall|i: int| 0 <= i <= n implies ((#[trigger] surfaces[i]).spec_hit(t_min, t_max)
            matches Some(u) ==> strictly_inside(u, t_min, t_max)) by {
            surfaces[i].lemma_hit_inside(t_min, t_max);
        }
        match closest(earlier, t_min, t_max) {
            Some((k, t)) => {
                assert(earlier[k] == surfaces[k]);
                last.lemma_hit_tightened(t_min, t_max, t);
                match result {
                    Some((j, v)) => {
                        assert forall|i: int| 0 <= i <= n implies ((#[trigger] surfaces[i]).spec_hit(
                            t_min,
                            t_max,
                        ) matches Some(u) ==> !u@.lt(v@) && (i < j ==> v@.lt(u@))) by {
                            if i < n {
                                assert(earlier[i] == surfaces[i]);
                            }
                        }
                    },
                    None => {},
                }
            },
            None => {
                match result {
                    Some((j, v)) => {
                        assert forall|i: int| 0 <= i <= n implies ((#[trigger] surfaces[i]).spec_hit(
                            t_min,
                            t_max,
                        ) matches Some(u) ==> !u@.lt(v@) && (i < j ==> v@.lt(u@))) by {
                            if i < n {
                                assert(earlier[i] == surfaces[i]);
                            }
                        }
                    },
                    None => {
                        assert forall|i: int| 0 <= i <= n implies (#[trigger] surfaces[i]).spec_hit(
                            t_min,
                            t_max,
                        ) is None by {
                            if i < n {
                                assert(earlier[i] == surfaces[i]);
                            }
                        }
                    },
                }
            },
        }
    }
}

/// The order of the list does not change how near the nearest crossing is:
/// two lists of the same well-formed surfaces both find nothing, or find
/// crossings of the same value.
pub proof fn lemma_order_is_irrelevant<T: Hitable>(
    one: Seq<T>,
    other: Seq<T>,
    t_min: Scalar,
    t_max: Scalar,
)
    requires
        all_well_formed(one),
        all_well_formed(other),
        forall|i: int| 0 <= i < one.len() ==> other.contains(#[trigger] one[i]),
        forall|j: int| 0 <= j < other.len() ==> one.contains(#[trigger] other[j]),
    ensures
        closest(one, t_min, t_max) is None <==> closest(other, t_min, t_max) is None,
        closest(one, t_min, t_max) matches Some((_, t)) ==> closest(other, t_min, t_max) matches Some(
            (_, u),
        ) ==> t@ == u@,
{
    lemma_closest_is_nearest(one, t_min, t_max);
    lemma_closest_is_nearest(other, t_min, t_max);
    match closest(one, t_min, t_max) {
        Some((k, t)) => {
            assert(other.contains(one[k]));
            let j = choose|j: int| 0 <= j < other.len() && other[j] == one[k];
            assert(other[j].spec_hit(t_min, t_max) == Some(t));
        },
        None => {},
    }
    match closest(other, t_min, t_max) {
        Some((k, u)) => {
            assert(one.contains(other[k]));
            let i = choose|i: int| 0 <= i < one.len() && one[i] == other[k];
            assert(one[i].spec_hit(t_min, t_max) == Some(u));
        },
        None => {},
    }
}

/// A list with no surface, or whose surfaces all miss, has no crossing.
pub proof fn lemma_all_miss<T: Hitable>(surfaces: Seq<T>, t_min: Scalar, t_max: Scalar)
    requires
        forall|i: int|
            0 <= i < surfaces.len() ==> (#[trigger] surfaces[i]).spec_hit(t_min, t_max) is None,
    ensures
        closest(surfaces, t_min, t_max) is None,
    decreases surfaces.len(),
{
    if surfaces.len() > 0 {
        let earlier = surfaces.drop_last();
        assert forall|i: int| 0 <= i < earlier.len() implies (#[trigger] earlier[i]).spec_hit(
            t_min,
            t_max,
        ) is None by {
            assert(earlier[i] == surfaces[i]);
        }
        lemma_all_miss(earlier, t_min, t_max);
    }
}

} // verus!
