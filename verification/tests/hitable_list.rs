use raycast::hitable::Hitable;
use raycast::hitable_list::{Hit, HitableList};
use raycast::scalar::Scalar;
use raycast::shader::{shade, Shading};
use raycast::sphere::Roots;

fn scalar(x: f32) -> Scalar {
    Scalar::from_bits(x.to_bits())
}

fn roots(near: f32, far: f32) -> Roots {
    Roots::new(scalar(1.0), scalar(1.0), scalar(near), scalar(far)).unwrap()
}

fn miss() -> Roots {
    Roots::new(scalar(1.0), scalar(-1.0), scalar(f32::NAN), scalar(f32::NAN)).unwrap()
}

fn pair(hit: Option<Hit>) -> Option<(usize, f32)> {
    hit.map(|h| (h.index, f32::from_bits(h.t.to_bits())))
}

fn full(list: Vec<Roots>) -> Option<(usize, f32)> {
    pair(HitableList { list }.hit(scalar(0.0), scalar(f32::MAX)))
}

/// The quadratic of a sphere on the z axis for the ray from the origin along
/// -z.
fn sphere_on_axis(z: f32, radius: f32) -> Roots {
    let a = 1.0f32;
    let b = z;
    let c = z * z - radius * radius;
    let discriminant = b * b - a * c;
    let root = discriminant.sqrt();
    Roots::new(scalar(a), scalar(discriminant), scalar((-b - root) / a), scalar((-b + root) / a))
        .unwrap()
}

#[test]
fn empty_list_has_no_hit() {
    assert_eq!(full(vec![]), None);
    let list: HitableList<Roots> = HitableList { list: vec![] };
    assert_eq!(pair(list.hit(scalar(f32::NEG_INFINITY), scalar(f32::INFINITY))), None);
    assert_eq!(list.list.len(), 0);
}

#[test]
fn list_of_misses_has_no_hit() {
    assert_eq!(full(vec![miss()]), None);
    assert_eq!(full(vec![miss(), roots(-3.0, -1.0), miss()]), None);
}

#[test]
fn single_surface() {
    assert_eq!(full(vec![roots(0.5, 1.5)]), Some((0, 0.5)));
}

#[test]
fn nearest_surface_wins_whatever_the_order() {
    assert_eq!(full(vec![roots(2.0, 3.0), roots(0.5, 1.5)]), Some((1, 0.5)));
    assert_eq!(full(vec![roots(0.5, 1.5), roots(2.0, 3.0)]), Some((0, 0.5)));
    assert_eq!(full(vec![roots(4.0, 5.0), roots(2.0, 3.0), roots(0.5, 1.5)]), Some((2, 0.5)));
    assert_eq!(full(vec![roots(2.0, 3.0), roots(0.5, 1.5), roots(4.0, 5.0)]), Some((1, 0.5)));
    assert_eq!(full(vec![roots(2.0, 3.0), miss(), roots(4.0, 5.0)]), Some((0, 2.0)));
}

#[test]
fn overlapping_spheres_along_one_ray() {
    // Two spheres that overlap: centres at z = -1 and z = -1.5, radius 0.5.
    let front = sphere_on_axis(-1.0, 0.5);
    let back = sphere_on_axis(-1.5, 0.5);
    assert_eq!(full(vec![front, back]), Some((0, 0.5)));
    assert_eq!(full(vec![back, front]), Some((1, 0.5)));
}

#[test]
fn first_of_equal_crossings_wins() {
    assert_eq!(full(vec![roots(1.0, 2.0), roots(1.0, 3.0)]), Some((0, 1.0)));
    assert_eq!(full(vec![miss(), roots(1.0, 2.0), roots(1.0, 3.0), roots(1.0, 1.0)]), Some((1, 1.0)));
}

#[test]
fn later_surface_is_asked_below_the_closest_yet() {
    // The second sphere's near root is behind the origin and its far root is
    // beyond the first sphere: it does not replace the first.
    assert_eq!(full(vec![roots(1.0, 2.0), roots(-1.0, 1.5)]), Some((0, 1.0)));
    // Its far root is in front of the first sphere: it does.
    assert_eq!(full(vec![roots(1.0, 2.0), roots(-1.0, 0.5)]), Some((1, 0.5)));
}

#[test]
fn interval_bounds_every_surface() {
    let list = HitableList { list: vec![roots(0.5, 1.5), roots(2.0, 3.0)] };
    assert_eq!(pair(list.hit(scalar(0.5), scalar(f32::MAX))), Some((0, 1.5)));
    assert_eq!(pair(list.hit(scalar(1.5), scalar(f32::MAX))), Some((1, 2.0)));
    assert_eq!(pair(list.hit(scalar(1.5), scalar(2.0))), None);
    assert_eq!(pair(list.hit(scalar(3.0), scalar(f32::MAX))), None);
    assert_eq!(pair(list.hit(scalar(0.0), scalar(f32::NAN))), None);
    assert_eq!(pair(list.hit(scalar(f32::NAN), scalar(f32::MAX))), None);
}

#[test]
fn list_agrees_with_the_least_of_the_single_hits() {
    let surfaces = vec![
        roots(7.0, 9.0),
        roots(-2.0, 6.5),
        miss(),
        roots(3.0, 4.0),
        roots(3.0, 8.0),
        roots(-5.0, -1.0),
        roots(2.5, 2.5),
        roots(10.0, 11.0),
    ];
    for (low, high) in [(0.0f32, f32::MAX), (2.5, 8.0), (3.0, 8.0), (6.5, 100.0), (-10.0, 0.0)] {
        let mut expected: Option<(usize, f32)> = None;
        for (i, s) in surfaces.iter().enumerate() {
            if let Some(t) = s.hit(scalar(low), scalar(high)) {
                let t = f32::from_bits(t.to_bits());
                if expected.map_or(true, |(_, best)| t < best) {
                    expected = Some((i, t));
                }
            }
        }
        let list = HitableList { list: surfaces.clone() };
        assert_eq!(pair(list.hit(scalar(low), scalar(high))), expected);
    }
}

#[test]
fn shade_of_an_empty_scene_is_the_sky() {
    let list: HitableList<Roots> = HitableList { list: vec![] };
    assert!(matches!(shade(&list), Shading::Sky));
}

#[test]
fn shade_of_a_ray_that_misses_is_the_sky() {
    // Both spheres are behind the ray.
    let list = HitableList { list: vec![sphere_on_axis(1.0, 0.5), sphere_on_axis(3.0, 1.0)] };
    assert!(matches!(shade(&list), Shading::Sky));
    let beside = HitableList { list: vec![miss(), miss()] };
    assert!(matches!(shade(&beside), Shading::Sky));
}

#[test]
fn shade_of_a_ray_that_hits_names_the_nearest_surface() {
    let list = HitableList { list: vec![sphere_on_axis(-3.0, 1.0), sphere_on_axis(-1.0, 0.5)] };
    match shade(&list) {
        Shading::Surface(hit) => {
            assert_eq!(hit.index, 1);
            assert_eq!(hit.t.to_bits(), 0.5f32.to_bits());
        }
        Shading::Sky => panic!("the ray meets both spheres"),
    }
}

#[test]
fn shade_ignores_crossings_at_or_behind_the_origin() {
    let list = HitableList { list: vec![roots(-1.0, 0.0), roots(0.0, 0.0)] };
    assert!(matches!(shade(&list), Shading::Sky));
    let from_inside = HitableList { list: vec![roots(-0.5, 0.5)] };
    match shade(&from_inside) {
        Shading::Surface(hit) => {
            assert_eq!(hit.index, 0);
            assert_eq!(hit.t.to_bits(), 0.5f32.to_bits());
        }
        Shading::Sky => panic!("the far root is ahead"),
    }
}

#[test]
fn shade_ignores_crossings_at_infinity() {
    let list = HitableList { list: vec![roots(f32::INFINITY, f32::INFINITY), roots(f32::MAX, f32::MAX)] };
    assert!(matches!(shade(&list), Shading::Sky));
}
