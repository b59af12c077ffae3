use lanegeom::float_bits::POS_ZERO_BITS;
use lanegeom::float_bits::ge_bits;
use lanegeom::float_bits::gt_bits;
use lanegeom::float_bits::le_bits;
use lanegeom::float_bits::lt_bits;
use lanegeom::float_bits::max_of_bits;
use lanegeom::float_bits::min_of_bits;
use lanegeom::intersections::aabb_aabb;
use lanegeom::intersections::aabb_point;
use lanegeom::intersections::aabb_sphere_within;
use lanegeom::intersections::ford_max_of;
use lanegeom::intersections::ford_min_of;
use lanegeom::intersections::ray_hits;
use lanegeom::intersections::slab_time;
use lanegeom::intersections::within_radius;
use lanegeom::shapes::Aabb;
use float_ord::FloatOrd;

fn bits3(v: [f32; 3]) -> [u32; 3] {
    [v[0].to_bits(), v[1].to_bits(), v[2].to_bits()]
}

fn aabb(min: [f32; 3], max: [f32; 3]) -> Aabb {
    Aabb::new(bits3(min), bits3(max))
}

fn distance_squared(a: [f32; 3], b: [f32; 3]) -> f32 {
    (a[0] - b[0]).powi(2) + (a[1] - b[1]).powi(2) + (a[2] - b[2]).powi(2)
}

/// Ray/box boundary times per axis, the arithmetic stage the library
/// takes as input: (bound - origin) / direction, infinities and NaNs as
/// IEEE division gives them.
fn slab_inputs(origin: [f32; 3], direction: [f32; 3], min: [f32; 3], max: [f32; 3]) -> ([u32; 3], [u32; 3]) {
    let mut t1 = [0u32; 3];
    let mut t2 = [0u32; 3];
    for i in 0..3 {
        t1[i] = ((min[i] - origin[i]) / direction[i]).to_bits();
        t2[i] = ((max[i] - origin[i]) / direction[i]).to_bits();
    }
    (t1, t2)
}

fn ray_aabb_time_f32(origin: [f32; 3], direction: [f32; 3], min: [f32; 3], max: [f32; 3]) -> f32 {
    let (t1, t2) = slab_inputs(origin, direction, min, max);
    f32::from_bits(slab_time(t1, t2))
}

#[test]
fn intersections_aabb_aabb_intersections() {
    let aabb1 = aabb([0.0, 0.0, 0.0], [1.0, 1.0, 1.0]);
    let aabb2 = aabb([0.5, 0.5, 0.5], [1.5, 1.5, 1.5]);
    assert!(aabb_aabb(&aabb1, &aabb2));
    let aabb3 = aabb([1.2, 1.2, 1.2], [2.0, 2.0, 2.0]);
    assert!(!aabb_aabb(&aabb1, &aabb3));
}

#[test]
fn aabb_point_intersections() {
    let aabb1 = aabb([0.0, 0.0, 0.0], [1.0, 1.0, 1.0]);
    assert!(aabb_point(&aabb1, bits3([0.5, 0.5, 0.5])));
    assert!(!aabb_point(&aabb1, bits3([1.5, 1.5, 1.5])));
}

fn aabb_sphere(min: [f32; 3], max: [f32; 3], center: [f32; 3], radius: f32) -> bool {
    let offset = [
        (center[0] - min[0]).abs().to_bits(),
        (center[1] - min[1]).abs().to_bits(),
        (center[2] - min[2]).abs().to_bits(),
    ];
    let extent = [
        (max[0] - min[0] + radius).to_bits(),
        (max[1] - min[1] + radius).to_bits(),
        (max[2] - min[2] + radius).to_bits(),
    ];
    aabb_sphere_within(offset, extent)
}

#[test]
fn aabb_sphere_intersections() {
    assert!(aabb_sphere([0.0, 0.0, 0.0], [1.0, 1.0, 1.0], [0.5, 0.5, 0.5], 0.5));
    assert!(!aabb_sphere([0.0, 0.0, 0.0], [1.0, 1.0, 1.0], [1.6, 1.5, 1.5], 0.5));
}

fn sphere_sphere(c1: [f32; 3], r1: f32, c2: [f32; 3], r2: f32) -> bool {
    let d2 = distance_squared(c1, c2);
    let total = r1 + r2;
    within_radius(d2.to_bits(), (total * total).to_bits())
}

#[test]
fn sphere_sphere_intersections() {
    assert!(sphere_sphere([0.0, 0.0, 0.0], 0.5, [0.5, 0.5, 0.5], 0.5));
    assert!(!sphere_sphere([0.0, 0.0, 0.0], 0.5, [1.5, 1.0, 1.0], 0.5));
}

fn sphere_point(center: [f32; 3], radius: f32, point: [f32; 3]) -> bool {
    let d2 = distance_squared(center, point);
    within_radius(d2.to_bits(), (radius * radius).to_bits())
}

#[test]
fn sphere_point_intersections() {
    assert!(sphere_point([0.0, 0.0, 0.0], 1.0, [0.5, 0.5, 0.5]));
    assert!(!sphere_point([0.0, 0.0, 0.0], 1.0, [1.5, 1.5, 1.5]));
}

#[test]
fn intersections_ray_aabb_intersections() {
    let (t1, t2) = slab_inputs([0.0, -5.0, 0.0], [0.0, 1.0, 0.0], [-1.0, -1.0, -1.0], [2.0, 2.0, 2.0]);
    assert!(ray_hits(slab_time(t1, t2)));
    let (t1, t2) = slab_inputs([0.0, -5.0, 0.0], [0.0, 1.0, 0.0], [1.0, 1.0, 1.0], [2.0, 2.0, 2.0]);
    assert!(!ray_hits(slab_time(t1, t2)));
}

#[test]
fn ray_aabb_exact_times() {
    // Entry from outside: interval [4, 7] on the y axis, entry time 4.
    let t = ray_aabb_time_f32([0.0, -5.0, 0.0], [0.0, 1.0, 0.0], [-1.0, -1.0, -1.0], [2.0, 2.0, 2.0]);
    assert_eq!(t, 4.0);
    // Miss: -1.0 exactly.
    let t = ray_aabb_time_f32([0.0, -5.0, 0.0], [0.0, 1.0, 0.0], [1.0, 1.0, 1.0], [2.0, 2.0, 2.0]);
    assert_eq!(t, -1.0);
}

#[test]
fn ray_origin_inside_returns_exit_time() {
    // Origin strictly inside: interval [-1, 1] on y, the exit time 1 comes
    // back, not the entry time -1.
    let t = ray_aabb_time_f32([0.0, 0.0, 0.0], [0.0, 1.0, 0.0], [-1.0, -1.0, -1.0], [1.0, 1.0, 1.0]);
    assert_eq!(t, 1.0);
}

#[test]
fn ray_interval_behind_origin_misses() {
    // The whole interval [-6, -4] lies behind the origin.
    let t = ray_aabb_time_f32([0.0, 5.0, 0.0], [0.0, 1.0, 0.0], [-1.0, -1.0, -1.0], [1.0, 1.0, 1.0]);
    assert_eq!(t, -1.0);
}

#[test]
fn ray_parallel_outside_slab_misses() {
    // Direction parallel to y, origin outside the box on x: the x-axis
    // boundary times are infinities of one sign and the ray misses.
    let t = ray_aabb_time_f32([5.0, 0.0, 0.0], [0.0, 1.0, 0.0], [-1.0, -1.0, -1.0], [1.0, 1.0, 1.0]);
    assert_eq!(t, -1.0);
    let t = ray_aabb_time_f32([-5.0, 0.0, 0.0], [0.0, 1.0, 0.0], [-1.0, -1.0, -1.0], [1.0, 1.0, 1.0]);
    assert_eq!(t, -1.0);
}

#[test]
fn touching_boxes_intersect() {
    // Sharing exactly one face: a.max == b.min on x, touching elsewhere.
    let a = aabb([0.0, 0.0, 0.0], [1.0, 1.0, 1.0]);
    let b = aabb([1.0, 0.0, 0.0], [2.0, 1.0, 1.0]);
    assert!(aabb_aabb(&a, &b));
    assert!(aabb_aabb(&b, &a));
}

#[test]
fn point_on_face_is_inside() {
    let a = aabb([0.0, 0.0, 0.0], [1.0, 1.0, 1.0]);
    assert!(aabb_point(&a, bits3([0.0, 0.5, 0.5])));
    assert!(aabb_point(&a, bits3([1.0, 1.0, 1.0])));
}

fn specials() -> Vec<f32> {
    vec![
        0.0,
        -0.0,
        1.0,
        -1.0,
        1.5,
        -2.5,
        f32::INFINITY,
        f32::NEG_INFINITY,
        f32::NAN,
        f32::MIN_POSITIVE,
        1.0e-45,
        -1.0e-45,
        f32::MAX,
        f32::MIN,
    ]
}

#[test]
fn comparison_bits_match_ieee_operators() {
    for &a in specials().iter() {
        for &b in specials().iter() {
            assert_eq!(le_bits(a.to_bits(), b.to_bits()), a <= b, "le {a} {b}");
            assert_eq!(lt_bits(a.to_bits(), b.to_bits()), a < b, "lt {a} {b}");
            assert_eq!(ge_bits(a.to_bits(), b.to_bits()), a >= b, "ge {a} {b}");
            assert_eq!(gt_bits(a.to_bits(), b.to_bits()), a > b, "gt {a} {b}");
        }
    }
}

#[test]
fn min_max_bits_match_ieee_min_max() {
    for &a in specials().iter() {
        for &b in specials().iter() {
            if a == 0.0 && b == 0.0 {
                // IEEE 754 leaves min/max free to return either zero; the
                // library picks by the total order.
                continue;
            }
            let m = f32::from_bits(min_of_bits(a.to_bits(), b.to_bits()));
            let e = a.min(b);
            assert!(m == e || (m.is_nan() && e.is_nan()), "min {a} {b}");
            let m = f32::from_bits(max_of_bits(a.to_bits(), b.to_bits()));
            let e = a.max(b);
            assert!(m == e || (m.is_nan() && e.is_nan()), "max {a} {b}");
        }
    }
}

#[test]
fn total_order_matches_float_ord() {
    for &a in specials().iter() {
        for &b in specials().iter() {
            let expected_max = if FloatOrd(a) >= FloatOrd(b) { a } else { b };
            let expected_min = if FloatOrd(a) <= FloatOrd(b) { a } else { b };
            assert_eq!(ford_max_of(a.to_bits(), b.to_bits()), expected_max.to_bits(), "fmax {a} {b}");
            assert_eq!(ford_min_of(a.to_bits(), b.to_bits()), expected_min.to_bits(), "fmin {a} {b}");
        }
    }
}

#[test]
fn hit_classification_is_time_at_or_ahead() {
    assert!(ray_hits(0.0f32.to_bits()));
    assert!(ray_hits(4.0f32.to_bits()));
    assert!(!ray_hits((-1.0f32).to_bits()));
    assert!(!ray_hits(f32::NAN.to_bits()));
    assert_eq!(POS_ZERO_BITS, 0.0f32.to_bits());
}

#[test]
fn predicates_match_their_mirrors() {
    // Symmetry: each covered unordered pair classifies the same as its
    // mirror, for the pairwise predicates.
    let boxes = [
        aabb([0.0, 0.0, 0.0], [1.0, 1.0, 1.0]),
        aabb([0.5, 0.5, 0.5], [1.5, 1.5, 1.5]),
        aabb([1.0, 0.0, 0.0], [2.0, 1.0, 1.0]),
        aabb([1.2, 1.2, 1.2], [2.0, 2.0, 2.0]),
        aabb([-1.0, -1.0, -1.0], [2.0, 2.0, 2.0]),
    ];
    for a in boxes.iter() {
        for b in boxes.iter() {
            assert_eq!(aabb_aabb(a, b), aabb_aabb(b, a));
        }
    }
    let spheres = [
        ([0.0, 0.0, 0.0], 0.5f32),
        ([0.5, 0.5, 0.5], 0.5),
        ([1.5, 1.0, 1.0], 0.5),
        ([0.0, 2.0, 0.0], 1.0),
    ];
    for &(c1, r1) in spheres.iter() {
        for &(c2, r2) in spheres.iter() {
            assert_eq!(sphere_sphere(c1, r1, c2, r2), sphere_sphere(c2, r2, c1, r1));
        }
    }
}
