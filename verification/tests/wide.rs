use float_ord::FloatOrd;
use lanegeom::intersections::aabb_aabb as scalar_aabb_aabb;
use lanegeom::intersections::ray_hits;
use lanegeom::intersections::slab_time as scalar_slab_time;
use lanegeom::shapes::Aabb;
use lanegeom::utils::BatchSink;
use lanegeom::utils::LoggedSink;
use lanegeom::utils::simd_permutations;
use lanegeom::wide_intersections::aabb_aabb as wide_aabb_aabb;
use lanegeom::wide_intersections::slab_time as wide_slab_time;

const LANES: usize = 8;
const COUNT: usize = 100;

/// A small deterministic generator standing in for a random source:
/// values spread over (-2, 2).
struct Lcg {
    state: u64,
}

impl Lcg {
    fn next_f32(&mut self) -> f32 {
        self.state = self.state.wrapping_mul(6364136223846793005).wrapping_add(1442695040888963407);
        let v = (self.state >> 40) as f32 / (1u64 << 24) as f32;
        v * 4.0 - 2.0
    }
}

/// Builds a six-column table of `COUNT` entities: each attribute is the
/// base value plus a generated offset, stored as bit patterns.
fn generate_columns(rng: &mut Lcg, base: [f32; 6]) -> Vec<Vec<u32>> {
    let mut cols: Vec<Vec<u32>> = vec![Vec::new(); 6];
    for _ in 0..COUNT {
        for k in 0..6 {
            cols[k].push((base[k] + rng.next_f32()).to_bits());
        }
    }
    cols
}

fn aabb_of_lane(cols: &Vec<Vec<u32>>, l: usize) -> Aabb {
    Aabb::new(
        [cols[0][l], cols[1][l], cols[2][l]],
        [cols[3][l], cols[4][l], cols[5][l]],
    )
}

struct AabbChecker {
    has_intersection: bool,
    has_non_intersection: bool,
}

impl BatchSink<u32> for AabbChecker {
    fn accept(&mut self, a: &Vec<Vec<u32>>, b: &Vec<Vec<u32>>) {
        let r = wide_aabb_aabb(a, b, LANES);
        for l in 0..LANES {
            let i_r = scalar_aabb_aabb(&aabb_of_lane(a, l), &aabb_of_lane(b, l));
            assert_eq!(r[l], i_r, "SIMD results do not match non-SIMD results");
            if i_r {
                self.has_intersection = true;
            } else {
                self.has_non_intersection = true;
            }
        }
    }
}

#[test]
fn wide_intersections_aabb_aabb_intersections() {
    let mut rng = Lcg { state: 7 };
    let simd_aabbs = generate_columns(&mut rng, [0.0, 0.0, 0.0, 1.0, 1.0, 1.0]);

    let mut checker = LoggedSink::new(AabbChecker { has_intersection: false, has_non_intersection: false });
    simd_permutations(LANES, &simd_aabbs, &simd_aabbs, 0, true, &mut checker);

    assert!(checker.sink.has_intersection, "No intersections found");
    assert!(checker.sink.has_non_intersection, "Only intersections found");
}

/// The reference slab classification written directly over `f32`, the
/// way a caller of the total-order crate would: per-axis minima and
/// maxima, total-order reduction across the axes, three-way branch.
fn ray_aabb_time_reference(origin: [f32; 3], direction: [f32; 3], min: [f32; 3], max: [f32; 3]) -> f32 {
    let mut t1 = [0.0f32; 3];
    let mut t2 = [0.0f32; 3];
    for i in 0..3 {
        t1[i] = (min[i] - origin[i]) / direction[i];
        t2[i] = (max[i] - origin[i]) / direction[i];
    }
    let t_min = (0..3)
        .map(|i| FloatOrd(t1[i].min(t2[i])))
        .max()
        .map(|f| f.0)
        .unwrap_or(0.0);
    let t_max = (0..3)
        .map(|i| FloatOrd(t1[i].max(t2[i])))
        .min()
        .map(|f| f.0)
        .unwrap_or(0.0);
    if t_min <= t_max {
        if t_min > 0.0 {
            t_min
        } else if t_max > 0.0 {
            t_max
        } else {
            -1.0
        }
    } else {
        -1.0
    }
}

struct RayChecker {
    has_intersection: bool,
    has_non_intersection: bool,
}

impl BatchSink<u32> for RayChecker {
    fn accept(&mut self, rays: &Vec<Vec<u32>>, aabbs: &Vec<Vec<u32>>) {
        // The arithmetic stage: per-axis boundary times for every lane.
        let mut t1: Vec<Vec<u32>> = vec![Vec::new(); 3];
        let mut t2: Vec<Vec<u32>> = vec![Vec::new(); 3];
        for l in 0..LANES {
            for i in 0..3 {
                let origin = f32::from_bits(rays[i][l]);
                let direction = f32::from_bits(rays[3 + i][l]);
                let bmin = f32::from_bits(aabbs[i][l]);
                let bmax = f32::from_bits(aabbs[3 + i][l]);
                t1[i].push(((bmin - origin) / direction).to_bits());
                t2[i].push(((bmax - origin) / direction).to_bits());
            }
        }
        let r = wide_slab_time(&t1, &t2, LANES);
        for l in 0..LANES {
            let scalar = scalar_slab_time(
                [t1[0][l], t1[1][l], t1[2][l]],
                [t2[0][l], t2[1][l], t2[2][l]],
            );
            assert_eq!(r[l], scalar, "SIMD results do not match non-SIMD results");
            let reference = ray_aabb_time_reference(
                [
                    f32::from_bits(rays[0][l]),
                    f32::from_bits(rays[1][l]),
                    f32::from_bits(rays[2][l]),
                ],
                [
                    f32::from_bits(rays[3][l]),
                    f32::from_bits(rays[4][l]),
                    f32::from_bits(rays[5][l]),
                ],
                [
                    f32::from_bits(aabbs[0][l]),
                    f32::from_bits(aabbs[1][l]),
                    f32::from_bits(aabbs[2][l]),
                ],
                [
                    f32::from_bits(aabbs[3][l]),
                    f32::from_bits(aabbs[4][l]),
                    f32::from_bits(aabbs[5][l]),
                ],
            );
            let wide = f32::from_bits(r[l]);
            assert!(
                wide == reference || (wide.is_nan() && reference.is_nan()),
                "wide {wide} differs from reference {reference}"
            );
            if ray_hits(r[l]) {
                self.has_intersection = true;
            } else {
                self.has_non_intersection = true;
            }
        }
    }
}

#[test]
fn wide_intersections_ray_aabb_intersections() {
    let mut rng = Lcg { state: 11 };
    let aabbs = generate_columns(&mut rng, [0.0, 0.0, 0.0, 1.0, 1.0, 1.0]);
    let rays = generate_columns(&mut rng, [0.0, 0.0, 0.0, 1.0, 1.0, 1.0]);

    let mut checker = LoggedSink::new(RayChecker { has_intersection: false, has_non_intersection: false });
    simd_permutations(LANES, &rays, &aabbs, 0, false, &mut checker);

    assert!(checker.sink.has_intersection, "No intersections found");
    assert!(checker.sink.has_non_intersection, "Only intersections found");
}
