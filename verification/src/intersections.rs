//! Scalar intersection predicates: the reference semantics that the wide
//! kernels must match lane for lane.
//!
//! Each predicate is a pattern of IEEE comparisons over attribute values.
//! The comparisons, and for rays the whole slab classification (per-axis
//! interval, total-order reduction, three-way branch), are verified here on
//! bit patterns.  The arithmetic that feeds some of them -- squared
//! distances for spheres, per-axis offsets for box/sphere, the slab
//! divisions for rays -- is single-precision arithmetic done by the caller,
//! whose results enter here as values.

use vstd::prelude::*;

use crate::float_bits::NEG_INF_BITS;
use crate::float_bits::NEG_ONE_BITS;
use crate::float_bits::POS_INF_BITS;
use crate::float_bits::POS_ZERO_BITS;
use crate::float_bits::ge_bits;
use crate::float_bits::gt_bits;
use crate::float_bits::ieee_ge;
use crate::float_bits::ieee_gt;
use crate::float_bits::ieee_le;
use crate::float_bits::ieee_lt;
use crate::float_bits::is_nan;
use crate::float_bits::key_of;
use crate::float_bits::le_bits;
use crate::float_bits::lemma_le_refl;
use crate::float_bits::lemma_le_trans;
use crate::float_bits::max_bits;
use crate::float_bits::max_of_bits;
use crate::float_bits::min_bits;
use crate::float_bits::min_of_bits;
use crate::float_bits::ord_key;
use crate::float_bits::total_lt;
use crate::shapes::Aabb;

verus! {

/// The boxes overlap on every axis, intervals closed: touching counts.
pub open spec fn spec_aabb_aabb(a: Aabb, b: Aabb) -> bool {
    ieee_le(a.min_x, b.max_x) && ieee_le(a.min_y, b.max_y) && ieee_le(a.min_z, b.max_z) && ieee_le(
        b.min_x,
        a.max_x,
    ) && ieee_le(b.min_y, a.max_y) && ieee_le(b.min_z, a.max_z)
}

/// The point lies within the box on every axis, faces included.
pub open spec fn spec_aabb_point(aabb: Aabb, px: u32, py: u32, pz: u32) -> bool {
    ieee_le(aabb.min_x, px) && ieee_le(aabb.min_y, py) && ieee_le(aabb.min_z, pz) && ieee_ge(
        aabb.max_x,
        px,
    ) && ieee_ge(aabb.max_y, py) && ieee_ge(aabb.max_z, pz)
}

/// The symmetric box/sphere bounding check, given per axis the magnitude of
/// the min-relative center offset and the allowed extent (side length plus
/// radius).
pub open spec fn spec_aabb_sphere_within(
    off_x: u32,
    off_y: u32,
    off_z: u32,
    ext_x: u32,
    ext_y: u32,
    ext_z: u32,
) -> bool {
    ieee_le(off_x, ext_x) && ieee_le(off_y, ext_y) && ieee_le(off_z, ext_z)
}

/// The squared center distance is within the squared radius bound.
pub open spec fn spec_within_radius(dist_sq: u32, radius_sq: u32) -> bool {
    ieee_le(dist_sq, radius_sq)
}

/// Total-order maximum of two bit patterns (on equal keys the patterns
/// are equal, so either pick is the same).
pub open spec fn ford_max(a: u32, b: u32) -> u32 {
    if total_lt(a, b) {
        b
    } else {
        a
    }
}

/// Total-order minimum of two bit patterns.
pub open spec fn ford_min(a: u32, b: u32) -> u32 {
    if total_lt(b, a) {
        b
    } else {
        a
    }
}

/// Entry bound of the slab interval: the greatest, in the total order, of
/// the per-axis NaN-ignoring minima.
pub open spec fn spec_slab_t_min(
    t1x: u32,
    t1y: u32,
    t1z: u32,
    t2x: u32,
    t2y: u32,
    t2z: u32,
) -> u32 {
    ford_max(ford_max(min_bits(t1x, t2x), min_bits(t1y, t2y)), min_bits(t1z, t2z))
}

/// Exit bound of the slab interval: the least, in the total order, of the
/// per-axis NaN-ignoring maxima.
pub open spec fn spec_slab_t_max(
    t1x: u32,
    t1y: u32,
    t1z: u32,
    t2x: u32,
    t2y: u32,
    t2z: u32,
) -> u32 {
    ford_min(ford_min(max_bits(t1x, t2x), max_bits(t1y, t2y)), max_bits(t1z, t2z))
}

/// The slab classification: given the two per-axis boundary times, the
/// intersection time of the ray with the box.  Empty interval: no
/// intersection, `-1.0`.  Entry time positive: the entry time.  Otherwise
/// a positive exit time (origin inside, or exit still ahead): the exit
/// time.  Otherwise the whole interval is behind the origin: `-1.0`.
pub open spec fn spec_slab_time(
    t1x: u32,
    t1y: u32,
    t1z: u32,
    t2x: u32,
    t2y: u32,
    t2z: u32,
) -> u32 {
    let t_min = spec_slab_t_min(t1x, t1y, t1z, t2x, t2y, t2z);
    let t_max = spec_slab_t_max(t1x, t1y, t1z, t2x, t2y, t2z);
    if ieee_le(t_min, t_max) {
        if ieee_gt(t_min, POS_ZERO_BITS) {
            t_min
        } else if ieee_gt(t_max, POS_ZERO_BITS) {
            t_max
        } else {
            NEG_ONE_BITS
        }
    } else {
        NEG_ONE_BITS
    }
}

/// Box against box, closed intervals on every axis.
pub fn aabb_aabb(a: &Aabb, b: &Aabb) -> (r: bool)
    ensures
        r == spec_aabb_aabb(*a, *b),
{
    le_bits(a.min_x, b.max_x) && le_bits(a.min_y, b.max_y) && le_bits(a.min_z, b.max_z) && le_bits(
        b.min_x,
        a.max_x,
    ) && le_bits(b.min_y, a.max_y) && le_bits(b.min_z, a.max_z)
}

/// Box against point (x, y, z), faces included.
pub fn aabb_point(aabb: &Aabb, point: [u32; 3]) -> (r: bool)
    ensures
        r == spec_aabb_point(*aabb, point[0], point[1], point[2]),
{
    le_bits(aabb.min_x, point[0]) && le_bits(aabb.min_y, point[1]) && le_bits(aabb.min_z, point[2])
        && ge_bits(aabb.max_x, point[0]) && ge_bits(aabb.max_y, point[1]) && ge_bits(
        aabb.max_z,
        point[2],
    )
}

/// Box against sphere, given per axis the magnitude of the sphere center's
/// min-relative offset and the allowed extent (side length plus radius).
/// This is the approximate symmetric bounding check, not an exact
/// nearest-point distance test.
pub fn aabb_sphere_within(offset: [u32; 3], extent: [u32; 3]) -> (r: bool)
    ensures
        r == spec_aabb_sphere_within(
            offset[0],
            offset[1],
            offset[2],
            extent[0],
            extent[1],
            extent[2],
        ),
{
    le_bits(offset[0], extent[0]) && le_bits(offset[1], extent[1]) && le_bits(offset[2], extent[2])
}

/// Sphere against sphere or sphere against point: squared center distance
/// within the squared radius bound.
pub fn within_radius(dist_sq: u32, radius_sq: u32) -> (r: bool)
    ensures
        r == spec_within_radius(dist_sq, radius_sq),
{
    le_bits(dist_sq, radius_sq)
}

/// Total-order maximum of two bit patterns.
pub fn ford_max_of(a: u32, b: u32) -> (r: u32)
    ensures
        r == ford_max(a, b),
{
    if key_of(a) >= key_of(b) {
        a
    } else {
        b
    }
}

/// Total-order minimum of two bit patterns.
pub fn ford_min_of(a: u32, b: u32) -> (r: u32)
    ensures
        r == ford_min(a, b),
{
    if key_of(a) <= key_of(b) {
        a
    } else {
        b
    }
}

/// Ray against box, slab method, given the two per-axis boundary times
/// `t1` and `t2` (each `(bound - origin) / direction`, computed by the
/// caller; axis-parallel rays bring infinities, a zero-width axis over a
/// zero direction brings NaN).  Returns the intersection time, `-1.0` for
/// none.
pub fn slab_time(t1: [u32; 3], t2: [u32; 3]) -> (r: u32)
    ensures
        r == spec_slab_time(t1[0], t1[1], t1[2], t2[0], t2[1], t2[2]),
{
    let lo_x = min_of_bits(t1[0], t2[0]);
    let lo_y = min_of_bits(t1[1], t2[1]);
    let lo_z = min_of_bits(t1[2], t2[2]);
    let hi_x = max_of_bits(t1[0], t2[0]);
    let hi_y = max_of_bits(t1[1], t2[1]);
    let hi_z = max_of_bits(t1[2], t2[2]);
    let t_min = ford_max_of(ford_max_of(lo_x, lo_y), lo_z);
    let t_max = ford_min_of(ford_min_of(hi_x, hi_y), hi_z);
    if le_bits(t_min, t_max) {
        if gt_bits(t_min, POS_ZERO_BITS) {
            t_min
        } else if gt_bits(t_max, POS_ZERO_BITS) {
            t_max
        } else {
            NEG_ONE_BITS
        }
    } else {
        NEG_ONE_BITS
    }
}

/// Whether a slab classification time means a hit: the time is at or ahead
/// of the origin.
pub fn ray_hits(time: u32) -> (r: bool)
    ensures
        r == ieee_ge(time, POS_ZERO_BITS),
{
    ge_bits(time, POS_ZERO_BITS)
}

/// Box/box intersection is symmetric: the two closed-interval tests read
/// the same six comparisons in either order.
pub proof fn lemma_aabb_aabb_symmetric(a: Aabb, b: Aabb)
    ensures
        spec_aabb_aabb(a, b) == spec_aabb_aabb(b, a),
{
}

/// A ray whose slab interval starts at or behind the origin and ends
/// strictly ahead of it -- in particular one whose origin lies strictly
/// inside the box, with any non-zero direction -- gets the exit time
/// `t_max`, not the entry time, and that time is strictly positive.
/// The hypothesis reads the per-axis interval: on every axis the lower
/// boundary time is at or behind the origin and the upper one strictly
/// ahead.
pub proof fn lemma_slab_exit_when_inside(t1x: u32, t1y: u32, t1z: u32, t2x: u32, t2y: u32, t2z: u32)
    requires
        ieee_le(min_bits(t1x, t2x), POS_ZERO_BITS),
        ieee_le(min_bits(t1y, t2y), POS_ZERO_BITS),
        ieee_le(min_bits(t1z, t2z), POS_ZERO_BITS),
        ieee_gt(max_bits(t1x, t2x), POS_ZERO_BITS),
        ieee_gt(max_bits(t1y, t2y), POS_ZERO_BITS),
        ieee_gt(max_bits(t1z, t2z), POS_ZERO_BITS),
    ensures
        spec_slab_time(t1x, t1y, t1z, t2x, t2y, t2z) == spec_slab_t_max(
            t1x,
            t1y,
            t1z,
            t2x,
            t2y,
            t2z,
        ),
        ieee_gt(spec_slab_time(t1x, t1y, t1z, t2x, t2y, t2z), POS_ZERO_BITS),
{
    crate::float_bits::lemma_const_bits();
    let t_min = spec_slab_t_min(t1x, t1y, t1z, t2x, t2y, t2z);
    let t_max = spec_slab_t_max(t1x, t1y, t1z, t2x, t2y, t2z);
    crate::float_bits::lemma_zero_key(t_max);
    crate::float_bits::lemma_zero_key(t_min);
    assert(ord_key(t_min) <= 0x8000_0000u32);
    assert(ord_key(t_max) > 0x8000_0000u32);
}

/// The classification is two-valued in kind: it returns either the miss
/// sentinel `-1.0` or a strictly positive time, so "the time is at or
/// ahead of the origin" (the boolean form) coincides with "the time is
/// not the sentinel".
pub proof fn lemma_slab_time_classified(
    t1x: u32,
    t1y: u32,
    t1z: u32,
    t2x: u32,
    t2y: u32,
    t2z: u32,
)
    ensures
        spec_slab_time(t1x, t1y, t1z, t2x, t2y, t2z) == NEG_ONE_BITS || ieee_gt(
            spec_slab_time(t1x, t1y, t1z, t2x, t2y, t2z),
            POS_ZERO_BITS,
        ),
        ieee_ge(spec_slab_time(t1x, t1y, t1z, t2x, t2y, t2z), POS_ZERO_BITS) <==> spec_slab_time(
            t1x,
            t1y,
            t1z,
            t2x,
            t2y,
            t2z,
        ) != NEG_ONE_BITS,
{
    crate::float_bits::lemma_const_bits();
    let r = spec_slab_time(t1x, t1y, t1z, t2x, t2y, t2z);
    crate::float_bits::lemma_zero_key(r);
    if r == NEG_ONE_BITS {
        assert(!ieee_ge(r, POS_ZERO_BITS));
    }
}

/// A ray whose whole slab interval lies at or behind the origin gets no
/// intersection: the classification returns `-1.0`.
pub proof fn lemma_slab_miss_when_behind(
    t1x: u32,
    t1y: u32,
    t1z: u32,
    t2x: u32,
    t2y: u32,
    t2z: u32,
)
    requires
        ieee_le(spec_slab_t_max(t1x, t1y, t1z, t2x, t2y, t2z), POS_ZERO_BITS),
    ensures
        spec_slab_time(t1x, t1y, t1z, t2x, t2y, t2z) == NEG_ONE_BITS,
{
    crate::float_bits::lemma_const_bits();
    let t_min = spec_slab_t_min(t1x, t1y, t1z, t2x, t2y, t2z);
    let t_max = spec_slab_t_max(t1x, t1y, t1z, t2x, t2y, t2z);
    crate::float_bits::lemma_zero_key(t_max);
    crate::float_bits::lemma_zero_key(t_min);
}

/// A ray parallel to an axis and outside the box's slab on that axis, on
/// the side that sends both boundary times to negative infinity, misses:
/// the classification returns `-1.0`.
pub proof fn lemma_slab_miss_parallel_below(
    t1x: u32,
    t1y: u32,
    t1z: u32,
    t2x: u32,
    t2y: u32,
    t2z: u32,
)
    requires
        (t1x == NEG_INF_BITS && t2x == NEG_INF_BITS) || (t1y == NEG_INF_BITS && t2y
            == NEG_INF_BITS) || (t1z == NEG_INF_BITS && t2z == NEG_INF_BITS),
    ensures
        spec_slab_time(t1x, t1y, t1z, t2x, t2y, t2z) == NEG_ONE_BITS,
{
    crate::float_bits::lemma_const_bits();
    let t_min = spec_slab_t_min(t1x, t1y, t1z, t2x, t2y, t2z);
    let t_max = spec_slab_t_max(t1x, t1y, t1z, t2x, t2y, t2z);
    assert(ord_key(t_max) <= 0x007F_FFFFu32);
    if is_nan(t_max) {
        assert(!ieee_le(t_min, t_max));
    } else {
        crate::float_bits::lemma_zero_key(t_max);
        assert(ieee_le(t_max, POS_ZERO_BITS));
        lemma_slab_miss_when_behind(t1x, t1y, t1z, t2x, t2y, t2z);
    }
}

/// A ray parallel to an axis and outside the box's slab on that axis, on
/// the side that sends both boundary times to positive infinity, misses
/// whenever some other axis bounds the exit below positive infinity: the
/// classification returns `-1.0`.
pub proof fn lemma_slab_miss_parallel_above(
    t1x: u32,
    t1y: u32,
    t1z: u32,
    t2x: u32,
    t2y: u32,
    t2z: u32,
)
    requires
        (t1x == POS_INF_BITS && t2x == POS_INF_BITS) || (t1y == POS_INF_BITS && t2y
            == POS_INF_BITS) || (t1z == POS_INF_BITS && t2z == POS_INF_BITS),
        ieee_lt(spec_slab_t_max(t1x, t1y, t1z, t2x, t2y, t2z), POS_INF_BITS),
    ensures
        spec_slab_time(t1x, t1y, t1z, t2x, t2y, t2z) == NEG_ONE_BITS,
{
    crate::float_bits::lemma_const_bits();
    let t_min = spec_slab_t_min(t1x, t1y, t1z, t2x, t2y, t2z);
    let t_max = spec_slab_t_max(t1x, t1y, t1z, t2x, t2y, t2z);
    assert(ord_key(t_min) >= 0xFF80_0000u32);
    if is_nan(t_min) {
        assert(!ieee_le(t_min, t_max));
    } else {
        crate::float_bits::lemma_nan_key(t_min);
        assert(ord_key(t_min) == 0xFF80_0000u32);
        crate::float_bits::lemma_zero_key(t_min);
        assert(ord_key(t_max) < ord_key(t_min));
        assert(!ieee_le(t_min, t_max));
    }
}

/// A box is well formed when no coordinate is NaN and each axis interval
/// is ordered.
pub open spec fn aabb_well_formed(a: Aabb) -> bool {
    ieee_le(a.min_x, a.max_x) && ieee_le(a.min_y, a.max_y) && ieee_le(a.min_z, a.max_z)
}

/// Two well-formed boxes sharing exactly one face (`a.max == b.min` on the
/// x axis, overlapping or touching on the others) are classified as
/// intersecting: the intervals are closed.
pub proof fn lemma_touching_boxes_intersect(a: Aabb, b: Aabb)
    requires
        aabb_well_formed(a),
        aabb_well_formed(b),
        a.max_x == b.min_x,
        ieee_le(a.min_y, b.max_y),
        ieee_le(b.min_y, a.max_y),
        ieee_le(a.min_z, b.max_z),
        ieee_le(b.min_z, a.max_z),
    ensures
        spec_aabb_aabb(a, b),
{
    lemma_le_trans(a.min_x, a.max_x, b.max_x);
    lemma_le_refl(b.min_x);
}

/// A point lying exactly on a well-formed box's min-x face, within the
/// box on the other axes, is classified as inside.
pub proof fn lemma_point_on_face_inside(a: Aabb, px: u32, py: u32, pz: u32)
    requires
        aabb_well_formed(a),
        px == a.min_x,
        ieee_le(a.min_y, py),
        ieee_le(py, a.max_y),
        ieee_le(a.min_z, pz),
        ieee_le(pz, a.max_z),
    ensures
        spec_aabb_point(a, px, py, pz),
{
    lemma_le_refl(a.min_x);
}

} // verus!
