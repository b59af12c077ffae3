//! Wide kernels: lane-parallel restatements of the scalar predicates.
//!
//! A batch is a tuple of attribute columns, one `Vec<u32>` per attribute,
//! every column the same length (the lane width).  Lane `l` of every
//! column belongs to one entity pair.  Each kernel's contract states the
//! lane-for-lane agreement with the scalar predicate on the entities
//! assigned to that lane -- the equivalence the scalar form exists to
//! anchor.

use vstd::prelude::*;

use crate::intersections::aabb_aabb as scalar_aabb_aabb;
use crate::intersections::aabb_point as scalar_aabb_point;
use crate::intersections::aabb_sphere_within as scalar_aabb_sphere_within;
use crate::intersections::slab_time as scalar_slab_time;
use crate::intersections::spec_aabb_aabb;
use crate::intersections::spec_aabb_point;
use crate::intersections::spec_aabb_sphere_within;
use crate::intersections::spec_slab_time;
use crate::intersections::spec_within_radius;
use crate::intersections::within_radius as scalar_within_radius;
use crate::shapes::Aabb;

verus! {

/// The columns form a well-shaped batch: `width` attribute columns of
/// `lanes` values each.
pub open spec fn batch_wf(cols: &Vec<Vec<u32>>, width: int, lanes: int) -> bool {
    cols@.len() == width && forall|k: int| 0 <= k < width ==> (#[trigger] cols@[k])@.len() == lanes
}

/// The box held by lane `l` of a six-column batch, columns in the fixed
/// attribute order min-x, min-y, min-z, max-x, max-y, max-z.
pub open spec fn aabb_lane(cols: &Vec<Vec<u32>>, l: int) -> Aabb {
    Aabb {
        min_x: cols@[0]@[l],
        min_y: cols@[1]@[l],
        min_z: cols@[2]@[l],
        max_x: cols@[3]@[l],
        max_y: cols@[4]@[l],
        max_z: cols@[5]@[l],
    }
}

/// Box against box, lane by lane: lane `l` of the mask is exactly the
/// scalar classification of the boxes held by lane `l` of the two batches.
pub fn aabb_aabb(a: &Vec<Vec<u32>>, b: &Vec<Vec<u32>>, lanes: usize) -> (mask: Vec<bool>)
    requires
        batch_wf(a, 6, lanes as int),
        batch_wf(b, 6, lanes as int),
    ensures
        mask@.len() == lanes,
        forall|l: int|
            0 <= l < lanes ==> mask@[l] == spec_aabb_aabb(aabb_lane(a, l), aabb_lane(b, l)),
{
    let mut mask: Vec<bool> = Vec::new();
    let mut l: usize = 0;
    while l < lanes
        invariant
            batch_wf(a, 6, lanes as int),
            batch_wf(b, 6, lanes as int),
            l <= lanes,
            mask@.len() == l,
            forall|i: int|
                0 <= i < l ==> mask@[i] == spec_aabb_aabb(aabb_lane(a, i), aabb_lane(b, i)),
        decreases lanes - l,
    {
        let box_a = Aabb {
            min_x: a[0][l],
            min_y: a[1][l],
            min_z: a[2][l],
            max_x: a[3][l],
            max_y: a[4][l],
            max_z: a[5][l],
        };
        let box_b = Aabb {
            min_x: b[0][l],
            min_y: b[1][l],
            min_z: b[2][l],
            max_x: b[3][l],
            max_y: b[4][l],
            max_z: b[5][l],
        };
        mask.push(scalar_aabb_aabb(&box_a, &box_b));
        l = l + 1;
    }
    mask
}

/// Box against point, lane by lane: the box batch has six columns, the
/// point batch three (x, y, z).
pub fn aabb_point(a: &Vec<Vec<u32>>, p: &Vec<Vec<u32>>, lanes: usize) -> (mask: Vec<bool>)
    requires
        batch_wf(a, 6, lanes as int),
        batch_wf(p, 3, lanes as int),
    ensures
        mask@.len() == lanes,
        forall|l: int|
            0 <= l < lanes ==> mask@[l] == spec_aabb_point(
                aabb_lane(a, l),
                p@[0]@[l],
                p@[1]@[l],
                p@[2]@[l],
            ),
{
    let mut mask: Vec<bool> = Vec::new();
    let mut l: usize = 0;
    while l < lanes
        invariant
            batch_wf(a, 6, lanes as int),
            batch_wf(p, 3, lanes as int),
            l <= lanes,
            mask@.len() == l,
            forall|i: int|
                0 <= i < l ==> mask@[i] == spec_aabb_point(
                    aabb_lane(a, i),
                    p@[0]@[i],
                    p@[1]@[i],
                    p@[2]@[i],
                ),
        decreases lanes - l,
    {
        let box_a = Aabb {
            min_x: a[0][l],
            min_y: a[1][l],
            min_z: a[2][l],
            max_x: a[3][l],
            max_y: a[4][l],
            max_z: a[5][l],
        };
        mask.push(scalar_aabb_point(&box_a, [p[0][l], p[1][l], p[2][l]]));
        l = l + 1;
    }
    mask
}

/// Box against sphere, lane by lane, over the precomputed per-axis offset
/// magnitudes and allowed extents (three columns each).
pub fn aabb_sphere_within(offset: &Vec<Vec<u32>>, extent: &Vec<Vec<u32>>, lanes: usize) -> (mask:
    Vec<bool>)
    requires
        batch_wf(offset, 3, lanes as int),
        batch_wf(extent, 3, lanes as int),
    ensures
        mask@.len() == lanes,
        forall|l: int|
            0 <= l < lanes ==> mask@[l] == spec_aabb_sphere_within(
                offset@[0]@[l],
                offset@[1]@[l],
                offset@[2]@[l],
                extent@[0]@[l],
                extent@[1]@[l],
                extent@[2]@[l],
            ),
{
    let mut mask: Vec<bool> = Vec::new();
    let mut l: usize = 0;
    while l < lanes
        invariant
            batch_wf(offset, 3, lanes as int),
            batch_wf(extent, 3, lanes as int),
            l <= lanes,
            mask@.len() == l,
            forall|i: int|
                0 <= i < l ==> mask@[i] == spec_aabb_sphere_within(
                    offset@[0]@[i],
                    offset@[1]@[i],
                    offset@[2]@[i],
                    extent@[0]@[i],
                    extent@[1]@[i],
                    extent@[2]@[i],
                ),
        decreases lanes - l,
    {
        mask.push(
            scalar_aabb_sphere_within(
                [offset[0][l], offset[1][l], offset[2][l]],
                [extent[0][l], extent[1][l], extent[2][l]],
            ),
        );
        l = l + 1;
    }
    mask
}

/// Sphere against sphere or sphere against point, lane by lane, over one
/// column of squared center distances and one of squared radius bounds.
pub fn within_radius(dist_sq: &Vec<u32>, radius_sq: &Vec<u32>, lanes: usize) -> (mask: Vec<bool>)
    requires
        dist_sq@.len() == lanes,
        radius_sq@.len() == lanes,
    ensures
        mask@.len() == lanes,
        forall|l: int|
            0 <= l < lanes ==> mask@[l] == spec_within_radius(dist_sq@[l], radius_sq@[l]),
{
    let mut mask: Vec<bool> = Vec::new();
    let mut l: usize = 0;
    while l < lanes
        invariant
            dist_sq@.len() == lanes,
            radius_sq@.len() == lanes,
            l <= lanes,
            mask@.len() == l,
            forall|i: int|
                0 <= i < l ==> mask@[i] == spec_within_radius(dist_sq@[i], radius_sq@[i]),
        decreases lanes - l,
    {
        mask.push(scalar_within_radius(dist_sq[l], radius_sq[l]));
        l = l + 1;
    }
    mask
}

/// Ray against box, lane by lane: for each lane the same max-of-mins /
/// min-of-maxes reduction across the three axes and the same three-way
/// branch as the scalar slab classification, over the precomputed per-axis
/// boundary times (three columns each side).
pub fn slab_time(t1: &Vec<Vec<u32>>, t2: &Vec<Vec<u32>>, lanes: usize) -> (times: Vec<u32>)
    requires
        batch_wf(t1, 3, lanes as int),
        batch_wf(t2, 3, lanes as int),
    ensures
        times@.len() == lanes,
        forall|l: int|
            0 <= l < lanes ==> times@[l] == spec_slab_time(
                t1@[0]@[l],
                t1@[1]@[l],
                t1@[2]@[l],
                t2@[0]@[l],
                t2@[1]@[l],
                t2@[2]@[l],
            ),
{
    let mut times: Vec<u32> = Vec::new();
    let mut l: usize = 0;
    while l < lanes
        invariant
            batch_wf(t1, 3, lanes as int),
            batch_wf(t2, 3, lanes as int),
            l <= lanes,
            times@.len() == l,
            forall|i: int|
                0 <= i < l ==> times@[i] == spec_slab_time(
                    t1@[0]@[i],
                    t1@[1]@[i],
                    t1@[2]@[i],
                    t2@[0]@[i],
                    t2@[1]@[i],
                    t2@[2]@[i],
                ),
        decreases lanes - l,
    {
        times.push(
            scalar_slab_time([t1[0][l], t1[1][l], t1[2][l]], [t2[0][l], t2[1][l], t2[2][l]]),
        );
        l = l + 1;
    }
    times
}

} // verus!
