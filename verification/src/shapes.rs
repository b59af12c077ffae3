//! Shape value types: plain attribute bundles.
//!
//! Every attribute is one single-precision value carried as its bit pattern
//! (see `float_bits`).  The attribute order is fixed and matches the column
//! order of the tables the enumerator consumes: a box is min-x, min-y,
//! min-z, max-x, max-y, max-z; a sphere is x, y, z, radius.

use vstd::prelude::*;

verus! {

/// An axis-aligned box, as six attribute values.
#[derive(Clone, Copy, Debug, PartialEq)]
pub struct Aabb {
    pub min_x: u32,
    pub min_y: u32,
    pub min_z: u32,
    pub max_x: u32,
    pub max_y: u32,
    pub max_z: u32,
}

/// A sphere, as four attribute values.
#[derive(Clone, Copy, Debug, PartialEq)]
pub struct Sphere {
    pub x: u32,
    pub y: u32,
    pub z: u32,
    pub radius: u32,
}

impl Aabb {
    /// Builds a box from its two corners, each x, y, z.
    pub fn new(min: [u32; 3], max: [u32; 3]) -> (r: Aabb)
        ensures
            r.min_x == min[0] && r.min_y == min[1] && r.min_z == min[2],
            r.max_x == max[0] && r.max_y == max[1] && r.max_z == max[2],
    {
        Aabb {
            min_x: min[0],
            min_y: min[1],
            min_z: min[2],
            max_x: max[0],
            max_y: max[1],
            max_z: max[2],
        }
    }
}

impl Sphere {
    /// Builds a sphere from its center (x, y, z) and radius.
    pub fn new(center: [u32; 3], radius: u32) -> (r: Sphere)
        ensures
            r.x == center[0] && r.y == center[1] && r.z == center[2],
            r.radius == radius,
    {
        Sphere { x: center[0], y: center[1], z: center[2], radius }
    }
}

} // verus!
