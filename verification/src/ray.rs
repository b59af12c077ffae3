//! Ray value type: an origin and a direction, six attribute values in the
//! fixed column order origin-x, y, z, direction-x, y, z.

use vstd::prelude::*;

verus! {

/// A ray, as six attribute values.
#[derive(Clone, Copy, Debug, PartialEq)]
pub struct Ray {
    pub origin_x: u32,
    pub origin_y: u32,
    pub origin_z: u32,
    pub direction_x: u32,
    pub direction_y: u32,
    pub direction_z: u32,
}

impl Ray {
    /// Builds a ray from its origin and direction, each x, y, z.
    pub fn new(origin: [u32; 3], direction: [u32; 3]) -> (r: Ray)
        ensures
            r.origin_x == origin[0] && r.origin_y == origin[1] && r.origin_z == origin[2],
            r.direction_x == direction[0] && r.direction_y == direction[1] && r.direction_z
                == direction[2],
    {
        Ray {
            origin_x: origin[0],
            origin_y: origin[1],
            origin_z: origin[2],
            direction_x: direction[0],
            direction_y: direction[1],
            direction_z: direction[2],
        }
    }
}

} // verus!
