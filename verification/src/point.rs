//! Points in 3-space, with fixed-point coordinates.

use vstd::prelude::*;
use crate::fixed::iabs;
use crate::vector::Vector3;

verus! {

/// A location in space.  Coordinates are fixed-point scalars.
#[derive(Clone, Copy, PartialEq, Eq, Structural, Debug)]
pub struct Point {
    pub x: i64,
    pub y: i64,
    pub z: i64,
}

impl Point {
    /// Every coordinate has magnitude at most `m`.
    pub open spec fn in_range(self, m: int) -> bool {
        &&& iabs(self.x as int) <= m
        &&& iabs(self.y as int) <= m
        &&& iabs(self.z as int) <= m
    }

    /// The origin.
    pub fn zero() -> (r: Point)
        ensures
            r == (Point { x: 0i64, y: 0i64, z: 0i64 }),
    {
        Point { x: 0, y: 0, z: 0 }
    }

    /// The displacement from `other` to `self`.
    pub fn sub(&self, other: &Point) -> (r: Vector3)
        requires
            self.in_range(0x1000_0000_0000_0000),
            other.in_range(0x1000_0000_0000_0000),
        ensures
            r.x as int == self.x - other.x,
            r.y as int == self.y - other.y,
            r.z as int == self.z - other.z,
    {
        Vector3 { x: self.x - other.x, y: self.y - other.y, z: self.z - other.z }
    }

    /// The point reached from `self` along `v`.
    pub fn add_vec(&self, v: &Vector3) -> (r: Point)
        requires
            self.in_range(0x1000_0000_0000_0000),
            v.in_range(0x1000_0000_0000_0000),
        ensures
            r.x as int == self.x + v.x,
            r.y as int == self.y + v.y,
            r.z as int == self.z + v.z,
    {
        Point { x: self.x + v.x, y: self.y + v.y, z: self.z + v.z }
    }
}

} // verus!
