use vstd::prelude::*;

verus! {

/// An integer position or offset in the block grid.
#[derive(Clone, Copy, Debug, PartialEq, Eq, Structural)]
pub struct IntVec3 {
    pub x: i32,
    pub y: i32,
    pub z: i32,
}

impl IntVec3 {
    pub fn new(x: i32, y: i32, z: i32) -> (r: IntVec3)
        ensures
            r.x == x && r.y == y && r.z == z,
    {
        IntVec3 { x, y, z }
    }

    /// Component-wise sum.
    pub fn add(self, rhs: IntVec3) -> (r: IntVec3)
        requires
            i32::MIN <= self.x + rhs.x <= i32::MAX,
            i32::MIN <= self.y + rhs.y <= i32::MAX,
            i32::MIN <= self.z + rhs.z <= i32::MAX,
        ensures
            r.x == self.x + rhs.x,
            r.y == self.y + rhs.y,
            r.z == self.z + rhs.z,
    {
        IntVec3 { x: self.x + rhs.x, y: self.y + rhs.y, z: self.z + rhs.z }
    }

    /// Every component multiplied by `rhs`.
    pub fn mul(self, rhs: i32) -> (r: IntVec3)
        requires
            i32::MIN <= self.x * rhs <= i32::MAX,
            i32::MIN <= self.y * rhs <= i32::MAX,
            i32::MIN <= self.z * rhs <= i32::MAX,
        ensures
            r.x == self.x * rhs,
            r.y == self.y * rhs,
            r.z == self.z * rhs,
    {
        IntVec3 { x: self.x * rhs, y: self.y * rhs, z: self.z * rhs }
    }
}

} // verus!
