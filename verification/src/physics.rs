//! Rigid-body helpers: moments of force and the linear velocity induced at a
//! point by an angular velocity, in two and three dimensions, exact over
//! integer vectors.

use vstd::prelude::*;

verus! {

use crate::scalar::{cross2, lemma_mul_bound, Point, COORD_MAX};

/// A vector with three integer coordinates.
#[derive(Clone, Copy, PartialEq, Eq, Structural, Hash, Debug)]
pub struct Point3 {
    pub x: i64,
    pub y: i64,
    pub z: i64,
}

impl Point3 {
    /// Within the coordinate bounds the engine accepts.
    pub open spec fn wf(self) -> bool {
        &&& -COORD_MAX <= self.x <= COORD_MAX
        &&& -COORD_MAX <= self.y <= COORD_MAX
        &&& -COORD_MAX <= self.z <= COORD_MAX
    }

    pub fn new(x: i64, y: i64, z: i64) -> (p: Point3)
        ensures
            p.x == x,
            p.y == y,
            p.z == z,
    {
        Point3 { x, y, z }
    }
}

/// x component of the 3D cross product.
pub open spec fn cross3x(a: Point3, b: Point3) -> int {
    a.y * b.z - a.z * b.y
}

/// y component of the 3D cross product.
pub open spec fn cross3y(a: Point3, b: Point3) -> int {
    a.z * b.x - a.x * b.z
}

/// z component of the 3D cross product.
pub open spec fn cross3z(a: Point3, b: Point3) -> int {
    a.x * b.y - a.y * b.x
}

/// The moment of a force applied at `pos` (relative to the rotation axis) in
/// two dimensions: the cross product of position and force.
pub fn torque2(pos: Point, force: Point) -> (r: i64)
    requires
        pos.wf(),
        force.wf(),
    ensures
        r == cross2(pos.x as int, pos.y as int, force.x as int, force.y as int),
{
    proof {
        lemma_mul_bound(pos.x as int, force.y as int, 0x4000_0000, 0x4000_0000);
        lemma_mul_bound(pos.y as int, force.x as int, 0x4000_0000, 0x4000_0000);
    }
    let r = (pos.x as i128) * (force.y as i128) - (pos.y as i128) * (force.x as i128);
    r as i64
}

/// The moment of a force applied at `pos` in three dimensions: the torque
/// vector whose direction is the axis of rotational acceleration.
pub fn torque3(pos: Point3, force: Point3) -> (r: Point3)
    requires
        pos.wf(),
        force.wf(),
    ensures
        r.x == cross3x(pos, force),
        r.y == cross3y(pos, force),
        r.z == cross3z(pos, force),
{
    proof {
        lemma_mul_bound(pos.y as int, force.z as int, 0x4000_0000, 0x4000_0000);
        lemma_mul_bound(pos.z as int, force.y as int, 0x4000_0000, 0x4000_0000);
        lemma_mul_bound(pos.z as int, force.x as int, 0x4000_0000, 0x4000_0000);
        lemma_mul_bound(pos.x as int, force.z as int, 0x4000_0000, 0x4000_0000);
        lemma_mul_bound(pos.x as int, force.y as int, 0x4000_0000, 0x4000_0000);
        lemma_mul_bound(pos.y as int, force.x as int, 0x4000_0000, 0x4000_0000);
    }
    let x = (pos.y as i128) * (force.z as i128) - (pos.z as i128) * (force.y as i128);
    let y = (pos.z as i128) * (force.x as i128) - (pos.x as i128) * (force.z as i128);
    let z = (pos.x as i128) * (force.y as i128) - (pos.y as i128) * (force.x as i128);
    Point3 { x: x as i64, y: y as i64, z: z as i64 }
}

/// The linear velocity at `pos` of a body rotating with scalar angular
/// velocity `angular` in two dimensions: the angular velocity times the
/// perpendicular of the position.
pub fn angular_to_linear2(angular: i64, pos: Point) -> (r: Point)
    requires
        -COORD_MAX <= angular <= COORD_MAX,
        pos.wf(),
    ensures
        r.x == -(angular * pos.y),
        r.y == angular * pos.x,
{
    proof {
        lemma_mul_bound(angular as int, pos.y as int, 0x4000_0000, 0x4000_0000);
        lemma_mul_bound(angular as int, pos.x as int, 0x4000_0000, 0x4000_0000);
    }
    let x = -((angular as i128) * (pos.y as i128));
    let y = (angular as i128) * (pos.x as i128);
    Point { x: x as i64, y: y as i64 }
}

/// The linear velocity at `pos` of a body rotating with angular velocity
/// vector `angular` in three dimensions: the cross product of the angular
/// velocity with the position.
pub fn angular_to_linear3(angular: Point3, pos: Point3) -> (r: Point3)
    requires
        angular.wf(),
        pos.wf(),
    ensures
        r.x == cross3x(angular, pos),
        r.y == cross3y(angular, pos),
        r.z == cross3z(angular, pos),
{
    torque3(angular, pos)
}

} // verus!
