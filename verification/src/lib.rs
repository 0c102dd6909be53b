//! Exact two-dimensional computational geometry: overlap measure (area and
//! centroid) and incidence points between lines, segments, circles,
//! half-planes and polygons, computed over integer coordinates with exact
//! rational results, so that every branch and tie-break of the algorithms is
//! machine-checked.

pub mod circle;
pub mod euler;
pub mod half_plane;
pub mod line;
pub mod physics;
pub mod polygon;
pub mod rk4;
pub mod scalar;
pub mod var;

pub use crate::circle::Circle;
pub use crate::circle::OverlapClass;
pub use crate::euler::Euler;
pub use crate::half_plane::HalfPlane;
pub use crate::line::Line;
pub use crate::line::LineSegment;
pub use crate::physics::angular_to_linear2;
pub use crate::physics::angular_to_linear3;
pub use crate::physics::torque2;
pub use crate::physics::torque3;
pub use crate::physics::Point3;
pub use crate::polygon::Polygon;
pub use crate::rk4::Rk4;
pub use crate::scalar::Clump;
pub use crate::scalar::Frac;
pub use crate::scalar::Point;
pub use crate::scalar::RPoint;
pub use crate::var::Var;

use vstd::prelude::*;

verus! {

/// Point location relative to a shape.
#[derive(Clone, Copy, PartialEq, Eq, Structural, Hash, Debug)]
pub enum Location {
    Inside,
    AtEdge,
    Outside,
}

impl Location {
    /// Classify a signed distance: negative means inside (occupied side),
    /// zero means exactly on the edge, positive means outside.
    pub fn from_distance(distance: i64) -> (loc: Location)
        ensures
            loc == Location::Inside <==> distance < 0,
            loc == Location::AtEdge <==> distance == 0,
            loc == Location::Outside <==> distance > 0,
    {
        if distance < 0 {
            Location::Inside
        } else if distance == 0 {
            Location::AtEdge
        } else {
            Location::Outside
        }
    }
}

/// A shape with a finite measure: it can report its area and centroid as one
/// abstract blob.
pub trait Shape {
    /// Inputs on which the measure is defined (within coordinate bounds and
    /// free of the degeneracies the shape documents).
    spec fn clump_defined(&self) -> bool;

    /// The area and centroid of the whole shape.
    fn clump(&self) -> (c: Clump)
        requires
            self.clump_defined(),
    ;
}

/// Symmetric pairwise intersection: a type intersects another when the other
/// reciprocally intersects it; the output is a measure (a clump) for
/// area-type pairs and a point for incidence-type pairs.
pub trait Intersect<T> {
    type Output;

    /// Inputs on which the intersection may be asked for (coordinate bounds).
    spec fn can_intersect(&self, other: &T) -> bool;

    /// The intersection of the two shapes, `None` when they share no point.
    fn intersect(&self, other: &T) -> (r: Option<Self::Output>)
        requires
            self.can_intersect(other),
    ;
}

} // verus!
