//! An infinite occupied region bounded by one edge. The normal is kept as an
//! integer vector and is not normalized, so every distance this type reports
//! is the true signed distance scaled by the normal's length; signs, and
//! therefore classifications, are exact.

use vstd::prelude::*;

verus! {

use crate::Location;
use crate::scalar::{dot2, lemma_mul_bound, Point};

/// Greatest magnitude the stored offset can have when it is built from
/// in-bounds points (2^61).
pub const OFFSET_MAX: i64 = 0x2000_0000_0000_0000;

/// Greatest coordinate magnitude `from_edge` accepts (2^29): the
/// unnormalized edge normal then stays within the coordinate bounds.
pub const EDGE_MAX: i64 = 0x2000_0000;

/// The occupied region `{ p : p·normal - offset <= 0 }`: the signed scaled
/// distance `p·normal - offset` is negative inside and positive outside.
#[derive(Clone, Copy, PartialEq, Eq, Structural, Debug)]
pub struct HalfPlane {
    /// Normal of the half-plane edge, pointing from occupied space to free
    /// space; an integer vector, not necessarily of unit length.
    pub normal: Point,
    /// Offset of the edge along the normal, scaled by the normal's length.
    pub offset: i64,
}

impl HalfPlane {
    pub open spec fn wf(self) -> bool {
        &&& self.normal.wf()
        &&& -OFFSET_MAX <= self.offset <= OFFSET_MAX
    }

    /// The signed scaled distance from the edge to `point`.
    pub open spec fn distance_spec(self, point: Point) -> int {
        dot2(point.x as int, point.y as int, self.normal.x as int, self.normal.y as int)
            - self.offset
    }

    /// Builds the half-plane with the given normal whose offset is the
    /// negated projection of `point` onto the normal.
    pub fn from_normal(point: Point, normal: Point) -> (r: HalfPlane)
        requires
            point.wf(),
            normal.wf(),
        ensures
            r.normal == normal,
            r.offset == -dot2(point.x as int, point.y as int, normal.x as int, normal.y as int),
            r.wf(),
    {
        let px = point.x as i128;
        let py = point.y as i128;
        let nx = normal.x as i128;
        let ny = normal.y as i128;
        proof {
            lemma_mul_bound(px as int, nx as int, 0x4000_0000, 0x4000_0000);
            lemma_mul_bound(py as int, ny as int, 0x4000_0000, 0x4000_0000);
        }
        let offset = -(px * nx + py * ny);
        HalfPlane { normal, offset: offset as i64 }
    }

    /// Builds the half-plane bounded by the edge through `a` and `b`: its
    /// normal is the perpendicular of the edge direction, so that when
    /// walking from `a` to `b` one side is occupied and the other free. The
    /// normal is left unnormalized.
    pub fn from_edge(a: Point, b: Point) -> (r: HalfPlane)
        requires
            -EDGE_MAX <= a.x <= EDGE_MAX,
            -EDGE_MAX <= a.y <= EDGE_MAX,
            -EDGE_MAX <= b.x <= EDGE_MAX,
            -EDGE_MAX <= b.y <= EDGE_MAX,
        ensures
            r.normal.x == -(b.y - a.y),
            r.normal.y == b.x - a.x,
            r.offset == -dot2(a.x as int, a.y as int, r.normal.x as int, r.normal.y as int),
            r.wf(),
    {
        let normal = Point { x: -(b.y - a.y), y: b.x - a.x };
        let ax = a.x as i128;
        let ay = a.y as i128;
        let nx = normal.x as i128;
        let ny = normal.y as i128;
        proof {
            lemma_mul_bound(ax as int, nx as int, 0x4000_0000, 0x4000_0000);
            lemma_mul_bound(ay as int, ny as int, 0x4000_0000, 0x4000_0000);
        }
        let offset = -(ax * nx + ay * ny);
        HalfPlane { normal, offset: offset as i64 }
    }

    /// The signed scaled distance from the edge to `point`: negative inside
    /// the occupied region, zero on the edge, positive outside.
    pub fn distance(&self, point: Point) -> (d: i64)
        requires
            self.wf(),
            point.wf(),
        ensures
            d == self.distance_spec(point),
    {
        let px = point.x as i128;
        let py = point.y as i128;
        let nx = self.normal.x as i128;
        let ny = self.normal.y as i128;
        proof {
            lemma_mul_bound(px as int, nx as int, 0x4000_0000, 0x4000_0000);
            lemma_mul_bound(py as int, ny as int, 0x4000_0000, 0x4000_0000);
        }
        let d = px * nx + py * ny - self.offset as i128;
        d as i64
    }

    /// Where `point` lies relative to the occupied region.
    pub fn locate(&self, point: Point) -> (loc: Location)
        requires
            self.wf(),
            point.wf(),
        ensures
            loc == Location::Inside <==> self.distance_spec(point) < 0,
            loc == Location::AtEdge <==> self.distance_spec(point) == 0,
            loc == Location::Outside <==> self.distance_spec(point) > 0,
    {
        Location::from_distance(self.distance(point))
    }
}

} // verus!
