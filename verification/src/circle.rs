//! Circles with integer center and radius. The three overlap regimes against
//! another circle or a half-plane (disjoint, partial overlap, full
//! containment) are classified exactly by comparing squared distances, so
//! every boundary-tangent configuration lands in the regime the formulas
//! call for.

use vstd::prelude::*;

verus! {

use crate::Location;
use crate::half_plane::HalfPlane;
use crate::scalar::{dot2, lemma_mul_bound, lemma_mul_comm, lemma_mul_distrib,
    lemma_mul_distrib_left, lemma_mul_four, lemma_neg_mul, Point, COORD_MAX};

/// The overlap regime of a pair of regions.
#[derive(Clone, Copy, PartialEq, Eq, Structural, Hash, Debug)]
pub enum OverlapClass {
    /// The regions share no point: the intersection is empty.
    Disjoint,
    /// The regions overlap partially: the intersection is bounded by a chord
    /// segment (or, for two circles, by two of them, a lens).
    Partial,
    /// One region lies entirely within the other: the intersection is the
    /// smaller region whole.
    Full,
}

#[derive(Clone, Copy, PartialEq, Eq, Structural, Debug)]
pub struct Circle {
    pub center: Point,
    pub radius: i64,
}

impl Circle {
    pub open spec fn wf(self) -> bool {
        &&& self.center.wf()
        &&& 0 <= self.radius <= COORD_MAX
    }

    /// The squared distance from the center to `point`.
    pub open spec fn dist2_spec(self, point: Point) -> int {
        let vx = self.center.x - point.x;
        let vy = self.center.y - point.y;
        dot2(vx, vy, vx, vy)
    }

    /// Whether `point` lies in the closed disk.
    pub fn is_inside(&self, point: Point) -> (r: bool)
        requires
            self.wf(),
            point.wf(),
        ensures
            r == (self.dist2_spec(point) <= self.radius * self.radius),
    {
        let vx = self.center.x as i128 - point.x as i128;
        let vy = self.center.y as i128 - point.y as i128;
        let rad = self.radius as i128;
        proof {
            lemma_mul_bound(vx as int, vx as int, 0x8000_0000, 0x8000_0000);
            lemma_mul_bound(vy as int, vy as int, 0x8000_0000, 0x8000_0000);
            lemma_mul_bound(rad as int, rad as int, 0x4000_0000, 0x4000_0000);
        }
        vx * vx + vy * vy <= rad * rad
    }

    /// Where `point` lies relative to the circle's boundary.
    pub fn locate(&self, point: Point) -> (loc: Location)
        requires
            self.wf(),
            point.wf(),
        ensures
            loc == Location::Inside <==> self.dist2_spec(point) < self.radius * self.radius,
            loc == Location::AtEdge <==> self.dist2_spec(point) == self.radius * self.radius,
            loc == Location::Outside <==> self.dist2_spec(point) > self.radius * self.radius,
    {
        let vx = self.center.x as i128 - point.x as i128;
        let vy = self.center.y as i128 - point.y as i128;
        let rad = self.radius as i128;
        proof {
            lemma_mul_bound(vx as int, vx as int, 0x8000_0000, 0x8000_0000);
            lemma_mul_bound(vy as int, vy as int, 0x8000_0000, 0x8000_0000);
            lemma_mul_bound(rad as int, rad as int, 0x4000_0000, 0x4000_0000);
        }
        let d2 = vx * vx + vy * vy;
        let r2 = rad * rad;
        if d2 < r2 {
            Location::Inside
        } else if d2 == r2 {
            Location::AtEdge
        } else {
            Location::Outside
        }
    }

    /// The overlap regime of two circles: disjoint when the center distance
    /// is at least the radius sum, full containment when it is at most the
    /// radius difference, partial overlap (a lens) in between.
    pub fn overlap_class(&self, other: &Circle) -> (c: OverlapClass)
        requires
            self.wf(),
            other.wf(),
        ensures
            ({
                let d2 = self.dist2_spec(other.center);
                let sum = self.radius + other.radius;
                let dif = self.radius - other.radius;
                &&& (c == OverlapClass::Disjoint <==> d2 >= sum * sum)
                &&& (c == OverlapClass::Partial <==> dif * dif < d2 < sum * sum)
                &&& (c == OverlapClass::Full <==> d2 <= dif * dif && d2 < sum * sum)
            }),
    {
        let vx = self.center.x as i128 - other.center.x as i128;
        let vy = self.center.y as i128 - other.center.y as i128;
        let sum = self.radius as i128 + other.radius as i128;
        let dif = self.radius as i128 - other.radius as i128;
        proof {
            lemma_mul_bound(vx as int, vx as int, 0x8000_0000, 0x8000_0000);
            lemma_mul_bound(vy as int, vy as int, 0x8000_0000, 0x8000_0000);
            lemma_mul_bound(sum as int, sum as int, 0x8000_0000, 0x8000_0000);
            lemma_mul_bound(dif as int, dif as int, 0x8000_0000, 0x8000_0000);
        }
        let d2 = vx * vx + vy * vy;
        if d2 < sum * sum {
            if d2 > dif * dif {
                OverlapClass::Partial
            } else {
                OverlapClass::Full
            }
        } else {
            OverlapClass::Disjoint
        }
    }

    /// The overlap regime of this circle against a half-plane; the mirror of
    /// `HalfPlane::circle_overlap_class`.
    pub fn halfplane_overlap_class(&self, plane: &HalfPlane) -> (c: OverlapClass)
        requires
            self.wf(),
            plane.wf(),
        ensures
            c == circle_plane_class(*plane, *self),
    {
        plane.circle_overlap_class(self)
    }
}

/// The overlap regime of a circle against a half-plane, over the scaled
/// distance `d` from the edge to the center: disjoint when `d >= radius`,
/// full containment when `d <= -radius`, a chord segment in between (all
/// compared at the normal-length scale, by squares and signs).
pub open spec fn circle_plane_class(plane: HalfPlane, circle: Circle) -> OverlapClass {
    let d = plane.distance_spec(circle.center);
    let nn = dot2(plane.normal.x as int, plane.normal.y as int, plane.normal.x as int,
        plane.normal.y as int);
    let rr = circle.radius * circle.radius;
    if d >= 0 && d * d >= rr * nn {
        OverlapClass::Disjoint
    } else if d <= 0 && d * d >= rr * nn {
        OverlapClass::Full
    } else {
        OverlapClass::Partial
    }
}

/// A product of nonnegative integers is nonnegative.
proof fn lemma_mul_nonneg(a: int, b: int)
    by (nonlinear_arith)
    requires
        a >= 0,
        b >= 0,
    ensures
        a * b >= 0,
{
}

/// Bounds multiply: products of nonnegative values respect both bounds.
proof fn lemma_mul_mono(a: int, b: int, c: int, d: int)
    by (nonlinear_arith)
    requires
        0 <= a <= b,
        0 <= c <= d,
    ensures
        a * c <= b * d,
{
}

/// Comparing squares of nonnegative integers compares the integers.
proof fn lemma_sq_le(a: int, b: int)
    by (nonlinear_arith)
    requires
        a >= 0,
        b >= 0,
        a * a <= b * b,
    ensures
        a <= b,
{
}

/// The square of a two-term sum, and of a two-term difference.
proof fn lemma_sq_sum(a: int, b: int)
    by (nonlinear_arith)
    ensures
        (a + b) * (a + b) == a * a + 2 * (a * b) + b * b,
        (a - b) * (a - b) == a * a - 2 * (a * b) + b * b,
{
}

/// The Lagrange identity in the plane: the product of two squared lengths is
/// the squared dot product plus the squared cross product.
proof fn lemma_lagrange(ux: int, uy: int, vx: int, vy: int)
    ensures
        (ux * ux + uy * uy) * (vx * vx + vy * vy) == (ux * vx + uy * vy) * (ux * vx + uy * vy)
            + (ux * vy - uy * vx) * (ux * vy - uy * vx),
{
    let vv = vx * vx + vy * vy;
    // expand the left side into the four monomial products
    assert((ux * ux + uy * uy) * vv == (ux * ux) * vv + (uy * uy) * vv) by {
        lemma_mul_distrib(ux * ux, uy * uy, vv);
    }
    assert((ux * ux) * vv == (ux * ux) * (vx * vx) + (ux * ux) * (vy * vy)) by {
        lemma_mul_distrib_left(ux * ux, vx * vx, vy * vy);
    }
    assert((uy * uy) * vv == (uy * uy) * (vx * vx) + (uy * uy) * (vy * vy)) by {
        lemma_mul_distrib_left(uy * uy, vx * vx, vy * vy);
    }
    // expand the two squares on the right side
    lemma_sq_sum(ux * vx, uy * vy);
    lemma_sq_sum(ux * vy, uy * vx);
    // regroup each monomial crosswise
    assert((ux * vx) * (ux * vx) == (ux * ux) * (vx * vx)) by {
        lemma_mul_four(ux, vx, ux, vx);
    }
    assert((uy * vy) * (uy * vy) == (uy * uy) * (vy * vy)) by {
        lemma_mul_four(uy, vy, uy, vy);
    }
    assert((ux * vy) * (ux * vy) == (ux * ux) * (vy * vy)) by {
        lemma_mul_four(ux, vy, ux, vy);
    }
    assert((uy * vx) * (uy * vx) == (uy * uy) * (vx * vx)) by {
        lemma_mul_four(uy, vx, uy, vx);
    }
    // the mixed terms of the two squares are the same product
    assert((ux * vx) * (uy * vy) == (ux * uy) * (vx * vy)) by {
        lemma_mul_four(ux, vx, uy, vy);
    }
    assert((ux * vy) * (uy * vx) == (ux * uy) * (vy * vx)) by {
        lemma_mul_four(ux, vy, uy, vx);
    }
    assert((ux * uy) * (vy * vx) == (ux * uy) * (vx * vy)) by {
        lemma_mul_comm(vy, vx);
    }
}

/// The triangle inequality for squared lengths of integer vectors: a sum of
/// two vectors bounded by `a` and `b` is bounded by `a + b`.
proof fn lemma_triangle_sq(ux: int, uy: int, vx: int, vy: int, a: int, b: int)
    requires
        a >= 0,
        b >= 0,
        ux * ux + uy * uy <= a * a,
        vx * vx + vy * vy <= b * b,
    ensures
        (ux + vx) * (ux + vx) + (uy + vy) * (uy + vy) <= (a + b) * (a + b),
{
    let uu = ux * ux + uy * uy;
    let vv = vx * vx + vy * vy;
    let uv = ux * vx + uy * vy;
    assert((ux + vx) * (ux + vx) == ux * ux + 2 * (ux * vx) + vx * vx) by (nonlinear_arith);
    assert((uy + vy) * (uy + vy) == uy * uy + 2 * (uy * vy) + vy * vy) by (nonlinear_arith);
    assert((a + b) * (a + b) == a * a + 2 * (a * b) + b * b) by (nonlinear_arith);
    if uv <= 0 {
        lemma_mul_nonneg(a, b);
    } else {
        lemma_lagrange(ux, uy, vx, vy);
        lemma_sq_nonneg(ux * vy - uy * vx);
        assert(uv * uv <= uu * vv);
        assert(uu >= 0 && vv >= 0) by {
            lemma_sq_nonneg(ux);
            lemma_sq_nonneg(uy);
            lemma_sq_nonneg(vx);
            lemma_sq_nonneg(vy);
        }
        lemma_mul_mono(uu, a * a, vv, b * b);
        assert((a * a) * (b * b) == (a * b) * (a * b)) by (nonlinear_arith);
        lemma_mul_nonneg(a, b);
        lemma_sq_le(uv, a * b);
    }
}

/// The square of an integer is never negative.
proof fn lemma_sq_nonneg(x: int)
    by (nonlinear_arith)
    ensures
        x * x >= 0,
{
}

/// Law: a point lying in two circles forces their centers within the radius
/// sum. So circles whose squared center distance exceeds the squared radius
/// sum (classified `Disjoint`, apart from the single tangency point at exact
/// equality) share no point.
pub proof fn lemma_common_point_bounds_distance(c1: Circle, c2: Circle, p: Point)
    requires
        c1.radius >= 0,
        c2.radius >= 0,
        c1.dist2_spec(p) <= c1.radius * c1.radius,
        c2.dist2_spec(p) <= c2.radius * c2.radius,
    ensures
        c1.dist2_spec(c2.center) <= (c1.radius + c2.radius) * (c1.radius + c2.radius),
{
    let ux = p.x - c1.center.x;
    let uy = p.y - c1.center.y;
    let vx = c2.center.x - p.x;
    let vy = c2.center.y - p.y;
    assert(c1.dist2_spec(p) == ux * ux + uy * uy) by (nonlinear_arith)
        requires
            c1.dist2_spec(p) == (c1.center.x - p.x) * (c1.center.x - p.x) + (c1.center.y - p.y)
                * (c1.center.y - p.y),
            ux == p.x - c1.center.x,
            uy == p.y - c1.center.y,
    ;
    assert(c2.dist2_spec(p) == vx * vx + vy * vy) by (nonlinear_arith)
        requires
            c2.dist2_spec(p) == (c2.center.x - p.x) * (c2.center.x - p.x) + (c2.center.y - p.y)
                * (c2.center.y - p.y),
            vx == c2.center.x - p.x,
            vy == c2.center.y - p.y,
    ;
    lemma_triangle_sq(ux, uy, vx, vy, c1.radius as int, c2.radius as int);
    assert(c1.dist2_spec(c2.center) == (ux + vx) * (ux + vx) + (uy + vy) * (uy + vy)) by (
    nonlinear_arith)
        requires
            c1.dist2_spec(c2.center) == (c1.center.x - c2.center.x) * (c1.center.x
                - c2.center.x) + (c1.center.y - c2.center.y) * (c1.center.y - c2.center.y),
            ux + vx == c2.center.x - c1.center.x,
            uy + vy == c2.center.y - c1.center.y,
    ;
}

/// Law: a circle classified as contained really is covered: when the center
/// distance is within the radius difference, every point of the smaller
/// circle lies in the larger one.
pub proof fn lemma_containment_covers(c1: Circle, c2: Circle, p: Point)
    requires
        0 <= c2.radius <= c1.radius,
        c1.dist2_spec(c2.center) <= (c1.radius - c2.radius) * (c1.radius - c2.radius),
        c2.dist2_spec(p) <= c2.radius * c2.radius,
    ensures
        c1.dist2_spec(p) <= c1.radius * c1.radius,
{
    let ux = c2.center.x - c1.center.x;
    let uy = c2.center.y - c1.center.y;
    let vx = p.x - c2.center.x;
    let vy = p.y - c2.center.y;
    assert(c1.dist2_spec(c2.center) == ux * ux + uy * uy) by (nonlinear_arith)
        requires
            c1.dist2_spec(c2.center) == (c1.center.x - c2.center.x) * (c1.center.x
                - c2.center.x) + (c1.center.y - c2.center.y) * (c1.center.y - c2.center.y),
            ux == c2.center.x - c1.center.x,
            uy == c2.center.y - c1.center.y,
    ;
    assert(c2.dist2_spec(p) == vx * vx + vy * vy) by (nonlinear_arith)
        requires
            c2.dist2_spec(p) == (c2.center.x - p.x) * (c2.center.x - p.x) + (c2.center.y - p.y)
                * (c2.center.y - p.y),
            vx == p.x - c2.center.x,
            vy == p.y - c2.center.y,
    ;
    lemma_triangle_sq(ux, uy, vx, vy, c1.radius - c2.radius, c2.radius as int);
    assert(c1.dist2_spec(p) == (ux + vx) * (ux + vx) + (uy + vy) * (uy + vy)) by (
    nonlinear_arith)
        requires
            c1.dist2_spec(p) == (c1.center.x - p.x) * (c1.center.x - p.x) + (c1.center.y - p.y)
                * (c1.center.y - p.y),
            ux + vx == p.x - c1.center.x,
            uy + vy == p.y - c1.center.y,
    ;
}

/// Strict square comparison bounds the magnitude.
proof fn lemma_sq_lt(x: int, d: int)
    by (nonlinear_arith)
    requires
        d > 0,
        x * x < d * d,
    ensures
        -d < x < d,
{
}

/// The projection of any point of a disk onto the plane's normal stays
/// within the radius (scaled by the normal's length, compared by squares):
/// the Cauchy-Schwarz step behind the half-plane regime laws.
proof fn lemma_disk_projection_bound(plane: HalfPlane, circle: Circle, p: Point)
    requires
        circle.radius >= 0,
        circle.dist2_spec(p) <= circle.radius * circle.radius,
    ensures
        ({
            let x = plane.distance_spec(p) - plane.distance_spec(circle.center);
            let nn = dot2(plane.normal.x as int, plane.normal.y as int, plane.normal.x as int,
                plane.normal.y as int);
            x * x <= (circle.radius * circle.radius) * nn
        }),
{
    let ux = p.x - circle.center.x;
    let uy = p.y - circle.center.y;
    let nx = plane.normal.x as int;
    let ny = plane.normal.y as int;
    let x = plane.distance_spec(p) - plane.distance_spec(circle.center);
    let nn = dot2(nx, ny, nx, ny);
    assert(x == ux * nx + uy * ny) by {
        lemma_mul_distrib(p.x as int, circle.center.x as int, nx);
        lemma_mul_distrib(p.y as int, circle.center.y as int, ny);
    }
    assert(ux * ux + uy * uy <= circle.radius * circle.radius) by (nonlinear_arith)
        requires
            circle.dist2_spec(p) == (circle.center.x - p.x) * (circle.center.x - p.x) + (
            circle.center.y - p.y) * (circle.center.y - p.y),
            circle.dist2_spec(p) <= circle.radius * circle.radius,
            ux == p.x - circle.center.x,
            uy == p.y - circle.center.y,
    ;
    lemma_lagrange(ux, uy, nx, ny);
    lemma_sq_nonneg(ux * ny - uy * nx);
    assert((ux * ux + uy * uy) * nn <= (circle.radius * circle.radius) * nn) by {
        lemma_sq_nonneg(ux);
        lemma_sq_nonneg(uy);
        lemma_sq_nonneg(nx);
        lemma_sq_nonneg(ny);
        lemma_mul_mono(ux * ux + uy * uy, circle.radius * circle.radius, nn, nn);
    }
}

/// Law: a circle classified as disjoint from a half-plane really lies on the
/// free side: when the center's scaled distance is positive and its square
/// exceeds the squared radius at the normal's scale, every point of the disk
/// has positive distance.
pub proof fn lemma_plane_disjoint_keeps_circle_out(plane: HalfPlane, circle: Circle, p: Point)
    requires
        circle.radius >= 0,
        plane.distance_spec(circle.center) > 0,
        plane.distance_spec(circle.center) * plane.distance_spec(circle.center) > (circle.radius
            * circle.radius) * dot2(plane.normal.x as int, plane.normal.y as int,
            plane.normal.x as int, plane.normal.y as int),
        circle.dist2_spec(p) <= circle.radius * circle.radius,
    ensures
        plane.distance_spec(p) > 0,
{
    let d = plane.distance_spec(circle.center);
    let x = plane.distance_spec(p) - d;
    lemma_disk_projection_bound(plane, circle, p);
    lemma_sq_lt(x, d);
}

/// Law: a circle classified as fully inside a half-plane really is covered:
/// when the center's scaled distance is negative and its square exceeds the
/// squared radius at the normal's scale, every point of the disk has
/// negative distance.
pub proof fn lemma_plane_full_keeps_circle_in(plane: HalfPlane, circle: Circle, p: Point)
    requires
        circle.radius >= 0,
        plane.distance_spec(circle.center) < 0,
        plane.distance_spec(circle.center) * plane.distance_spec(circle.center) > (circle.radius
            * circle.radius) * dot2(plane.normal.x as int, plane.normal.y as int,
            plane.normal.x as int, plane.normal.y as int),
        circle.dist2_spec(p) <= circle.radius * circle.radius,
    ensures
        plane.distance_spec(p) < 0,
{
    let d = plane.distance_spec(circle.center);
    let x = plane.distance_spec(p) - d;
    lemma_disk_projection_bound(plane, circle, p);
    assert(x * x < (-d) * (-d)) by {
        lemma_neg_mul(d, d);
        lemma_neg_mul(d, -d);
        assert((-d) * (-d) == -(d * (-d)));
        assert(d * (-d) == -(d * d));
    }
    lemma_sq_lt(x, -d);
}

impl HalfPlane {
    /// The overlap regime of a circle against this half-plane: disjoint when
    /// the circle lies entirely on the free side, full when it lies entirely
    /// in the occupied region, partial (a chord segment) in between.
    pub fn circle_overlap_class(&self, circle: &Circle) -> (c: OverlapClass)
        requires
            self.wf(),
            circle.wf(),
        ensures
            c == circle_plane_class(*self, *circle),
    {
        let d = self.distance(circle.center) as i128;
        let nx = self.normal.x as i128;
        let ny = self.normal.y as i128;
        let rad = circle.radius as i128;
        proof {
            lemma_mul_bound(d as int, d as int, 0x8000_0000_0000_0000, 0x8000_0000_0000_0000);
            lemma_mul_bound(nx as int, nx as int, 0x4000_0000, 0x4000_0000);
            lemma_mul_bound(ny as int, ny as int, 0x4000_0000, 0x4000_0000);
            lemma_mul_bound(rad as int, rad as int, 0x4000_0000, 0x4000_0000);
        }
        let dd = d * d;
        let nn = nx * nx + ny * ny;
        let rr = rad * rad;
        proof {
            lemma_mul_bound(rr as int, nn as int, 0x1000_0000_0000_0000, 0x2000_0000_0000_0000);
        }
        let rrnn = rr * nn;
        if d >= 0 && dd >= rrnn {
            OverlapClass::Disjoint
        } else if d <= 0 && dd >= rrnn {
            OverlapClass::Full
        } else {
            OverlapClass::Partial
        }
    }
}

} // verus!
