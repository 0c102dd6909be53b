//! Infinite lines and bounded segments with exact point intersection,
//! covering every degeneracy: zero-length inputs, parallelism and collinear
//! overlap. A line or segment whose two defining points coincide is a valid,
//! detectable degenerate value, not an error.

use vstd::prelude::*;

verus! {

use crate::Intersect;
use crate::scalar::{cross2, dirx, diry, dot2, lemma_mul_assoc, lemma_mul_bound,
    lemma_mul_cancel, lemma_mul_comm, lemma_mul_distrib, lemma_mul_distrib_left, lemma_mul_four,
    lemma_mul_le, lemma_mul_pos, lemma_mul_shuffle, lemma_mul_sign, lemma_neg_mul,
    lemma_zero_factor, lemma_zero_mul, Point, RPoint};

/// Infinite line defined by two points lying on it.
#[derive(Clone, Copy, PartialEq, Eq, Structural, Debug)]
pub struct Line(pub Point, pub Point);

/// Line segment bounded by two points.
#[derive(Clone, Copy, PartialEq, Eq, Structural, Debug)]
pub struct LineSegment(pub Point, pub Point);

/// Smaller of two integers.
pub open spec fn imin(a: int, b: int) -> int {
    if a <= b {
        a
    } else {
        b
    }
}

/// Larger of two integers.
pub open spec fn imax(a: int, b: int) -> int {
    if a <= b {
        b
    } else {
        a
    }
}

/// Cross product of the two direction vectors `p1 - p0` and `q1 - q0`.
pub open spec fn den4(p0: Point, p1: Point, q0: Point, q1: Point) -> int {
    cross2(dirx(p0, p1), diry(p0, p1), dirx(q0, q1), diry(q0, q1))
}

/// Cross product of `q0 - p0` with the second direction `q1 - q0`.
pub open spec fn pqs4(p0: Point, p1: Point, q0: Point, q1: Point) -> int {
    cross2(dirx(p0, q0), diry(p0, q0), dirx(q0, q1), diry(q0, q1))
}

/// Cross product of `q0 - p0` with the first direction `p1 - p0`.
pub open spec fn pqr4(p0: Point, p1: Point, q0: Point, q1: Point) -> int {
    cross2(dirx(p0, q0), diry(p0, q0), dirx(p0, p1), diry(p0, p1))
}

/// A rational triple `(num_x, num_y, den)` with its denominator made
/// positive.
pub open spec fn norm3(nx: int, ny: int, d: int) -> (int, int, int) {
    if d < 0 {
        (-nx, -ny, -d)
    } else {
        (nx, ny, d)
    }
}

/// The integer point `p` as a rational triple.
pub open spec fn int3(p: Point) -> (int, int, int) {
    (p.x as int, p.y as int, 1)
}

/// The midpoint of `a` and `b` as a rational triple.
pub open spec fn mid3(a: Point, b: Point) -> (int, int, int) {
    (a.x + b.x, a.y + b.y, 2)
}

/// Whether the fraction `num / den` (with `den != 0`) lies in `[0, 1]`.
pub open spec fn in_unit(num: int, den: int) -> bool {
    if den >= 0 {
        0 <= num <= den
    } else {
        den <= num <= 0
    }
}

/// The crossing point of the two carrier lines when their directions are not
/// parallel: the first primitive's points interpolated at parameter
/// `pqs4 / den4`.
pub open spec fn cross_point4(p0: Point, p1: Point, q0: Point, q1: Point) -> (int, int, int) {
    norm3(
        p0.x * den4(p0, p1, q0, q1) + pqs4(p0, p1, q0, q1) * dirx(p0, p1),
        p0.y * den4(p0, p1, q0, q1) + pqs4(p0, p1, q0, q1) * diry(p0, p1),
        den4(p0, p1, q0, q1),
    )
}

/// Whether an executable result names exactly the rational triple of the
/// functional model.
pub open spec fn opt_rp_is(r: Option<RPoint>, m: Option<(int, int, int)>) -> bool {
    match (r, m) {
        (Some(p), Some(t)) => p.xn == t.0 && p.yn == t.1 && p.den == t.2 && p.wf(),
        (None, None) => true,
        _ => false,
    }
}

impl Line {
    /// Both defining points lie within the coordinate bounds.
    pub open spec fn wf(self) -> bool {
        self.0.wf() && self.1.wf()
    }

    /// Whether the integer point `p` lies on this line (a degenerate line
    /// contains only its single point).
    pub open spec fn contains_spec(self, p: Point) -> bool {
        if self.0 == self.1 {
            p == self.0
        } else {
            cross2(dirx(self.0, self.1), diry(self.0, self.1), dirx(self.0, p), diry(self.0, p))
                == 0
        }
    }

    /// Whether the two defining points coincide.
    pub fn is_degenerate(&self) -> (r: bool)
        ensures
            r == (self.0 == self.1),
    {
        self.0.x == self.1.x && self.0.y == self.1.y
    }

    /// Whether the integer point lies on the line.
    pub fn contains(&self, point: Point) -> (r: bool)
        requires
            self.wf(),
            point.wf(),
        ensures
            r == self.contains_spec(point),
    {
        let rx = diff_i(self.0.x, self.1.x);
        let ry = diff_i(self.0.y, self.1.y);
        if rx == 0 && ry == 0 {
            return point.x == self.0.x && point.y == self.0.y;
        }
        let cross = cross_e(rx, ry, diff_i(self.0.x, point.x), diff_i(self.0.y, point.y));
        cross == 0
    }
}

impl LineSegment {
    /// Both defining points lie within the coordinate bounds.
    pub open spec fn wf(self) -> bool {
        self.0.wf() && self.1.wf()
    }

    /// Whether the integer point `p` lies on this segment (a degenerate
    /// segment contains only its single point).
    pub open spec fn contains_spec(self, p: Point) -> bool {
        if self.0 == self.1 {
            p == self.0
        } else {
            let rx = dirx(self.0, self.1);
            let ry = diry(self.0, self.1);
            &&& cross2(rx, ry, dirx(self.0, p), diry(self.0, p)) == 0
            &&& 0 <= dot2(dirx(self.0, p), diry(self.0, p), rx, ry) <= dot2(rx, ry, rx, ry)
        }
    }

    /// The infinite line containing this segment.
    pub fn to_line(&self) -> (r: Line)
        ensures
            r == (Line(self.0, self.1)),
    {
        Line(self.0, self.1)
    }

    /// Whether this segment has zero length.
    pub fn is_degenerate(&self) -> (r: bool)
        ensures
            r == (self.0 == self.1),
    {
        Line(self.0, self.1).is_degenerate()
    }

    /// Whether the integer point lies on this segment.
    pub fn contains(&self, point: Point) -> (r: bool)
        requires
            self.wf(),
            point.wf(),
        ensures
            r == self.contains_spec(point),
    {
        let rx = diff_i(self.0.x, self.1.x);
        let ry = diff_i(self.0.y, self.1.y);
        if rx == 0 && ry == 0 {
            return point.x == self.0.x && point.y == self.0.y;
        }
        let px = diff_i(self.0.x, point.x);
        let py = diff_i(self.0.y, point.y);
        let cross = cross_e(rx, ry, px, py);
        if cross != 0 {
            return false;
        }
        let along = dot_e(px, py, rx, ry);
        let rr = dot_e(rx, ry, rx, ry);
        0 <= along && along <= rr
    }
}

/// The exact intersection of two infinite lines: the crossing point when the
/// directions are not parallel; for coincident lines any point of the line
/// (the first line's first defining point); for a degenerate operand its
/// single point when it lies on the other line; `None` otherwise.
pub open spec fn line_line_point(a: Line, b: Line) -> Option<(int, int, int)> {
    let den = den4(a.0, a.1, b.0, b.1);
    let pqs = pqs4(a.0, a.1, b.0, b.1);
    let pqr = pqr4(a.0, a.1, b.0, b.1);
    if den != 0 {
        Some(cross_point4(a.0, a.1, b.0, b.1))
    } else if a.0 != a.1 && b.0 != b.1 {
        // parallel carrier lines: a shared point exists exactly when they
        // are coincident
        if pqs == 0 {
            Some(int3(a.0))
        } else {
            None
        }
    } else if a.0 == a.1 && b.0 != b.1 {
        // the first line is a single point
        if pqs == 0 {
            Some(int3(a.0))
        } else {
            None
        }
    } else if a.0 != a.1 && b.0 == b.1 {
        // the second line is a single point
        if pqr == 0 {
            Some(int3(b.0))
        } else {
            None
        }
    } else {
        // both lines are single points
        if a.0 == b.0 {
            Some(int3(a.0))
        } else {
            None
        }
    }
}

impl Intersect<Line> for Line {
    type Output = RPoint;

    open spec fn can_intersect(&self, other: &Line) -> bool {
        self.wf() && other.wf()
    }

    fn intersect(&self, other: &Line) -> (r: Option<RPoint>)
        ensures
            opt_rp_is(r, line_line_point(*self, *other)),
    {
        let rx = diff_i(self.0.x, self.1.x);
        let ry = diff_i(self.0.y, self.1.y);
        let sx = diff_i(other.0.x, other.1.x);
        let sy = diff_i(other.0.y, other.1.y);
        let pqx = diff_i(self.0.x, other.0.x);
        let pqy = diff_i(self.0.y, other.0.y);

        let den = cross_e(rx, ry, sx, sy);
        let pqr = cross_e(pqx, pqy, rx, ry);
        let pqs = cross_e(pqx, pqy, sx, sy);

        if den != 0 {
            Some(cross_point_e(self.0, self.1, den, pqs))
        } else if (rx != 0 || ry != 0) && (sx != 0 || sy != 0) {
            if pqs == 0 {
                Some(RPoint::from_point(self.0))
            } else {
                None
            }
        } else if (rx == 0 && ry == 0) && (sx != 0 || sy != 0) {
            if pqs == 0 {
                Some(RPoint::from_point(self.0))
            } else {
                None
            }
        } else if (rx != 0 || ry != 0) && (sx == 0 && sy == 0) {
            if pqr == 0 {
                Some(RPoint::from_point(other.0))
            } else {
                None
            }
        } else {
            if pqx == 0 && pqy == 0 {
                Some(RPoint::from_point(self.0))
            } else {
                None
            }
        }
    }
}

/// The exact intersection of a bounded segment with an infinite line: the
/// crossing point when it falls within the segment; the segment's midpoint
/// when the segment lies on the line; for a degenerate operand its single
/// point when it lies on the other primitive; `None` otherwise.
pub open spec fn seg_line_point(a: LineSegment, b: Line) -> Option<(int, int, int)> {
    let den = den4(a.0, a.1, b.0, b.1);
    let pqs = pqs4(a.0, a.1, b.0, b.1);
    let pqr = pqr4(a.0, a.1, b.0, b.1);
    let rx = dirx(a.0, a.1);
    let ry = diry(a.0, a.1);
    if den != 0 {
        if in_unit(pqs, den) {
            Some(cross_point4(a.0, a.1, b.0, b.1))
        } else {
            None
        }
    } else if a.0 != a.1 && b.0 != b.1 {
        // the segment is parallel to the line: when coincident, its midpoint
        // is the representative shared point
        if pqs == 0 {
            Some(mid3(a.0, a.1))
        } else {
            None
        }
    } else if a.0 == a.1 && b.0 != b.1 {
        if pqs == 0 {
            Some(int3(a.0))
        } else {
            None
        }
    } else if a.0 != a.1 && b.0 == b.1 {
        // the line is a single point: shared exactly when it lies on the
        // segment
        if pqr == 0 && in_unit(
            dot2(dirx(a.0, b.0), diry(a.0, b.0), rx, ry),
            dot2(rx, ry, rx, ry),
        ) {
            Some(int3(b.0))
        } else {
            None
        }
    } else {
        if a.0 == b.0 {
            Some(int3(a.0))
        } else {
            None
        }
    }
}

impl Intersect<Line> for LineSegment {
    type Output = RPoint;

    open spec fn can_intersect(&self, other: &Line) -> bool {
        self.wf() && other.wf()
    }

    fn intersect(&self, other: &Line) -> (r: Option<RPoint>)
        ensures
            opt_rp_is(r, seg_line_point(*self, *other)),
    {
        let rx = diff_i(self.0.x, self.1.x);
        let ry = diff_i(self.0.y, self.1.y);
        let sx = diff_i(other.0.x, other.1.x);
        let sy = diff_i(other.0.y, other.1.y);
        let pqx = diff_i(self.0.x, other.0.x);
        let pqy = diff_i(self.0.y, other.0.y);

        let den = cross_e(rx, ry, sx, sy);
        let pqr = cross_e(pqx, pqy, rx, ry);
        let pqs = cross_e(pqx, pqy, sx, sy);

        if den != 0 {
            if in_unit_e(pqs, den) {
                Some(cross_point_e(self.0, self.1, den, pqs))
            } else {
                None
            }
        } else if (rx != 0 || ry != 0) && (sx != 0 || sy != 0) {
            if pqs == 0 {
                Some(RPoint {
                    xn: self.0.x as i128 + self.1.x as i128,
                    yn: self.0.y as i128 + self.1.y as i128,
                    den: 2,
                })
            } else {
                None
            }
        } else if (rx == 0 && ry == 0) && (sx != 0 || sy != 0) {
            if pqs == 0 {
                Some(RPoint::from_point(self.0))
            } else {
                None
            }
        } else if (rx != 0 || ry != 0) && (sx == 0 && sy == 0) {
            let along = dot_e(pqx, pqy, rx, ry);
            let rr = dot_e(rx, ry, rx, ry);
            proof {
                lemma_sq_nonneg(rx as int);
                lemma_sq_nonneg(ry as int);
            }
            if pqr == 0 && in_unit_e(along, rr) {
                Some(RPoint::from_point(other.0))
            } else {
                None
            }
        } else {
            if pqx == 0 && pqy == 0 {
                Some(RPoint::from_point(self.0))
            } else {
                None
            }
        }
    }
}

impl Intersect<LineSegment> for Line {
    type Output = RPoint;

    open spec fn can_intersect(&self, other: &LineSegment) -> bool {
        self.wf() && other.wf()
    }

    fn intersect(&self, other: &LineSegment) -> (r: Option<RPoint>)
        ensures
            opt_rp_is(r, seg_line_point(*other, *self)),
    {
        other.intersect(self)
    }
}

/// The representative point of two collinear overlapping segments: the
/// midpoint of the overlap of their parameter intervals along the first
/// segment, `None` when the intervals do not meet. Both segments must be
/// non-degenerate, parallel and collinear.
pub open spec fn seg_overlap_point(a: LineSegment, b: LineSegment) -> Option<(int, int, int)> {
    let rx = dirx(a.0, a.1);
    let ry = diry(a.0, a.1);
    let rr = dot2(rx, ry, rx, ry);
    let t0n = dot2(dirx(a.0, b.0), diry(a.0, b.0), rx, ry);
    let t1n = t0n + dot2(dirx(b.0, b.1), diry(b.0, b.1), rx, ry);
    let tmin = imin(t0n, t1n);
    let tmax = imax(t0n, t1n);
    if tmax < 0 || tmin > rr {
        None
    } else {
        let m = imax(tmin, 0) + imin(tmax, rr);
        Some((a.0.x * (2 * rr) + m * rx, a.0.y * (2 * rr) + m * ry, 2 * rr))
    }
}

/// The exact intersection of two bounded segments: the crossing point when
/// it falls within both; the midpoint of the overlap for collinear
/// overlapping segments; for a degenerate operand its single point when it
/// lies on the other segment; `None` otherwise.
pub open spec fn seg_seg_point(a: LineSegment, b: LineSegment) -> Option<(int, int, int)> {
    let den = den4(a.0, a.1, b.0, b.1);
    let pqs = pqs4(a.0, a.1, b.0, b.1);
    let pqr = pqr4(a.0, a.1, b.0, b.1);
    let rx = dirx(a.0, a.1);
    let ry = diry(a.0, a.1);
    let sx = dirx(b.0, b.1);
    let sy = diry(b.0, b.1);
    if den != 0 {
        if in_unit(pqs, den) && in_unit(pqr, den) {
            Some(cross_point4(a.0, a.1, b.0, b.1))
        } else {
            None
        }
    } else if a.0 != a.1 && b.0 != b.1 {
        if pqr == 0 {
            seg_overlap_point(a, b)
        } else {
            None
        }
    } else if a.0 == a.1 && b.0 != b.1 {
        // the first segment is a single point
        if pqs == 0 && in_unit(
            -dot2(dirx(a.0, b.0), diry(a.0, b.0), sx, sy),
            dot2(sx, sy, sx, sy),
        ) {
            Some(int3(a.0))
        } else {
            None
        }
    } else if a.0 != a.1 && b.0 == b.1 {
        // the second segment is a single point
        if pqr == 0 && in_unit(
            dot2(dirx(a.0, b.0), diry(a.0, b.0), rx, ry),
            dot2(rx, ry, rx, ry),
        ) {
            Some(int3(b.0))
        } else {
            None
        }
    } else {
        if a.0 == b.0 {
            Some(int3(a.0))
        } else {
            None
        }
    }
}

impl Intersect<LineSegment> for LineSegment {
    type Output = RPoint;

    open spec fn can_intersect(&self, other: &LineSegment) -> bool {
        self.wf() && other.wf()
    }

    fn intersect(&self, other: &LineSegment) -> (r: Option<RPoint>)
        ensures
            opt_rp_is(r, seg_seg_point(*self, *other)),
    {
        let rx = diff_i(self.0.x, self.1.x);
        let ry = diff_i(self.0.y, self.1.y);
        let sx = diff_i(other.0.x, other.1.x);
        let sy = diff_i(other.0.y, other.1.y);
        let pqx = diff_i(self.0.x, other.0.x);
        let pqy = diff_i(self.0.y, other.0.y);

        let den = cross_e(rx, ry, sx, sy);
        let pqr = cross_e(pqx, pqy, rx, ry);
        let pqs = cross_e(pqx, pqy, sx, sy);

        if den != 0 {
            if in_unit_e(pqs, den) && in_unit_e(pqr, den) {
                Some(cross_point_e(self.0, self.1, den, pqs))
            } else {
                None
            }
        } else if (rx != 0 || ry != 0) && (sx != 0 || sy != 0) {
            if pqr == 0 {
                let rr = dot_e(rx, ry, rx, ry);
                let t0n = dot_e(pqx, pqy, rx, ry);
                let t1n = t0n + dot_e(sx, sy, rx, ry);
                let tmin = if t0n <= t1n { t0n } else { t1n };
                let tmax = if t0n <= t1n { t1n } else { t0n };
                if tmax < 0 || tmin > rr {
                    None
                } else {
                    let lo = if tmin >= 0 { tmin } else { 0 };
                    let hi = if tmax <= rr { tmax } else { rr };
                    let m = lo + hi;
                    let den2 = 2 * rr;
                    proof {
                        lemma_sq_nonneg(rx as int);
                        lemma_sq_nonneg(ry as int);
                        lemma_mul_bound(
                            self.0.x as int,
                            den2 as int,
                            0x4000_0000,
                            0x4_0000_0000_0000_0000,
                        );
                        lemma_mul_bound(
                            self.0.y as int,
                            den2 as int,
                            0x4000_0000,
                            0x4_0000_0000_0000_0000,
                        );
                        lemma_mul_bound(
                            m as int,
                            rx as int,
                            0x8_0000_0000_0000_0000,
                            0x8000_0000,
                        );
                        lemma_mul_bound(
                            m as int,
                            ry as int,
                            0x8_0000_0000_0000_0000,
                            0x8000_0000,
                        );
                    }
                    let nx = (self.0.x as i128) * den2 + m * rx;
                    let ny = (self.0.y as i128) * den2 + m * ry;
                    Some(RPoint { xn: nx, yn: ny, den: den2 })
                }
            } else {
                None
            }
        } else if (rx == 0 && ry == 0) && (sx != 0 || sy != 0) {
            let along = dot_e(pqx, pqy, sx, sy);
            let ss = dot_e(sx, sy, sx, sy);
            proof {
                lemma_sq_nonneg(sx as int);
                lemma_sq_nonneg(sy as int);
            }
            if pqs == 0 && in_unit_e(-along, ss) {
                Some(RPoint::from_point(self.0))
            } else {
                None
            }
        } else if (rx != 0 || ry != 0) && (sx == 0 && sy == 0) {
            let along = dot_e(pqx, pqy, rx, ry);
            let rr = dot_e(rx, ry, rx, ry);
            proof {
                lemma_sq_nonneg(rx as int);
                lemma_sq_nonneg(ry as int);
            }
            if pqr == 0 && in_unit_e(along, rr) {
                Some(RPoint::from_point(other.0))
            } else {
                None
            }
        } else {
            if pqx == 0 && pqy == 0 {
                Some(RPoint::from_point(self.0))
            } else {
                None
            }
        }
    }
}

/// Whether two rational triples stand for the same point of the plane.
pub open spec fn rp3_eqv(t: (int, int, int), u: (int, int, int)) -> bool {
    &&& t.0 * u.2 == u.0 * t.2
    &&& t.1 * u.2 == u.1 * t.2
}

/// Whether two optional rational triples are `None` together or stand for
/// the same point.
pub open spec fn opt3_eqv(x: Option<(int, int, int)>, y: Option<(int, int, int)>) -> bool {
    match (x, y) {
        (Some(t), Some(u)) => rp3_eqv(t, u),
        (None, None) => true,
        _ => false,
    }
}

/// Whether the rational triple `t` (with `t.2 != 0`) lies on the line, a
/// degenerate line containing only its single point.
pub open spec fn line3_contains(l: Line, t: (int, int, int)) -> bool {
    if l.0 == l.1 {
        t.0 == l.0.x * t.2 && t.1 == l.0.y * t.2
    } else {
        cross2(dirx(l.0, l.1), diry(l.0, l.1), t.0 - l.0.x * t.2, t.1 - l.0.y * t.2) == 0
    }
}

/// Swapping the operands of a cross product negates it, and so does negating
/// one operand.
proof fn lemma_cross_swap(ax: int, ay: int, bx: int, by: int)
    by (nonlinear_arith)
    ensures
        bx * ay - by * ax == -(ax * by - ay * bx),
        (-ax) * by - (-ay) * bx == -(ax * by - ay * bx),
{
}

/// The elimination identity along x: combining `pq x s` and `pq x r`
/// recovers the x component of `pq` scaled by `r x s`.
proof fn lemma_combine_x(pqx: int, pqy: int, rx: int, ry: int, sx: int, sy: int)
    by (nonlinear_arith)
    ensures
        (pqx * sy - pqy * sx) * rx - (pqx * ry - pqy * rx) * sx == pqx * (rx * sy - ry * sx),
{
}

/// The elimination identity along y: combining `pq x s` and `pq x r`
/// recovers the y component of `pq` scaled by `r x s`.
proof fn lemma_combine_y(pqx: int, pqy: int, rx: int, ry: int, sx: int, sy: int)
    by (nonlinear_arith)
    ensures
        (pqx * sy - pqy * sx) * ry - (pqx * ry - pqy * rx) * sy == pqy * (rx * sy - ry * sx),
{
}

/// Sign normalization does not change which point a triple stands for, so
/// two triples are equivalent exactly when their normalized forms are.
proof fn lemma_norm3_eqv(ax: int, ay: int, ad: int, bx: int, by: int, bd: int)
    ensures
        rp3_eqv(norm3(ax, ay, ad), norm3(bx, by, bd)) == rp3_eqv((ax, ay, ad), (bx, by, bd)),
{
    lemma_neg_mul(ax, bd);
    lemma_neg_mul(ay, bd);
    lemma_neg_mul(bx, ad);
    lemma_neg_mul(by, ad);
    assert((-ax) * (-bd) == -(ax * (-bd)) && ax * (-bd) == -(ax * bd)) by {
        lemma_neg_mul(-ax, bd);
        lemma_neg_mul(ax, bd);
    }
    assert((-ay) * (-bd) == -(ay * (-bd)) && ay * (-bd) == -(ay * bd)) by {
        lemma_neg_mul(-ay, bd);
        lemma_neg_mul(ay, bd);
    }
    assert((-bx) * (-ad) == -(bx * (-ad)) && bx * (-ad) == -(bx * ad)) by {
        lemma_neg_mul(-bx, ad);
        lemma_neg_mul(bx, ad);
    }
    assert((-by) * (-ad) == -(by * (-ad)) && by * (-ad) == -(by * ad)) by {
        lemma_neg_mul(-by, ad);
        lemma_neg_mul(by, ad);
    }
}

/// The normalized crossing point does not depend on which primitive of the
/// pair comes first.
proof fn lemma_cross_point_symmetric(p0: Point, p1: Point, q0: Point, q1: Point)
    requires
        den4(p0, p1, q0, q1) != 0,
    ensures
        rp3_eqv(cross_point4(p0, p1, q0, q1), cross_point4(q0, q1, p0, p1)),
{
    let rx = dirx(p0, p1);
    let ry = diry(p0, p1);
    let sx = dirx(q0, q1);
    let sy = diry(q0, q1);
    let pqx = dirx(p0, q0);
    let pqy = diry(p0, q0);
    let den = den4(p0, p1, q0, q1);
    let pqs = pqs4(p0, p1, q0, q1);
    let pqr = pqr4(p0, p1, q0, q1);
    assert(den == rx * sy - ry * sx);
    assert(pqs == pqx * sy - pqy * sx);
    assert(pqr == pqx * ry - pqy * rx);
    lemma_combine_x(pqx, pqy, rx, ry, sx, sy);
    lemma_combine_y(pqx, pqy, rx, ry, sx, sy);
    assert(pqs * rx - pqr * sx == pqx * den);
    assert(pqs * ry - pqr * sy == pqy * den);
    assert(den4(q0, q1, p0, p1) == -den) by {
        lemma_cross_swap(rx, ry, sx, sy);
    }
    assert(pqs4(q0, q1, p0, p1) == -pqr) by {
        lemma_cross_swap(pqx, pqy, rx, ry);
    }
    let nxt = p0.x * den + pqs * rx;
    let nyt = p0.y * den + pqs * ry;
    let nxu = q0.x * den + pqr * sx;
    let nyu = q0.y * den + pqr * sy;
    assert(pqx * den == q0.x * den - p0.x * den) by {
        lemma_mul_distrib(q0.x as int, p0.x as int, den);
    }
    assert(pqy * den == q0.y * den - p0.y * den) by {
        lemma_mul_distrib(q0.y as int, p0.y as int, den);
    }
    assert(nxt == nxu);
    assert(nyt == nyu);
    assert(q0.x * (-den) == -(q0.x * den)) by {
        lemma_neg_mul(q0.x as int, den);
    }
    assert(q0.y * (-den) == -(q0.y * den)) by {
        lemma_neg_mul(q0.y as int, den);
    }
    assert((-pqr) * sx == -(pqr * sx)) by {
        lemma_neg_mul(pqr, sx);
    }
    assert((-pqr) * sy == -(pqr * sy)) by {
        lemma_neg_mul(pqr, sy);
    }
    assert(cross_point4(q0, q1, p0, p1) == norm3(-nxu, -nyu, -den));
    lemma_norm3_eqv(nxt, nyt, den, -nxu, -nyu, -den);
    assert(rp3_eqv((nxt, nyt, den), (-nxu, -nyu, -den))) by {
        lemma_neg_mul(nxu, den);
        lemma_neg_mul(nyu, den);
        assert(nxt * (-den) == -(nxt * den)) by {
            lemma_neg_mul(nxt, den);
        }
        assert(nyt * (-den) == -(nyt * den)) by {
            lemma_neg_mul(nyt, den);
        }
    }
}

/// For two parallel non-degenerate primitives the two collinearity tests
/// (`pq x s` and `pq x r`) vanish together.
proof fn lemma_parallel_tests_agree(p0: Point, p1: Point, q0: Point, q1: Point)
    requires
        den4(p0, p1, q0, q1) == 0,
        p0 != p1,
        q0 != q1,
    ensures
        pqs4(p0, p1, q0, q1) == 0 <==> pqr4(p0, p1, q0, q1) == 0,
{
    let rx = dirx(p0, p1);
    let ry = diry(p0, p1);
    let sx = dirx(q0, q1);
    let sy = diry(q0, q1);
    let pqx = dirx(p0, q0);
    let pqy = diry(p0, q0);
    let den = den4(p0, p1, q0, q1);
    let pqs = pqs4(p0, p1, q0, q1);
    let pqr = pqr4(p0, p1, q0, q1);
    assert(den == rx * sy - ry * sx);
    assert(pqs == pqx * sy - pqy * sx);
    assert(pqr == pqx * ry - pqy * rx);
    lemma_combine_x(pqx, pqy, rx, ry, sx, sy);
    lemma_combine_y(pqx, pqy, rx, ry, sx, sy);
    assert(pqs * rx - pqr * sx == pqx * den);
    assert(pqs * ry - pqr * sy == pqy * den);
    if pqs == 0 {
        assert(pqr * sx == 0 && pqr * sy == 0);
        if sx != 0 {
            lemma_zero_factor(pqr, sx);
        } else {
            lemma_zero_factor(pqr, sy);
        }
    }
    if pqr == 0 {
        assert(pqs * rx == 0 && pqs * ry == 0);
        if rx != 0 {
            lemma_zero_factor(pqs, rx);
        } else {
            lemma_zero_factor(pqs, ry);
        }
    }
}

/// Law: line-line intersection is symmetric. The two orders return a point
/// together or `None` together; and except for two coincident non-degenerate
/// lines (where each order returns its own operand's representative anchor
/// point, both on the common line) the returned points are equal.
pub proof fn lemma_line_line_symmetric(a: Line, b: Line)
    ensures
        line_line_point(a, b) is Some <==> line_line_point(b, a) is Some,
        (a.0 == a.1 || b.0 == b.1 || den4(a.0, a.1, b.0, b.1) != 0 || pqs4(a.0, a.1, b.0, b.1)
            != 0) ==> opt3_eqv(line_line_point(a, b), line_line_point(b, a)),
{
    let rx = dirx(a.0, a.1);
    let ry = diry(a.0, a.1);
    let sx = dirx(b.0, b.1);
    let sy = diry(b.0, b.1);
    let pqx = dirx(a.0, b.0);
    let pqy = diry(a.0, b.0);
    let den = den4(a.0, a.1, b.0, b.1);
    let pqs = pqs4(a.0, a.1, b.0, b.1);
    let pqr = pqr4(a.0, a.1, b.0, b.1);
    assert(den == rx * sy - ry * sx);
    assert(pqs == pqx * sy - pqy * sx);
    assert(pqr == pqx * ry - pqy * rx);
    lemma_combine_x(pqx, pqy, rx, ry, sx, sy);
    lemma_combine_y(pqx, pqy, rx, ry, sx, sy);
    assert(pqs * rx - pqr * sx == pqx * den);
    assert(pqs * ry - pqr * sy == pqy * den);
    assert(den4(b.0, b.1, a.0, a.1) == -den) by {
        lemma_cross_swap(rx, ry, sx, sy);
    }
    assert(pqs4(b.0, b.1, a.0, a.1) == -pqr) by {
        lemma_cross_swap(pqx, pqy, rx, ry);
    }
    assert(pqr4(b.0, b.1, a.0, a.1) == -pqs) by {
        lemma_cross_swap(pqx, pqy, sx, sy);
    }
    if den != 0 {
        lemma_cross_point_symmetric(a.0, a.1, b.0, b.1);
    } else if a.0 != a.1 && b.0 != b.1 {
        // parallel: the coincidence tests of the two orders agree
        lemma_parallel_tests_agree(a.0, a.1, b.0, b.1);
    }
}

/// Law: every point the line-line intersection returns lies on both lines,
/// and its denominator is positive.
pub proof fn lemma_line_line_on_both(a: Line, b: Line)
    ensures
        match line_line_point(a, b) {
            Some(t) => t.2 >= 1 && line3_contains(a, t) && line3_contains(b, t),
            None => true,
        },
{
    let rx = dirx(a.0, a.1);
    let ry = diry(a.0, a.1);
    let sx = dirx(b.0, b.1);
    let sy = diry(b.0, b.1);
    let pqx = dirx(a.0, b.0);
    let pqy = diry(a.0, b.0);
    let den = den4(a.0, a.1, b.0, b.1);
    let pqs = pqs4(a.0, a.1, b.0, b.1);
    let pqr = pqr4(a.0, a.1, b.0, b.1);
    if den != 0 {
        lemma_cross_point_on_lines(a, b);
    } else if a.0 != a.1 && b.0 != b.1 {
        if pqs == 0 {
            let t = int3(a.0);
            assert(line3_contains(a, t)) by {
                lemma_self_anchor(a, a.0);
            }
            assert(line3_contains(b, t)) by {
                assert(cross2(sx, sy, a.0.x - b.0.x * 1, a.0.y - b.0.y * 1) == pqs) by {
                    lemma_on_other_from_pqs(a.0.x as int, a.0.y as int, b.0.x as int,
                        b.0.y as int, sx, sy);
                }
            }
        }
    } else if a.0 == a.1 && b.0 != b.1 {
        if pqs == 0 {
            assert(cross2(sx, sy, a.0.x - b.0.x * 1, a.0.y - b.0.y * 1) == pqs) by {
                lemma_on_other_from_pqs(a.0.x as int, a.0.y as int, b.0.x as int, b.0.y as int,
                    sx, sy);
            }
        }
    } else if a.0 != a.1 && b.0 == b.1 {
        if pqr == 0 {
            assert(cross2(rx, ry, b.0.x - a.0.x * 1, b.0.y - a.0.y * 1) == -pqr) by {
                lemma_on_other_from_pqr(a.0.x as int, a.0.y as int, b.0.x as int, b.0.y as int,
                    rx, ry);
            }
        }
    }
}

/// Law: the line-line intersection is `None` only when the lines really
/// share no point: any rational point lying on both lines forces a result.
pub proof fn lemma_line_line_complete(a: Line, b: Line, t: (int, int, int))
    requires
        t.2 >= 1,
        line3_contains(a, t),
        line3_contains(b, t),
    ensures
        line_line_point(a, b) is Some,
{
    let rx = dirx(a.0, a.1);
    let ry = diry(a.0, a.1);
    let sx = dirx(b.0, b.1);
    let sy = diry(b.0, b.1);
    let pqx = dirx(a.0, b.0);
    let pqy = diry(a.0, b.0);
    let den = den4(a.0, a.1, b.0, b.1);
    let pqs = pqs4(a.0, a.1, b.0, b.1);
    let pqr = pqr4(a.0, a.1, b.0, b.1);
    let d = t.2;
    if den == 0 {
        if a.0 != a.1 && b.0 != b.1 {
            let vx = t.0 - a.0.x * d;
            let vy = t.1 - a.0.y * d;
            let wx = t.0 - b.0.x * d;
            let wy = t.1 - b.0.y * d;
            assert(vx - wx == pqx * d) by {
                lemma_mul_distrib(b.0.x as int, a.0.x as int, d);
            }
            assert(vy - wy == pqy * d) by {
                lemma_mul_distrib(b.0.y as int, a.0.y as int, d);
            }
            // the point is parallel-offset-free from both carriers, so the
            // anchors' offset is collinear with the common direction
            assert((vx * sy - vy * sx) * rx - (vx * ry - vy * rx) * sx == vx * (rx * sy - ry
                * sx)) by {
                lemma_combine_x(vx, vy, rx, ry, sx, sy);
            }
            assert((vx * sy - vy * sx) * ry - (vx * ry - vy * rx) * sy == vy * (rx * sy - ry
                * sx)) by {
                lemma_combine_y(vx, vy, rx, ry, sx, sy);
            }
            assert(vx * ry - vy * rx == 0) by {
                lemma_mul_comm(vx, ry);
                lemma_mul_comm(vy, rx);
            }
            assert((vx * ry - vy * rx) * sx == 0 && (vx * ry - vy * rx) * sy == 0) by {
                lemma_zero_mul(sx as int);
                lemma_zero_mul(sy as int);
            }
            assert(vx * (rx * sy - ry * sx) == 0) by {
                lemma_zero_mul(vx);
            }
            assert(vy * (rx * sy - ry * sx) == 0) by {
                lemma_zero_mul(vy);
            }
            assert(vx * sy - vy * sx == 0) by {
                if rx != 0 {
                    lemma_zero_factor(vx * sy - vy * sx, rx);
                } else {
                    lemma_zero_factor(vx * sy - vy * sx, ry);
                }
            }
            assert(sx * wy - sy * wx == 0);
            assert(sx * vy - sy * vx == sx * wy - sy * wx + (sx * (pqy * d) - sy * (pqx * d)))
                by {
                lemma_mul_distrib_left(sx as int, wy, pqy * d);
                lemma_mul_distrib_left(sy as int, wx, pqx * d);
            }
            assert(sx * vy - sy * vx == 0) by {
                lemma_mul_comm(vx, sy as int);
                lemma_mul_comm(vy, sx as int);
            }
            assert(sx * (pqy * d) - sy * (pqx * d) == -(pqs * d)) by {
                lemma_mul_shuffle(sx as int, pqy, d);
                lemma_mul_shuffle(sy as int, pqx, d);
                lemma_mul_distrib(pqy * sx, pqx * sy, d);
                lemma_mul_comm(pqy, sx as int);
                lemma_mul_comm(pqx, sy as int);
                lemma_neg_mul(pqs, d);
                lemma_mul_distrib(pqx * sy, pqy * sx, d);
            }
            assert(pqs * d == 0);
            lemma_zero_factor(pqs, d);
        } else if a.0 == a.1 && b.0 != b.1 {
            let wx = t.0 - b.0.x * d;
            let wy = t.1 - b.0.y * d;
            assert(wx == -(pqx * d)) by {
                lemma_mul_distrib(b.0.x as int, a.0.x as int, d);
            }
            assert(wy == -(pqy * d)) by {
                lemma_mul_distrib(b.0.y as int, a.0.y as int, d);
            }
            assert(sx * wy - sy * wx == pqs * d) by {
                lemma_neg_mul(sx as int, pqy * d);
                lemma_neg_mul(sy as int, pqx * d);
                lemma_mul_shuffle(sx as int, pqy, d);
                lemma_mul_shuffle(sy as int, pqx, d);
                lemma_mul_comm(pqy, sx as int);
                lemma_mul_comm(pqx, sy as int);
                lemma_mul_distrib(pqx * sy, pqy * sx, d);
            }
            assert(pqs * d == 0);
            lemma_zero_factor(pqs, d);
        } else if a.0 != a.1 && b.0 == b.1 {
            let vx = t.0 - a.0.x * d;
            let vy = t.1 - a.0.y * d;
            assert(vx == pqx * d) by {
                lemma_mul_distrib(b.0.x as int, a.0.x as int, d);
            }
            assert(vy == pqy * d) by {
                lemma_mul_distrib(b.0.y as int, a.0.y as int, d);
            }
            assert(rx * vy - ry * vx == -(pqr * d)) by {
                lemma_mul_shuffle(rx as int, pqy, d);
                lemma_mul_shuffle(ry as int, pqx, d);
                lemma_mul_comm(pqy, rx as int);
                lemma_mul_comm(pqx, ry as int);
                lemma_neg_mul(pqr, d);
                lemma_mul_distrib(pqx * ry, pqy * rx, d);
                lemma_mul_distrib(pqy * rx, pqx * ry, d);
            }
            assert(pqr * d == 0) by {
                lemma_neg_mul(pqr, d);
            }
            lemma_zero_factor(pqr, d);
        } else {
            assert(a.0.x * d == b.0.x * d && a.0.y * d == b.0.y * d);
            lemma_mul_cancel(a.0.x as int, b.0.x as int, d);
            lemma_mul_cancel(a.0.y as int, b.0.y as int, d);
            assert(a.0 == b.0);
        }
    }
}

/// For a point anchor taken from the primitive's own defining points,
/// containment in its carrier line is immediate.
proof fn lemma_self_anchor(l: Line, p: Point)
    requires
        p == l.0,
    ensures
        line3_contains(l, int3(p)),
{
    if l.0 != l.1 {
        let rx = dirx(l.0, l.1);
        let ry = diry(l.0, l.1);
        assert(cross2(rx, ry, 0, 0) == 0) by (nonlinear_arith);
    }
}

/// When `pq x s` vanishes, the first operand's anchor lies on the second
/// carrier line.
proof fn lemma_on_other_from_pqs(p0x: int, p0y: int, q0x: int, q0y: int, sx: int, sy: int)
    by (nonlinear_arith)
    ensures
        sx * (p0y - q0y * 1) - sy * (p0x - q0x * 1) == (q0x - p0x) * sy - (q0y - p0y) * sx,
{
}

/// When `pq x r` vanishes, the second operand's anchor lies on the first
/// carrier line.
proof fn lemma_on_other_from_pqr(p0x: int, p0y: int, q0x: int, q0y: int, rx: int, ry: int)
    by (nonlinear_arith)
    ensures
        rx * (q0y - p0y * 1) - ry * (q0x - p0x * 1) == -((q0x - p0x) * ry - (q0y - p0y) * rx),
{
}

/// The crossing point of two non-parallel carrier lines lies on both.
proof fn lemma_cross_point_on_lines(a: Line, b: Line)
    requires
        den4(a.0, a.1, b.0, b.1) != 0,
    ensures
        ({
            let t = cross_point4(a.0, a.1, b.0, b.1);
            t.2 >= 1 && line3_contains(a, t) && line3_contains(b, t)
        }),
{
    let rx = dirx(a.0, a.1);
    let ry = diry(a.0, a.1);
    let sx = dirx(b.0, b.1);
    let sy = diry(b.0, b.1);
    let den = den4(a.0, a.1, b.0, b.1);
    let pqs = pqs4(a.0, a.1, b.0, b.1);
    let pqx = dirx(a.0, b.0);
    let pqy = diry(a.0, b.0);
    let nx = a.0.x * den + pqs * rx;
    let ny = a.0.y * den + pqs * ry;
    assert(den == rx * sy - ry * sx);
    assert(pqs == pqx * sy - pqy * sx);
    assert(nx - a.0.x * den == pqs * rx);
    assert(ny - a.0.y * den == pqs * ry);
    assert(pqx * den == b.0.x * den - a.0.x * den) by {
        lemma_mul_distrib(b.0.x as int, a.0.x as int, den);
    }
    assert(pqy * den == b.0.y * den - a.0.y * den) by {
        lemma_mul_distrib(b.0.y as int, a.0.y as int, den);
    }
    assert(nx - b.0.x * den == pqs * rx - pqx * den);
    assert(ny - b.0.y * den == pqs * ry - pqy * den);
    lemma_on_line_a_raw(pqx, pqy, rx, ry, sx, sy);
    assert(rx * (pqs * ry) - ry * (pqs * rx) == 0);
    lemma_mul_distrib_left(sx, pqs * ry, pqy * den);
    lemma_mul_distrib_left(sy, pqs * rx, pqx * den);
    lemma_mul_shuffle(sx, pqs, ry);
    lemma_mul_shuffle(sy, pqs, rx);
    lemma_mul_shuffle(sx, pqy, den);
    lemma_mul_shuffle(sy, pqx, den);
    lemma_mul_distrib_left(pqs, sx * ry, sy * rx);
    lemma_mul_distrib_left(den, sy * pqx, sx * pqy);
    assert(sx * (pqs * ry - pqy * den) - sy * (pqs * rx - pqx * den) == pqs * (sx * ry - sy
        * rx) + den * (sy * pqx - sx * pqy));
    assert(sx * ry - sy * rx == -den) by {
        lemma_cross_swap(rx, ry, sx, sy);
    }
    assert(sy * pqx - sx * pqy == pqs) by {
        lemma_cross_swap(sx, sy, pqx, pqy);
    }
    lemma_mul_comm(den, pqs);
    lemma_neg_mul(pqs, den);
    assert(sx * (pqs * ry - pqy * den) - sy * (pqs * rx - pqx * den) == 0);
    assert(cross2(rx, ry, nx - a.0.x * den, ny - a.0.y * den) == 0);
    assert(cross2(sx, sy, nx - b.0.x * den, ny - b.0.y * den) == 0);
    // a degenerate operand would make its direction zero and the
    // denominator zero with it
    if a.0 == a.1 {
        assert(den == 0) by (nonlinear_arith)
            requires
                den == rx * sy - ry * sx,
                rx == 0,
                ry == 0,
        ;
    }
    if b.0 == b.1 {
        assert(den == 0) by (nonlinear_arith)
            requires
                den == rx * sy - ry * sx,
                sx == 0,
                sy == 0,
        ;
    }
    if den < 0 {
        let vx = nx - a.0.x * den;
        let vy = ny - a.0.y * den;
        let wx = nx - b.0.x * den;
        let wy = ny - b.0.y * den;
        lemma_neg_mul(a.0.x as int, den);
        lemma_neg_mul(a.0.y as int, den);
        lemma_neg_mul(b.0.x as int, den);
        lemma_neg_mul(b.0.y as int, den);
        assert(a.0.x * (-den) == -(a.0.x * den));
        assert(a.0.y * (-den) == -(a.0.y * den));
        assert(b.0.x * (-den) == -(b.0.x * den));
        assert(b.0.y * (-den) == -(b.0.y * den));
        assert(-nx - a.0.x * (-den) == -vx);
        assert(-ny - a.0.y * (-den) == -vy);
        assert(-nx - b.0.x * (-den) == -wx);
        assert(-ny - b.0.y * (-den) == -wy);
        lemma_neg_mul(rx, vy);
        lemma_neg_mul(ry, vx);
        lemma_neg_mul(sx, wy);
        lemma_neg_mul(sy, wx);
        assert(cross2(rx, ry, -vx, -vy) == 0);
        assert(cross2(sx, sy, -wx, -wy) == 0);
    }
}

/// The interpolated point, before normalization, satisfies the first
/// carrier-line equation: pure algebra.
proof fn lemma_on_line_a_raw(pqx: int, pqy: int, rx: int, ry: int, sx: int, sy: int)
    by (nonlinear_arith)
    ensures
        rx * ((pqx * sy - pqy * sx) * ry) - ry * ((pqx * sy - pqy * sx) * rx) == 0,
{
}

/// A vector whose cross product with `r` vanishes is `r` scaled by the ratio
/// of its projection onto `r` to the squared length of `r`.
proof fn lemma_collinear_decomp(ux: int, uy: int, rx: int, ry: int)
    by (nonlinear_arith)
    requires
        ux * ry - uy * rx == 0,
    ensures
        ux * (rx * rx + ry * ry) == (ux * rx + uy * ry) * rx,
        uy * (rx * rx + ry * ry) == (ux * rx + uy * ry) * ry,
{
}

/// The measure algebra behind the overlap midpoint's symmetry: with the
/// second direction and offset decomposed along the first (all at the scale
/// of `rr`), and the two midpoint parameter sums related by `k1`, the two
/// midpoint numerators stand for the same coordinate.
proof fn lemma_overlap_point_eq(
    a0: int,
    b0: int,
    pqc: int,
    rc: int,
    sc: int,
    rr: int,
    ss: int,
    sr: int,
    t0n: int,
    ma: int,
    mb: int,
)
    requires
        rr >= 1,
        b0 == a0 + pqc,
        pqc * rr == t0n * rc,
        sc * rr == sr * rc,
        ss * rr == sr * sr,
        ma * sr == 2 * (t0n * sr) + mb * rr,
    ensures
        (a0 * (2 * rr) + ma * rc) * (2 * ss) == (b0 * (2 * ss) + mb * sc) * (2 * rr),
{
    let aa = a0 * (2 * rr) + ma * rc;
    let bb = b0 * (2 * ss) + mb * sc;
    let lhs = aa * (2 * ss);
    let rhs = bb * (2 * rr);
    let rr2 = rr * rr;
    // the left side, scaled by rr * rr
    assert(lhs * rr2 == aa * ((2 * ss) * rr2)) by {
        lemma_mul_assoc(aa, 2 * ss, rr2);
    }
    assert((2 * ss) * rr2 == 2 * (ss * rr2)) by {
        lemma_mul_assoc(2, ss, rr2);
    }
    assert(ss * rr2 == (ss * rr) * rr) by {
        lemma_mul_assoc(ss, rr, rr);
    }
    assert(ss * rr2 == (sr * sr) * rr);
    // the right side, scaled by rr * rr
    assert(rhs * rr2 == (bb * rr2) * (2 * rr)) by {
        lemma_mul_assoc(bb, 2 * rr, rr2);
        lemma_mul_comm(2 * rr, rr2);
        lemma_mul_assoc(bb, rr2, 2 * rr);
    }
    assert(bb * rr2 == (b0 * (2 * ss)) * rr2 + (mb * sc) * rr2) by {
        lemma_mul_distrib(b0 * (2 * ss), -(mb * sc), rr2);
        lemma_mul_distrib(b0 * (2 * ss) + mb * sc, b0 * (2 * ss), rr2);
    }
    assert((b0 * (2 * ss)) * rr2 == b0 * (2 * ((sr * sr) * rr))) by {
        lemma_mul_assoc(b0, 2 * ss, rr2);
    }
    assert(b0 * (2 * ((sr * sr) * rr)) == a0 * (2 * ((sr * sr) * rr)) + pqc * (2 * ((sr * sr)
        * rr))) by {
        lemma_mul_distrib(a0, -pqc, 2 * ((sr * sr) * rr));
        lemma_mul_distrib(a0 + pqc, a0, 2 * ((sr * sr) * rr));
    }
    assert(pqc * (2 * ((sr * sr) * rr)) == 2 * ((sr * sr) * (pqc * rr))) by {
        lemma_mul_shuffle(pqc, 2, (sr * sr) * rr);
        lemma_mul_shuffle(pqc, sr * sr, rr);
        lemma_mul_assoc(sr * sr, pqc, rr);
    }
    assert((sr * sr) * (pqc * rr) == (sr * sr) * (t0n * rc));
    assert((mb * sc) * rr2 == (mb * rr) * (sc * rr)) by {
        lemma_mul_four(mb, sc, rr, rr);
    }
    assert(mb * rr == ma * sr - 2 * (t0n * sr));
    assert((mb * rr) * (sc * rr) == (ma * sr) * (sr * rc) - (2 * (t0n * sr)) * (sr * rc)) by {
        lemma_mul_distrib(ma * sr, 2 * (t0n * sr), sr * rc);
    }
    assert((ma * sr) * (sr * rc) == (ma * sr) * (rc * sr)) by {
        lemma_mul_comm(sr, rc);
    }
    assert((ma * sr) * (rc * sr) == (ma * rc) * (sr * sr)) by {
        lemma_mul_four(ma, sr, rc, sr);
    }
    assert((2 * (t0n * sr)) * (sr * rc) == 2 * ((t0n * sr) * (sr * rc))) by {
        lemma_mul_assoc(2, t0n * sr, sr * rc);
    }
    assert((t0n * sr) * (sr * rc) == (t0n * sr) * (rc * sr)) by {
        lemma_mul_comm(sr, rc);
    }
    assert((t0n * sr) * (rc * sr) == (t0n * rc) * (sr * sr)) by {
        lemma_mul_four(t0n, sr, rc, sr);
    }
    assert((sr * sr) * (t0n * rc) == (t0n * rc) * (sr * sr)) by {
        lemma_mul_comm(sr * sr, t0n * rc);
    }
    // assemble: bb * rr2 == aa * (sr * sr)
    assert(bb * rr2 == a0 * (2 * ((sr * sr) * rr)) + (ma * rc) * (sr * sr));
    assert(aa * (sr * sr) == (a0 * (2 * rr)) * (sr * sr) + (ma * rc) * (sr * sr)) by {
        lemma_mul_distrib(a0 * (2 * rr), -(ma * rc), sr * sr);
        lemma_mul_distrib(a0 * (2 * rr) + ma * rc, a0 * (2 * rr), sr * sr);
    }
    assert((a0 * (2 * rr)) * (sr * sr) == a0 * ((2 * rr) * (sr * sr))) by {
        lemma_mul_assoc(a0, 2 * rr, sr * sr);
    }
    assert((2 * rr) * (sr * sr) == 2 * (rr * (sr * sr))) by {
        lemma_mul_assoc(2, rr, sr * sr);
    }
    assert(rr * (sr * sr) == (sr * sr) * rr) by {
        lemma_mul_comm(rr, sr * sr);
    }
    assert(bb * rr2 == aa * (sr * sr));
    // close: both scaled sides equal aa * (2 * ((sr * sr) * rr))
    assert(rhs * rr2 == (aa * (sr * sr)) * (2 * rr));
    assert((aa * (sr * sr)) * (2 * rr) == aa * ((sr * sr) * (2 * rr))) by {
        lemma_mul_assoc(aa, sr * sr, 2 * rr);
    }
    assert((sr * sr) * (2 * rr) == 2 * ((sr * sr) * rr)) by {
        lemma_mul_shuffle(sr * sr, 2, rr);
        lemma_mul_assoc(2, sr * sr, rr);
    }
    assert(lhs * rr2 == aa * (2 * ((sr * sr) * rr)));
    assert(rhs * rr2 == aa * (2 * ((sr * sr) * rr)));
    assert(rr2 >= 1) by {
        lemma_mul_pos(rr, rr);
    }
    lemma_mul_cancel(lhs, rhs, rr2);
}

/// Whether the rational triple `t` (with positive denominator) lies on the
/// segment, a degenerate segment containing only its single point.
pub open spec fn seg3_contains(s: LineSegment, t: (int, int, int)) -> bool {
    if s.0 == s.1 {
        t.0 == s.0.x * t.2 && t.1 == s.0.y * t.2
    } else {
        let rx = dirx(s.0, s.1);
        let ry = diry(s.0, s.1);
        let vx = t.0 - s.0.x * t.2;
        let vy = t.1 - s.0.y * t.2;
        &&& cross2(rx, ry, vx, vy) == 0
        &&& 0 <= dot2(vx, vy, rx, ry) <= dot2(rx, ry, rx, ry) * t.2
    }
}

/// The crossing point of two non-parallel segments whose parameters both
/// pass the unit-interval test lies on both segments.
proof fn lemma_cross_point_in_range(p0: Point, p1: Point, q0: Point, q1: Point)
    requires
        den4(p0, p1, q0, q1) != 0,
        in_unit(pqs4(p0, p1, q0, q1), den4(p0, p1, q0, q1)),
        in_unit(pqr4(p0, p1, q0, q1), den4(p0, p1, q0, q1)),
    ensures
        ({
            let t = cross_point4(p0, p1, q0, q1);
            t.2 >= 1 && seg3_contains(LineSegment(p0, p1), t) && seg3_contains(
                LineSegment(q0, q1),
                t,
            )
        }),
{
    let rx = dirx(p0, p1);
    let ry = diry(p0, p1);
    let sx = dirx(q0, q1);
    let sy = diry(q0, q1);
    let pqx = dirx(p0, q0);
    let pqy = diry(p0, q0);
    let den = den4(p0, p1, q0, q1);
    let pqs = pqs4(p0, p1, q0, q1);
    let pqr = pqr4(p0, p1, q0, q1);
    let rr = dot2(rx, ry, rx, ry);
    let ss = dot2(sx, sy, sx, sy);
    lemma_cross_point_on_lines(Line(p0, p1), Line(q0, q1));
    // a degenerate operand would make the denominator zero
    if p0 == p1 {
        assert(den == 0) by (nonlinear_arith)
            requires
                den == rx * sy - ry * sx,
                rx == 0,
                ry == 0,
        ;
    }
    if q0 == q1 {
        assert(den == 0) by (nonlinear_arith)
            requires
                den == rx * sy - ry * sx,
                sx == 0,
                sy == 0,
        ;
    }
    assert(rr >= 1) by {
        lemma_sq_nonneg(rx);
        lemma_sq_nonneg(ry);
    }
    assert(ss >= 1) by {
        lemma_sq_nonneg(sx);
        lemma_sq_nonneg(sy);
    }
    let nx = p0.x * den + pqs * rx;
    let ny = p0.y * den + pqs * ry;
    // the offsets of the point from each anchor, before normalization
    assert(nx - p0.x * den == pqs * rx);
    assert(ny - p0.y * den == pqs * ry);
    assert(pqx * den == q0.x * den - p0.x * den) by {
        lemma_mul_distrib(q0.x as int, p0.x as int, den);
    }
    assert(pqy * den == q0.y * den - p0.y * den) by {
        lemma_mul_distrib(q0.y as int, p0.y as int, den);
    }
    lemma_combine_x(pqx, pqy, rx, ry, sx, sy);
    lemma_combine_y(pqx, pqy, rx, ry, sx, sy);
    assert(pqs * rx - pqr * sx == pqx * den);
    assert(pqs * ry - pqr * sy == pqy * den);
    assert(nx - q0.x * den == pqr * sx);
    assert(ny - q0.y * den == pqr * sy);
    // the projection of each offset onto its direction
    assert(dot2(pqs * rx, pqs * ry, rx, ry) == pqs * rr) by {
        lemma_mul_assoc(pqs, rx, rx);
        lemma_mul_assoc(pqs, ry, ry);
        lemma_mul_distrib_left(pqs, rx * rx, ry * ry);
    }
    assert(dot2(pqr * sx, pqr * sy, sx, sy) == pqr * ss) by {
        lemma_mul_assoc(pqr, sx, sx);
        lemma_mul_assoc(pqr, sy, sy);
        lemma_mul_distrib_left(pqr, sx * sx, sy * sy);
    }
    if den > 0 {
        assert(0 <= pqs * rr <= rr * den) by {
            lemma_mul_sign(pqs, rr);
            lemma_mul_le(pqs, den, rr);
            lemma_mul_comm(den, rr);
        }
        assert(0 <= pqr * ss <= ss * den) by {
            lemma_mul_sign(pqr, ss);
            lemma_mul_le(pqr, den, ss);
            lemma_mul_comm(den, ss);
        }
    } else {
        let t = cross_point4(p0, p1, q0, q1);
        assert(t == ((-nx, -ny, -den)));
        assert(-nx - p0.x * (-den) == -(pqs * rx)) by {
            lemma_neg_mul(p0.x as int, den);
        }
        assert(-ny - p0.y * (-den) == -(pqs * ry)) by {
            lemma_neg_mul(p0.y as int, den);
        }
        assert(-nx - q0.x * (-den) == -(pqr * sx)) by {
            lemma_neg_mul(q0.x as int, den);
        }
        assert(-ny - q0.y * (-den) == -(pqr * sy)) by {
            lemma_neg_mul(q0.y as int, den);
        }
        assert(dot2(-(pqs * rx), -(pqs * ry), rx, ry) == -(pqs * rr)) by {
            lemma_neg_mul(pqs * rx, rx as int);
            lemma_neg_mul(pqs * ry, ry as int);
        }
        assert(dot2(-(pqr * sx), -(pqr * sy), sx, sy) == -(pqr * ss)) by {
            lemma_neg_mul(pqr * sx, sx as int);
            lemma_neg_mul(pqr * sy, sy as int);
        }
        assert(0 <= -(pqs * rr) <= rr * (-den)) by {
            lemma_mul_sign(pqs, rr);
            lemma_mul_le(den, pqs, rr);
            lemma_neg_mul(den, rr);
            lemma_mul_comm(den, rr);
            lemma_neg_mul(rr, den);
        }
        assert(0 <= -(pqr * ss) <= ss * (-den)) by {
            lemma_mul_sign(pqr, ss);
            lemma_mul_le(den, pqr, ss);
            lemma_mul_comm(den, ss);
            lemma_neg_mul(ss, den);
        }
    }
}

/// The overlap midpoint of two collinear non-degenerate segments lies on
/// both of them.
proof fn lemma_seg_overlap_in_both(a: LineSegment, b: LineSegment)
    requires
        a.0 != a.1,
        b.0 != b.1,
        den4(a.0, a.1, b.0, b.1) == 0,
        pqr4(a.0, a.1, b.0, b.1) == 0,
    ensures
        match seg_overlap_point(a, b) {
            Some(t) => t.2 >= 1 && seg3_contains(a, t) && seg3_contains(b, t),
            None => true,
        },
{
    let rx = dirx(a.0, a.1);
    let ry = diry(a.0, a.1);
    let sx = dirx(b.0, b.1);
    let sy = diry(b.0, b.1);
    let pqx = dirx(a.0, b.0);
    let pqy = diry(a.0, b.0);
    let rr = dot2(rx, ry, rx, ry);
    let ss = dot2(sx, sy, sx, sy);
    let sr = dot2(sx, sy, rx, ry);
    let t0n = dot2(pqx, pqy, rx, ry);
    let t1n = t0n + sr;
    let tmin = imin(t0n, t1n);
    let tmax = imax(t0n, t1n);
    if !(tmax < 0 || tmin > rr) {
        let m = imax(tmin, 0) + imin(tmax, rr);
        let k = m - 2 * t0n;
        assert(rr >= 1) by {
            lemma_sq_nonneg(rx);
            lemma_sq_nonneg(ry);
        }
        assert(ss >= 1) by {
            lemma_sq_nonneg(sx);
            lemma_sq_nonneg(sy);
        }
        assert(pqx * ry - pqy * rx == 0);
        lemma_collinear_decomp(pqx, pqy, rx, ry);
        assert(pqx * rr == t0n * rx);
        assert(pqy * rr == t0n * ry);
        assert(sx * ry - sy * rx == 0) by {
            lemma_cross_swap(rx, ry, sx, sy);
        }
        lemma_collinear_decomp(sx, sy, rx, ry);
        assert(sx * rr == sr * rx);
        assert(sy * rr == sr * ry);
        assert(ss * rr == (sx * sx) * rr + (sy * sy) * rr) by {
            lemma_mul_distrib(sx * sx, sy * sy, rr);
        }
        assert((sx * sx) * rr == sr * (sx * rx)) by {
            lemma_mul_assoc(sx, sx, rr);
            lemma_mul_shuffle(sx, sr, rx);
        }
        assert((sy * sy) * rr == sr * (sy * ry)) by {
            lemma_mul_assoc(sy, sy, rr);
            lemma_mul_shuffle(sy, sr, ry);
        }
        assert(ss * rr == sr * sr) by {
            lemma_mul_distrib_left(sr, sx * rx, sy * ry);
        }
        assert(sr != 0) by {
            if sr == 0 {
                lemma_zero_mul(rx);
                lemma_zero_mul(ry);
                assert(sx * rr == 0);
                assert(sy * rr == 0);
                lemma_zero_factor(sx, rr);
                lemma_zero_factor(sy, rr);
            }
        }
        let t = seg_overlap_point(a, b)->Some_0;
        assert(t == ((a.0.x * (2 * rr) + m * rx, a.0.y * (2 * rr) + m * ry, 2 * rr)));
        // offset from the first segment's anchor: m times its direction
        assert(t.0 - a.0.x * t.2 == m * rx);
        assert(t.1 - a.0.y * t.2 == m * ry);
        assert(cross2(rx, ry, m * rx, m * ry) == 0) by {
            lemma_mul_shuffle(rx, m, ry);
            lemma_mul_shuffle(ry, m, rx);
            lemma_mul_comm(rx, ry);
        }
        assert(dot2(m * rx, m * ry, rx, ry) == m * rr) by {
            lemma_mul_assoc(m, rx, rx);
            lemma_mul_assoc(m, ry, ry);
            lemma_mul_distrib_left(m, rx * rx, ry * ry);
        }
        assert(0 <= m <= 2 * rr);
        assert(0 <= m * rr <= rr * (2 * rr)) by {
            lemma_mul_sign(m, rr);
            lemma_mul_le(m, 2 * rr, rr);
            lemma_mul_comm(2 * rr, rr);
        }
        // offset from the second segment's anchor: (m - 2 t0n) times the
        // first direction
        assert(pqx * (2 * rr) == 2 * (t0n * rx)) by {
            lemma_mul_shuffle(pqx, 2, rr);
        }
        assert(pqy * (2 * rr) == 2 * (t0n * ry)) by {
            lemma_mul_shuffle(pqy, 2, rr);
        }
        assert(b.0.x * (2 * rr) == a.0.x * (2 * rr) + 2 * (t0n * rx)) by {
            lemma_mul_distrib(b.0.x as int, a.0.x as int, 2 * rr);
        }
        assert(b.0.y * (2 * rr) == a.0.y * (2 * rr) + 2 * (t0n * ry)) by {
            lemma_mul_distrib(b.0.y as int, a.0.y as int, 2 * rr);
        }
        assert(t.0 - b.0.x * t.2 == k * rx) by {
            lemma_mul_distrib(m, 2 * t0n, rx as int);
            lemma_mul_assoc(2, t0n, rx as int);
        }
        assert(t.1 - b.0.y * t.2 == k * ry) by {
            lemma_mul_distrib(m, 2 * t0n, ry as int);
            lemma_mul_assoc(2, t0n, ry as int);
        }
        assert(cross2(sx, sy, k * rx, k * ry) == 0) by {
            lemma_mul_shuffle(sx, k, ry);
            lemma_mul_shuffle(sy, k, rx);
            lemma_mul_distrib_left(k, sx * ry, sy * rx);
            lemma_zero_mul(k);
        }
        assert(dot2(k * rx, k * ry, sx, sy) == k * sr) by {
            lemma_mul_shuffle(k, rx, sx);
            lemma_mul_shuffle(k, ry, sy);
            assert(k * (rx * sx) + k * (ry * sy) == k * (rx * sx + ry * sy)) by {
                lemma_mul_distrib_left(k, rx * sx, ry * sy);
            }
            assert(rx * sx + ry * sy == sr) by {
                lemma_mul_comm(rx, sx);
                lemma_mul_comm(ry, sy);
            }
            assert((k * rx) * sx == k * (rx * sx)) by {
                lemma_mul_assoc(k, rx, sx);
            }
            assert((k * ry) * sy == k * (ry * sy)) by {
                lemma_mul_assoc(k, ry, sy);
            }
        }
        assert(2 * (sr * sr) == ss * (2 * rr)) by {
            lemma_mul_shuffle(ss, 2, rr);
        }
        if sr > 0 {
            assert(0 <= k <= 2 * sr);
            assert(0 <= k * sr) by {
                lemma_mul_sign(k, sr);
            }
            assert(k * sr <= 2 * (sr * sr)) by {
                lemma_mul_le(k, 2 * sr, sr);
                lemma_mul_assoc(2, sr, sr);
            }
        } else {
            let c = -sr;
            assert(2 * sr <= k <= 0);
            assert(k * sr == -(k * c)) by {
                lemma_neg_mul(k, c);
            }
            assert(0 <= k * sr) by {
                lemma_mul_sign(k, c);
            }
            assert(k * sr <= 2 * (sr * sr)) by {
                lemma_mul_le(2 * sr, k, c);
                lemma_neg_mul(2 * sr, c);
                lemma_mul_assoc(2, sr, sr);
                assert((2 * sr) * sr == -((2 * sr) * c)) by {
                    lemma_neg_mul(2 * sr, c);
                }
            }
        }
    }
}

/// Law: every point the segment-segment intersection returns lies on both
/// segments, and its denominator is positive.
#[verifier::rlimit(50)]
pub proof fn lemma_seg_seg_on_both(a: LineSegment, b: LineSegment)
    ensures
        seg_seg_point(a, b) matches Some(t) ==> t.2 >= 1 && seg3_contains(a, t)
            && seg3_contains(b, t),
{
    let rx = dirx(a.0, a.1);
    let ry = diry(a.0, a.1);
    let sx = dirx(b.0, b.1);
    let sy = diry(b.0, b.1);
    let pqx = dirx(a.0, b.0);
    let pqy = diry(a.0, b.0);
    let den = den4(a.0, a.1, b.0, b.1);
    let pqs = pqs4(a.0, a.1, b.0, b.1);
    let pqr = pqr4(a.0, a.1, b.0, b.1);
    if den != 0 {
        if in_unit(pqs, den) && in_unit(pqr, den) {
            lemma_cross_point_in_range(a.0, a.1, b.0, b.1);
            assert(a == (LineSegment(a.0, a.1)));
            assert(b == (LineSegment(b.0, b.1)));
        }
    } else if a.0 != a.1 && b.0 != b.1 {
        if pqr == 0 {
            lemma_seg_overlap_in_both(a, b);
        }
    } else if a.0 == a.1 && b.0 != b.1 {
        if pqs == 0 {
            let t = int3(a.0);
            assert(cross2(sx, sy, t.0 - b.0.x * 1, t.1 - b.0.y * 1) == pqs) by {
                lemma_on_other_from_pqs(a.0.x as int, a.0.y as int, b.0.x as int, b.0.y as int,
                    sx, sy);
            }
            assert(dot2(t.0 - b.0.x * 1, t.1 - b.0.y * 1, sx, sy) == -dot2(pqx, pqy, sx, sy))
                by {
                lemma_neg_mul(pqx, sx);
                lemma_neg_mul(pqy, sy);
            }
            assert(dot2(sx, sy, sx, sy) >= 1) by {
                lemma_sq_nonneg(sx);
                lemma_sq_nonneg(sy);
            }
        }
    } else if a.0 != a.1 && b.0 == b.1 {
        if pqr == 0 {
            let t = int3(b.0);
            assert(cross2(rx, ry, t.0 - a.0.x * 1, t.1 - a.0.y * 1) == -pqr) by {
                lemma_on_other_from_pqr(a.0.x as int, a.0.y as int, b.0.x as int, b.0.y as int,
                    rx, ry);
            }
            assert(dot2(t.0 - a.0.x * 1, t.1 - a.0.y * 1, rx, ry) == dot2(pqx, pqy, rx, ry));
            assert(dot2(rx, ry, rx, ry) >= 1) by {
                lemma_sq_nonneg(rx);
                lemma_sq_nonneg(ry);
            }
        }
    }
}

/// Law: every point the segment-line intersection returns lies on the
/// segment and on the line, and its denominator is positive.
pub proof fn lemma_seg_line_on_both(a: LineSegment, b: Line)
    ensures
        seg_line_point(a, b) matches Some(t) ==> t.2 >= 1 && seg3_contains(a, t)
            && line3_contains(b, t),
{
    let rx = dirx(a.0, a.1);
    let ry = diry(a.0, a.1);
    let sx = dirx(b.0, b.1);
    let sy = diry(b.0, b.1);
    let pqx = dirx(a.0, b.0);
    let pqy = diry(a.0, b.0);
    let den = den4(a.0, a.1, b.0, b.1);
    let pqs = pqs4(a.0, a.1, b.0, b.1);
    let pqr = pqr4(a.0, a.1, b.0, b.1);
    let rr = dot2(rx, ry, rx, ry);
    if den != 0 {
        if in_unit(pqs, den) {
            lemma_cross_point_on_lines(Line(a.0, a.1), Line(b.0, b.1));
            assert(b == (Line(b.0, b.1)));
            // a degenerate segment would make the denominator zero
            if a.0 == a.1 {
                assert(den == 0) by (nonlinear_arith)
                    requires
                        den == rx * sy - ry * sx,
                        rx == 0,
                        ry == 0,
                ;
            }
            assert(rr >= 1) by {
                lemma_sq_nonneg(rx);
                lemma_sq_nonneg(ry);
            }
            let nx = a.0.x * den + pqs * rx;
            let ny = a.0.y * den + pqs * ry;
            assert(nx - a.0.x * den == pqs * rx);
            assert(ny - a.0.y * den == pqs * ry);
            assert(dot2(pqs * rx, pqs * ry, rx, ry) == pqs * rr) by {
                lemma_mul_assoc(pqs, rx, rx);
                lemma_mul_assoc(pqs, ry, ry);
                lemma_mul_distrib_left(pqs, rx * rx, ry * ry);
            }
            if den > 0 {
                assert(0 <= pqs * rr <= rr * den) by {
                    lemma_mul_sign(pqs, rr);
                    lemma_mul_le(pqs, den, rr);
                    lemma_mul_comm(den, rr);
                }
            } else {
                let t = cross_point4(a.0, a.1, b.0, b.1);
                assert(t == ((-nx, -ny, -den)));
                assert(-nx - a.0.x * (-den) == -(pqs * rx)) by {
                    lemma_neg_mul(a.0.x as int, den);
                }
                assert(-ny - a.0.y * (-den) == -(pqs * ry)) by {
                    lemma_neg_mul(a.0.y as int, den);
                }
                assert(dot2(-(pqs * rx), -(pqs * ry), rx, ry) == -(pqs * rr)) by {
                    lemma_neg_mul(pqs * rx, rx as int);
                    lemma_neg_mul(pqs * ry, ry as int);
                }
                assert(0 <= -(pqs * rr) <= rr * (-den)) by {
                    lemma_mul_sign(pqs, rr);
                    lemma_mul_le(den, pqs, rr);
                    lemma_mul_comm(den, rr);
                    lemma_neg_mul(rr, den);
                }
            }
        }
    } else if a.0 != a.1 && b.0 != b.1 {
        if pqs == 0 {
            let t = mid3(a.0, a.1);
            // the midpoint lies halfway along the segment
            assert(t.0 - a.0.x * 2 == rx);
            assert(t.1 - a.0.y * 2 == ry);
            assert(cross2(rx, ry, rx, ry) == 0) by {
                lemma_mul_comm(rx, ry);
            }
            assert(rr >= 0) by {
                lemma_sq_nonneg(rx);
                lemma_sq_nonneg(ry);
            }
            assert(dot2(rx, ry, rx, ry) <= dot2(rx, ry, rx, ry) * 2);
            // and on the coincident carrier line
            assert(t.0 - b.0.x * 2 == rx - 2 * pqx);
            assert(t.1 - b.0.y * 2 == ry - 2 * pqy);
            assert(cross2(sx, sy, rx - 2 * pqx, ry - 2 * pqy) == 0) by {
                lemma_mul_distrib_left(sx as int, ry, 2 * pqy);
                lemma_mul_distrib_left(sy as int, rx, 2 * pqx);
                assert(sx * (2 * pqy) == 2 * (sx * pqy)) by {
                    lemma_mul_shuffle(sx as int, 2, pqy);
                }
                assert(sy * (2 * pqx) == 2 * (sy * pqx)) by {
                    lemma_mul_shuffle(sy as int, 2, pqx);
                }
                assert(sx * ry - sy * rx == -den) by {
                    lemma_cross_swap(rx, ry, sx, sy);
                }
                assert(sy * pqx - sx * pqy == pqs) by {
                    lemma_cross_swap(sx, sy, pqx, pqy);
                }
            }
        }
    } else if a.0 == a.1 && b.0 != b.1 {
        if pqs == 0 {
            let t = int3(a.0);
            assert(cross2(sx, sy, t.0 - b.0.x * 1, t.1 - b.0.y * 1) == pqs) by {
                lemma_on_other_from_pqs(a.0.x as int, a.0.y as int, b.0.x as int, b.0.y as int,
                    sx, sy);
            }
        }
    } else if a.0 != a.1 && b.0 == b.1 {
        if pqr == 0 && in_unit(dot2(pqx, pqy, rx, ry), rr) {
            let t = int3(b.0);
            assert(cross2(rx, ry, t.0 - a.0.x * 1, t.1 - a.0.y * 1) == -pqr) by {
                lemma_on_other_from_pqr(a.0.x as int, a.0.y as int, b.0.x as int, b.0.y as int,
                    rx, ry);
            }
            assert(dot2(t.0 - a.0.x * 1, t.1 - a.0.y * 1, rx, ry) == dot2(pqx, pqy, rx, ry));
            assert(rr >= 1) by {
                lemma_sq_nonneg(rx);
                lemma_sq_nonneg(ry);
            }
        }
    }
}

/// Law: an integer point lies on a line exactly when its unit-denominator
/// rational triple does, so `Line::contains` and the intersection laws speak
/// of the same notion of incidence.
pub proof fn lemma_line_contains_int3(l: Line, p: Point)
    ensures
        l.contains_spec(p) == line3_contains(l, int3(p)),
{
    if l.0 == l.1 {
        assert(p.x * 1 == p.x as int && p.y * 1 == p.y as int);
        assert(l.0.x * 1 == l.0.x as int && l.0.y * 1 == l.0.y as int);
    } else {
        assert(p.x - l.0.x * 1 == dirx(l.0, p));
        assert(p.y - l.0.y * 1 == diry(l.0, p));
    }
}

/// Law: an integer point lies on a segment exactly when its unit-denominator
/// rational triple does, so `LineSegment::contains` and the intersection
/// laws speak of the same notion of incidence.
pub proof fn lemma_seg_contains_int3(s: LineSegment, p: Point)
    ensures
        s.contains_spec(p) == seg3_contains(s, int3(p)),
{
    if s.0 == s.1 {
        assert(p.x * 1 == p.x as int && p.y * 1 == p.y as int);
        assert(s.0.x * 1 == s.0.x as int && s.0.y * 1 == s.0.y as int);
    } else {
        let rx = dirx(s.0, s.1);
        let ry = diry(s.0, s.1);
        assert(p.x - s.0.x * 1 == dirx(s.0, p));
        assert(p.y - s.0.y * 1 == diry(s.0, p));
        assert(dot2(rx, ry, rx, ry) * 1 == dot2(rx, ry, rx, ry));
    }
}

/// A parameter whose product with the positive scales `d` and `qq` equals a
/// projection lying within `[0, qq * d]` times `den` lies itself within the
/// unit interval over `den`.
proof fn lemma_unit_from_projection(pp: int, d: int, qq: int, proj: int, den: int)
    requires
        d >= 1,
        qq >= 1,
        den != 0,
        (pp * d) * qq == proj * den,
        0 <= proj <= qq * d,
    ensures
        in_unit(pp, den),
{
    if den > 0 {
        assert(0 <= proj * den) by {
            lemma_mul_sign(proj, den);
        }
        assert(proj * den <= (qq * d) * den) by {
            lemma_mul_le(proj, qq * d, den);
        }
        assert((qq * d) * den == (d * den) * qq) by {
            lemma_mul_assoc(qq, d, den);
            lemma_mul_comm(qq, d * den);
        }
        assert(pp * d >= 0) by {
            lemma_mul_sign(pp * d, qq);
        }
        assert(pp >= 0) by {
            lemma_mul_sign(pp, d);
        }
        assert(pp * d <= d * den) by {
            lemma_mul_le(pp * d, d * den, qq);
        }
        assert(pp <= den) by {
            lemma_mul_comm(d, den);
            lemma_mul_le(pp, den, d);
        }
    } else {
        let c = -den;
        assert(proj * den <= 0) by {
            lemma_mul_sign(proj, c);
            lemma_neg_mul(proj, c);
            assert(proj * den == -(proj * c)) by {
                lemma_neg_mul(proj, c);
            }
        }
        assert(proj * den >= (qq * d) * den) by {
            lemma_mul_le(proj, qq * d, c);
            lemma_neg_mul(proj, c);
            lemma_neg_mul(qq * d, c);
            assert(proj * den == -(proj * c));
            assert((qq * d) * den == -((qq * d) * c));
        }
        assert((qq * d) * den == (d * den) * qq) by {
            lemma_mul_assoc(qq, d, den);
            lemma_mul_comm(qq, d * den);
        }
        assert(pp * d <= 0) by {
            lemma_mul_sign(pp * d, qq);
        }
        assert(pp <= 0) by {
            lemma_mul_sign(pp, d);
        }
        assert(pp * d >= d * den) by {
            lemma_mul_le(d * den, pp * d, qq);
        }
        assert(pp >= den) by {
            lemma_mul_comm(d, den);
            lemma_mul_le(den, pp, d);
        }
    }
}

/// Law: the segment-line intersection is `None` only when the two really
/// share no point: any rational point lying on the segment and on the line
/// forces a result.
#[verifier::rlimit(50)]
pub proof fn lemma_seg_line_complete(a: LineSegment, b: Line, t: (int, int, int))
    requires
        t.2 >= 1,
        seg3_contains(a, t),
        line3_contains(b, t),
    ensures
        seg_line_point(a, b) is Some,
{
    let rx = dirx(a.0, a.1);
    let ry = diry(a.0, a.1);
    let sx = dirx(b.0, b.1);
    let sy = diry(b.0, b.1);
    let pqx = dirx(a.0, b.0);
    let pqy = diry(a.0, b.0);
    let den = den4(a.0, a.1, b.0, b.1);
    let pqs = pqs4(a.0, a.1, b.0, b.1);
    let pqr = pqr4(a.0, a.1, b.0, b.1);
    let rr = dot2(rx, ry, rx, ry);
    let d = t.2;
    let vx = t.0 - a.0.x * d;
    let vy = t.1 - a.0.y * d;
    let wx = t.0 - b.0.x * d;
    let wy = t.1 - b.0.y * d;
    let vr = dot2(vx, vy, rx, ry);
    assert(vx - wx == pqx * d) by {
        lemma_mul_distrib(b.0.x as int, a.0.x as int, d);
    }
    assert(vy - wy == pqy * d) by {
        lemma_mul_distrib(b.0.y as int, a.0.y as int, d);
    }
    if a.0 != a.1 && b.0 != b.1 {
        assert(rr >= 1) by {
            lemma_sq_nonneg(rx);
            lemma_sq_nonneg(ry);
        }
        assert(vx * ry - vy * rx == 0) by {
            lemma_mul_comm(vx, ry);
            lemma_mul_comm(vy, rx);
        }
        lemma_collinear_decomp(vx, vy, rx, ry);
        assert(vx * rr == vr * rx);
        assert(vy * rr == vr * ry);
        assert(pqs * d == vx * sy - vy * sx) by {
            assert(sx * wy - sy * wx == 0);
            lemma_mul_comm(wx, sy);
            lemma_mul_comm(wy, sx);
            lemma_mul_distrib(vx, wx, sy);
            lemma_mul_distrib(vy, wy, sx);
            assert((pqx * d) * sy == (pqx * sy) * d) by {
                lemma_mul_assoc(pqx, d, sy);
                lemma_mul_comm(d, sy);
                lemma_mul_assoc(pqx, sy, d);
            }
            assert((pqy * d) * sx == (pqy * sx) * d) by {
                lemma_mul_assoc(pqy, d, sx);
                lemma_mul_comm(d, sx);
                lemma_mul_assoc(pqy, sx, d);
            }
            lemma_mul_distrib(pqx * sy, pqy * sx, d);
            lemma_mul_comm(pqs, d);
        }
        assert((pqs * d) * rr == vr * den) by {
            assert((vx * sy - vy * sx) * rr == (vx * rr) * sy - (vy * rr) * sx) by {
                lemma_mul_distrib(vx * sy, vy * sx, rr);
                lemma_mul_assoc(vx, sy, rr);
                lemma_mul_comm(sy, rr);
                lemma_mul_assoc(vx, rr, sy);
                lemma_mul_assoc(vy, sx, rr);
                lemma_mul_comm(sx, rr);
                lemma_mul_assoc(vy, rr, sx);
            }
            assert((vr * rx) * sy - (vr * ry) * sx == vr * den) by {
                lemma_mul_assoc(vr, rx, sy);
                lemma_mul_assoc(vr, ry, sx);
                lemma_mul_distrib_left(vr, rx * sy, ry * sx);
            }
        }
        if den != 0 {
            lemma_unit_from_projection(pqs, d, rr, vr, den);
            assert(seg_line_point(a, b) is Some);
        } else {
            // parallel and sharing a point: coincident
            assert(vr * den == 0) by {
                lemma_zero_mul(vr);
            }
            lemma_zero_factor(pqs * d, rr);
            lemma_zero_factor(pqs, d);
            assert(seg_line_point(a, b) is Some);
        }
    } else if a.0 == a.1 && b.0 != b.1 {
        assert(wx == -(pqx * d) && wy == -(pqy * d));
        assert(sx * wy - sy * wx == 0);
        assert(pqs * d == 0) by {
            lemma_neg_mul(sx as int, pqy * d);
            lemma_neg_mul(sy as int, pqx * d);
            lemma_mul_shuffle(sx as int, pqy, d);
            lemma_mul_shuffle(sy as int, pqx, d);
            lemma_mul_comm(pqy, sx as int);
            lemma_mul_comm(pqx, sy as int);
            lemma_mul_distrib(pqx * sy, pqy * sx, d);
            lemma_mul_comm(pqs, d);
        }
        lemma_zero_factor(pqs, d);
        assert(seg_line_point(a, b) is Some);
    } else if a.0 != a.1 && b.0 == b.1 {
        let t0n = dot2(pqx, pqy, rx, ry);
        assert(den == 0) by {
            lemma_zero_mul(rx);
            lemma_zero_mul(ry);
        }
        assert(rr >= 1) by {
            lemma_sq_nonneg(rx);
            lemma_sq_nonneg(ry);
        }
        assert(vx == pqx * d && vy == pqy * d);
        assert(rx * vy - ry * vx == 0);
        assert(pqr * d == 0) by {
            lemma_mul_shuffle(rx as int, pqy, d);
            lemma_mul_shuffle(ry as int, pqx, d);
            lemma_mul_comm(pqy, rx as int);
            lemma_mul_comm(pqx, ry as int);
            lemma_mul_distrib(pqy * rx, pqx * ry, d);
            lemma_mul_distrib(pqx * ry, pqy * rx, d);
            lemma_mul_comm(pqr, d);
            lemma_neg_mul(pqr, d);
        }
        lemma_zero_factor(pqr, d);
        assert(vr == t0n * d) by {
            assert((pqx * d) * rx == (pqx * rx) * d) by {
                lemma_mul_assoc(pqx, d, rx);
                lemma_mul_comm(d, rx);
                lemma_mul_assoc(pqx, rx, d);
            }
            assert((pqy * d) * ry == (pqy * ry) * d) by {
                lemma_mul_assoc(pqy, d, ry);
                lemma_mul_comm(d, ry);
                lemma_mul_assoc(pqy, ry, d);
            }
            lemma_mul_distrib(pqx * rx, pqy * ry, d);
            lemma_mul_comm(t0n, d);
        }
        assert(in_unit(t0n, rr)) by {
            lemma_mul_sign(t0n, d);
            lemma_mul_le(t0n, rr, d);
            lemma_mul_comm(rr, d);
        }
        assert(seg_line_point(a, b) is Some);
    } else {
        assert(a.0.x * d == b.0.x * d && a.0.y * d == b.0.y * d);
        lemma_mul_cancel(a.0.x as int, b.0.x as int, d);
        lemma_mul_cancel(a.0.y as int, b.0.y as int, d);
        assert(a.0 == b.0);
    }
}

/// Law: the segment-segment intersection is `None` only when the segments
/// really share no point: any rational point lying on both segments forces a
/// result.
#[verifier::rlimit(50)]
pub proof fn lemma_seg_seg_complete(a: LineSegment, b: LineSegment, t: (int, int, int))
    requires
        t.2 >= 1,
        seg3_contains(a, t),
        seg3_contains(b, t),
    ensures
        seg_seg_point(a, b) is Some,
{
    let rx = dirx(a.0, a.1);
    let ry = diry(a.0, a.1);
    let sx = dirx(b.0, b.1);
    let sy = diry(b.0, b.1);
    let pqx = dirx(a.0, b.0);
    let pqy = diry(a.0, b.0);
    let den = den4(a.0, a.1, b.0, b.1);
    let pqs = pqs4(a.0, a.1, b.0, b.1);
    let pqr = pqr4(a.0, a.1, b.0, b.1);
    let rr = dot2(rx, ry, rx, ry);
    let ss = dot2(sx, sy, sx, sy);
    let sr = dot2(sx, sy, rx, ry);
    let d = t.2;
    let vx = t.0 - a.0.x * d;
    let vy = t.1 - a.0.y * d;
    let wx = t.0 - b.0.x * d;
    let wy = t.1 - b.0.y * d;
    let vr = dot2(vx, vy, rx, ry);
    let ws = dot2(wx, wy, sx, sy);
    let wr = dot2(wx, wy, rx, ry);
    assert(vx - wx == pqx * d) by {
        lemma_mul_distrib(b.0.x as int, a.0.x as int, d);
    }
    assert(vy - wy == pqy * d) by {
        lemma_mul_distrib(b.0.y as int, a.0.y as int, d);
    }
    if a.0 != a.1 && b.0 != b.1 {
        assert(rr >= 1 && ss >= 1) by {
            lemma_sq_nonneg(rx);
            lemma_sq_nonneg(ry);
            lemma_sq_nonneg(sx);
            lemma_sq_nonneg(sy);
        }
        // the point offsets are collinear with the directions
        assert(vx * ry - vy * rx == 0) by {
            lemma_mul_comm(vx, ry);
            lemma_mul_comm(vy, rx);
        }
        lemma_collinear_decomp(vx, vy, rx, ry);
        assert(vx * rr == vr * rx);
        assert(vy * rr == vr * ry);
        assert(wx * sy - wy * sx == 0) by {
            lemma_mul_comm(wx, sy);
            lemma_mul_comm(wy, sx);
        }
        lemma_collinear_decomp(wx, wy, sx, sy);
        assert(wx * ss == ws * sx);
        assert(wy * ss == ws * sy);
        // the offset between the anchors, scaled by d, in cross products
        assert((pqs * d) * rr == vr * den) by {
            assert(pqs * d == vx * sy - vy * sx) by {
                lemma_mul_distrib(vx, wx, sy);
                lemma_mul_distrib(vy, wy, sx);
                assert((pqx * d) * sy == (pqx * sy) * d) by {
                    lemma_mul_assoc(pqx, d, sy);
                    lemma_mul_comm(d, sy);
                    lemma_mul_assoc(pqx, sy, d);
                }
                assert((pqy * d) * sx == (pqy * sx) * d) by {
                    lemma_mul_assoc(pqy, d, sx);
                    lemma_mul_comm(d, sx);
                    lemma_mul_assoc(pqy, sx, d);
                }
                lemma_mul_distrib(pqx * sy, pqy * sx, d);
                lemma_mul_comm(pqs, d);
            }
            assert((vx * sy - vy * sx) * rr == (vx * rr) * sy - (vy * rr) * sx) by {
                lemma_mul_distrib(vx * sy, vy * sx, rr);
                lemma_mul_assoc(vx, sy, rr);
                lemma_mul_comm(sy, rr);
                lemma_mul_assoc(vx, rr, sy);
                lemma_mul_assoc(vy, sx, rr);
                lemma_mul_comm(sx, rr);
                lemma_mul_assoc(vy, rr, sx);
            }
            assert((vr * rx) * sy - (vr * ry) * sx == vr * den) by {
                lemma_mul_assoc(vr, rx, sy);
                lemma_mul_assoc(vr, ry, sx);
                lemma_mul_distrib_left(vr, rx * sy, ry * sx);
            }
        }
        // and likewise against the second direction
        assert(pqr * d == -(wx * ry - wy * rx)) by {
            assert(vx * ry - vy * rx == 0);
            lemma_mul_distrib(vx, wx, ry);
            lemma_mul_distrib(vy, wy, rx);
            assert((pqx * d) * ry == (pqx * ry) * d) by {
                lemma_mul_assoc(pqx, d, ry);
                lemma_mul_comm(d, ry);
                lemma_mul_assoc(pqx, ry, d);
            }
            assert((pqy * d) * rx == (pqy * rx) * d) by {
                lemma_mul_assoc(pqy, d, rx);
                lemma_mul_comm(d, rx);
                lemma_mul_assoc(pqy, rx, d);
            }
            lemma_mul_distrib(pqx * ry, pqy * rx, d);
            lemma_mul_comm(pqr, d);
        }
        assert((pqr * d) * ss == ws * den) by {
            assert((wx * ry - wy * rx) * ss == (wx * ss) * ry - (wy * ss) * rx) by {
                lemma_mul_distrib(wx * ry, wy * rx, ss);
                lemma_mul_assoc(wx, ry, ss);
                lemma_mul_comm(ry, ss);
                lemma_mul_assoc(wx, ss, ry);
                lemma_mul_assoc(wy, rx, ss);
                lemma_mul_comm(rx, ss);
                lemma_mul_assoc(wy, ss, rx);
            }
            assert((ws * sx) * ry - (ws * sy) * rx == -(ws * den)) by {
                lemma_mul_assoc(ws, sx, ry);
                lemma_mul_assoc(ws, sy, rx);
                lemma_mul_distrib_left(ws, sx * ry, sy * rx);
                assert(sx * ry - sy * rx == -den) by {
                    lemma_cross_swap(rx, ry, sx, sy);
                }
                lemma_neg_mul(ws, den);
            }
            assert((-(wx * ry - wy * rx)) * ss == -((wx * ry - wy * rx) * ss)) by {
                lemma_neg_mul(wx * ry - wy * rx, ss);
            }
        }
        if den != 0 {
            lemma_unit_from_projection(pqs, d, rr, vr, den);
            lemma_unit_from_projection(pqr, d, ss, ws, den);
        } else {
            // collinear: the anchors' offset crosses with the first
            // direction to zero, and the shared point puts the parameter
            // intervals in contact
            let t0n = dot2(pqx, pqy, rx, ry);
            let t1n = t0n + sr;
            assert(ws * den == 0) by {
                lemma_zero_mul(ws);
            }
            lemma_zero_factor(pqr * d, ss);
            lemma_zero_factor(pqr, d);
            // w is collinear with the first direction as well
            assert(wx * ry - wy * rx == 0) by {
                assert(pqr * d == -(wx * ry - wy * rx));
            }
            lemma_collinear_decomp(wx, wy, rx, ry);
            assert(wx * rr == wr * rx);
            assert(wy * rr == wr * ry);
            // relate the two projections of w
            assert(ws * rr == wr * sr) by {
                assert(ws * rr == sx * (wx * rr) + sy * (wy * rr)) by {
                    lemma_mul_distrib(wx * sx, wy * sy, rr);
                    lemma_mul_assoc(wx, sx, rr);
                    lemma_mul_comm(sx, rr);
                    lemma_mul_assoc(wx, rr, sx);
                    lemma_mul_comm(wx * rr, sx as int);
                    lemma_mul_assoc(wy, sy, rr);
                    lemma_mul_comm(sy, rr);
                    lemma_mul_assoc(wy, rr, sy);
                    lemma_mul_comm(wy * rr, sy as int);
                }
                assert(sx * (wr * rx) == wr * (sx * rx)) by {
                    lemma_mul_shuffle(sx as int, wr, rx);
                }
                assert(sy * (wr * ry) == wr * (sy * ry)) by {
                    lemma_mul_shuffle(sy as int, wr, ry);
                }
                assert(wr * (sx * rx) + wr * (sy * ry) == wr * sr) by {
                    lemma_mul_distrib_left(wr, sx * rx, sy * ry);
                }
            }
            // the offset between the anchors along the first direction
            assert(vr - wr == t0n * d) by {
                lemma_mul_distrib(vx, wx, rx);
                lemma_mul_distrib(vy, wy, ry);
                assert((pqx * d) * rx == (pqx * rx) * d) by {
                    lemma_mul_assoc(pqx, d, rx);
                    lemma_mul_comm(d, rx);
                    lemma_mul_assoc(pqx, rx, d);
                }
                assert((pqy * d) * ry == (pqy * ry) * d) by {
                    lemma_mul_assoc(pqy, d, ry);
                    lemma_mul_comm(d, ry);
                    lemma_mul_assoc(pqy, ry, d);
                }
                lemma_mul_distrib(pqx * rx, pqy * ry, d);
                lemma_mul_comm(t0n, d);
            }
            // the second direction decomposed along the first
            assert(sx * ry - sy * rx == 0) by {
                lemma_cross_swap(rx, ry, sx, sy);
            }
            lemma_collinear_decomp(sx, sy, rx, ry);
            assert(sx * rr == sr * rx);
            assert(sy * rr == sr * ry);
            assert(ss * rr == sr * sr) by {
                lemma_mul_distrib(sx * sx, sy * sy, rr);
                lemma_mul_assoc(sx, sx, rr);
                lemma_mul_shuffle(sx as int, sr, rx);
                lemma_mul_assoc(sy, sy, rr);
                lemma_mul_shuffle(sy as int, sr, ry);
                lemma_mul_distrib_left(sr, sx * rx, sy * ry);
            }
            assert(sr != 0) by {
                if sr == 0 {
                    lemma_zero_mul(rx);
                    lemma_zero_mul(ry);
                    assert(sx * rr == 0);
                    assert(sy * rr == 0);
                    lemma_zero_factor(sx, rr);
                    lemma_zero_factor(sy, rr);
                }
            }
            assert((ss * d) * rr == (sr * d) * sr) by {
                lemma_mul_assoc(ss, d, rr);
                lemma_mul_comm(d, rr);
                lemma_mul_assoc(ss, rr, d);
                lemma_mul_assoc(sr, sr, d);
                lemma_mul_assoc(sr, d, sr);
                lemma_mul_comm(d, sr);
            }
            if sr > 0 {
                assert(wr >= 0) by {
                    lemma_mul_sign(ws, rr);
                    lemma_mul_sign(wr, sr);
                }
                assert(t0n * d <= rr * d);
                assert(t0n <= rr) by {
                    lemma_mul_le(t0n, rr, d);
                }
                assert(wr * sr <= (sr * d) * sr) by {
                    lemma_mul_le(ws, ss * d, rr);
                }
                assert(wr <= sr * d) by {
                    lemma_mul_le(wr, sr * d, sr);
                }
                assert(t1n * d >= 0) by {
                    lemma_mul_distrib(t0n, sr, d);
                    lemma_mul_sign(vr, rr);
                }
                assert(t1n >= 0) by {
                    lemma_mul_sign(t1n, d);
                }
            } else {
                let c = -sr;
                assert(wr <= 0) by {
                    lemma_mul_sign(ws, rr);
                    assert(wr * sr == -(wr * c)) by {
                        lemma_neg_mul(wr, c);
                    }
                    lemma_mul_sign(wr, c);
                }
                assert(t0n * d >= 0);
                assert(t0n >= 0) by {
                    lemma_mul_sign(t0n, d);
                }
                assert(wr * sr <= (sr * d) * sr) by {
                    lemma_mul_le(ws, ss * d, rr);
                }
                assert(wr >= sr * d) by {
                    assert(wr * sr == -(wr * c)) by {
                        lemma_neg_mul(wr, c);
                    }
                    assert((sr * d) * sr == -((sr * d) * c)) by {
                        lemma_neg_mul(sr * d, c);
                    }
                    lemma_mul_le(sr * d, wr, c);
                }
                assert(t1n * d <= rr * d) by {
                    lemma_mul_distrib(t0n, sr, d);
                }
                assert(t1n <= rr) by {
                    lemma_mul_le(t1n, rr, d);
                }
            }
            assert(!(imax(t0n, t1n) < 0 || imin(t0n, t1n) > rr));
        }
    } else if a.0 == a.1 && b.0 != b.1 {
        // the shared point is the degenerate segment's single point; it
        // lies on the other segment, which is exactly the tested condition
        let ps = dot2(pqx, pqy, sx, sy);
        assert(ss >= 1) by {
            lemma_sq_nonneg(sx);
            lemma_sq_nonneg(sy);
        }
        assert(wx == -(pqx * d) && wy == -(pqy * d));
        assert(sx * wy - sy * wx == 0);
        assert(pqs * d == 0) by {
            lemma_neg_mul(sx as int, pqy * d);
            lemma_neg_mul(sy as int, pqx * d);
            lemma_mul_shuffle(sx as int, pqy, d);
            lemma_mul_shuffle(sy as int, pqx, d);
            lemma_mul_comm(pqy, sx as int);
            lemma_mul_comm(pqx, sy as int);
            lemma_mul_distrib(pqx * sy, pqy * sx, d);
            lemma_mul_comm(pqs, d);
        }
        lemma_zero_factor(pqs, d);
        assert(ws == (-ps) * d) by {
            lemma_neg_mul(pqx * d, sx as int);
            lemma_neg_mul(pqy * d, sy as int);
            assert((pqx * d) * sx == (pqx * sx) * d) by {
                lemma_mul_assoc(pqx, d, sx);
                lemma_mul_comm(d, sx);
                lemma_mul_assoc(pqx, sx, d);
            }
            assert((pqy * d) * sy == (pqy * sy) * d) by {
                lemma_mul_assoc(pqy, d, sy);
                lemma_mul_comm(d, sy);
                lemma_mul_assoc(pqy, sy, d);
            }
            lemma_mul_distrib(pqx * sx, pqy * sy, d);
            lemma_neg_mul(ps, d);
        }
        assert(in_unit(-ps, ss)) by {
            lemma_mul_sign(-ps, d);
            lemma_mul_le(-ps, ss, d);
            lemma_mul_comm(ss, d);
        }
    } else if a.0 != a.1 && b.0 == b.1 {
        // mirrored: the other segment's point lies on this segment
        let t0n = dot2(pqx, pqy, rx, ry);
        assert(rr >= 1) by {
            lemma_sq_nonneg(rx);
            lemma_sq_nonneg(ry);
        }
        assert(vx == pqx * d && vy == pqy * d);
        assert(rx * vy - ry * vx == 0);
        assert(pqr * d == 0) by {
            lemma_mul_shuffle(rx as int, pqy, d);
            lemma_mul_shuffle(ry as int, pqx, d);
            lemma_mul_comm(pqy, rx as int);
            lemma_mul_comm(pqx, ry as int);
            lemma_mul_distrib(pqy * rx, pqx * ry, d);
            lemma_mul_distrib(pqx * ry, pqy * rx, d);
            lemma_mul_comm(pqr, d);
            lemma_neg_mul(pqr, d);
        }
        lemma_zero_factor(pqr, d);
        assert(vr == t0n * d) by {
            assert((pqx * d) * rx == (pqx * rx) * d) by {
                lemma_mul_assoc(pqx, d, rx);
                lemma_mul_comm(d, rx);
                lemma_mul_assoc(pqx, rx, d);
            }
            assert((pqy * d) * ry == (pqy * ry) * d) by {
                lemma_mul_assoc(pqy, d, ry);
                lemma_mul_comm(d, ry);
                lemma_mul_assoc(pqy, ry, d);
            }
            lemma_mul_distrib(pqx * rx, pqy * ry, d);
            lemma_mul_comm(t0n, d);
        }
        assert(in_unit(t0n, rr)) by {
            lemma_mul_sign(t0n, d);
            lemma_mul_le(t0n, rr, d);
            lemma_mul_comm(rr, d);
        }
    } else {
        // both degenerate: the shared point makes the two anchors equal
        assert(a.0.x * d == b.0.x * d && a.0.y * d == b.0.y * d);
        lemma_mul_cancel(a.0.x as int, b.0.x as int, d);
        lemma_mul_cancel(a.0.y as int, b.0.y as int, d);
        assert(a.0 == b.0);
    }
}

/// Law helper: for two collinear non-degenerate segments the overlap test
/// and the overlap-midpoint representative do not depend on which segment
/// comes first.
proof fn lemma_seg_overlap_symmetric(a: LineSegment, b: LineSegment)
    requires
        a.0 != a.1,
        b.0 != b.1,
        den4(a.0, a.1, b.0, b.1) == 0,
        pqr4(a.0, a.1, b.0, b.1) == 0,
    ensures
        opt3_eqv(seg_overlap_point(a, b), seg_overlap_point(b, a)),
{
    let rx = dirx(a.0, a.1);
    let ry = diry(a.0, a.1);
    let sx = dirx(b.0, b.1);
    let sy = diry(b.0, b.1);
    let pqx = dirx(a.0, b.0);
    let pqy = diry(a.0, b.0);
    let rr = dot2(rx, ry, rx, ry);
    let ss = dot2(sx, sy, sx, sy);
    let sr = dot2(sx, sy, rx, ry);
    let ps = dot2(pqx, pqy, sx, sy);
    let t0n = dot2(pqx, pqy, rx, ry);
    let t1n = t0n + sr;
    let qpx = dirx(b.0, a.0);
    let qpy = diry(b.0, a.0);
    let rs = dot2(rx, ry, sx, sy);
    let w0n = dot2(qpx, qpy, sx, sy);
    let w1n = w0n + rs;
    assert(qpx == -pqx && qpy == -pqy);
    assert(rs == sr) by {
        lemma_mul_comm(rx, sx);
        lemma_mul_comm(ry, sy);
    }
    assert(w0n == -ps) by {
        lemma_neg_mul(pqx, sx);
        lemma_neg_mul(pqy, sy);
    }
    assert(rr >= 1) by {
        lemma_sq_nonneg(rx);
        lemma_sq_nonneg(ry);
    }
    assert(ss >= 1) by {
        lemma_sq_nonneg(sx);
        lemma_sq_nonneg(sy);
    }
    // decompositions along the first direction, all at the scale of rr
    assert(pqx * ry - pqy * rx == 0);
    lemma_collinear_decomp(pqx, pqy, rx, ry);
    assert(pqx * rr == t0n * rx);
    assert(pqy * rr == t0n * ry);
    assert(sx * ry - sy * rx == 0) by {
        lemma_cross_swap(rx, ry, sx, sy);
    }
    lemma_collinear_decomp(sx, sy, rx, ry);
    assert(sx * rr == sr * rx);
    assert(sy * rr == sr * ry);
    // the squared length of the second direction, at the scale of rr
    assert(ss * rr == (sx * sx) * rr + (sy * sy) * rr) by {
        lemma_mul_distrib(sx * sx, sy * sy, rr);
    }
    assert((sx * sx) * rr == sr * (sx * rx)) by {
        lemma_mul_assoc(sx, sx, rr);
        lemma_mul_shuffle(sx, sr, rx);
    }
    assert((sy * sy) * rr == sr * (sy * ry)) by {
        lemma_mul_assoc(sy, sy, rr);
        lemma_mul_shuffle(sy, sr, ry);
    }
    assert(ss * rr == sr * sr) by {
        lemma_mul_distrib_left(sr, sx * rx, sy * ry);
    }
    // the offset of the second segment along the second direction, at the
    // scale of rr
    assert(ps * rr == (pqx * sx) * rr + (pqy * sy) * rr) by {
        lemma_mul_distrib(pqx * sx, pqy * sy, rr);
    }
    assert((pqx * sx) * rr == sx * (t0n * rx)) by {
        lemma_mul_assoc(pqx, sx, rr);
        lemma_mul_shuffle(pqx, sx, rr);
        lemma_mul_shuffle(sx, pqx, rr);
    }
    assert(sx * (t0n * rx) == t0n * (sx * rx)) by {
        lemma_mul_shuffle(sx, t0n, rx);
    }
    assert((pqy * sy) * rr == sy * (t0n * ry)) by {
        lemma_mul_assoc(pqy, sy, rr);
        lemma_mul_shuffle(sy, pqy, rr);
    }
    assert(sy * (t0n * ry) == t0n * (sy * ry)) by {
        lemma_mul_shuffle(sy, t0n, ry);
    }
    assert(ps * rr == t0n * sr) by {
        lemma_mul_distrib_left(t0n, sx * rx, sy * ry);
    }
    assert(w0n * rr == -(t0n * sr)) by {
        lemma_neg_mul(ps, rr);
    }
    assert(w1n * rr == w0n * rr + sr * rr) by {
        lemma_mul_distrib(w0n, sr, rr);
        assert((w0n + sr) * rr == w0n * rr + sr * rr);
    }
    assert(w1n * rr == (rr - t0n) * sr) by {
        lemma_mul_comm(sr, rr);
        lemma_mul_distrib(rr, t0n, sr);
    }
    // the two directions are not perpendicular: they are parallel and both
    // nonzero
    assert(sr != 0) by {
        if sr == 0 {
            lemma_zero_mul(rx);
            lemma_zero_mul(ry);
            assert(sx * rr == 0);
            assert(sy * rr == 0);
            lemma_zero_factor(sx, rr);
            lemma_zero_factor(sy, rr);
        }
    }
    let tmin = imin(t0n, t1n);
    let tmax = imax(t0n, t1n);
    let wmin = imin(w0n, w1n);
    let wmax = imax(w0n, w1n);
    if sr > 0 {
        assert(tmin == t0n && tmax == t1n);
        assert(wmin == w0n && wmax == w1n);
        // the no-overlap tests of the two orders agree
        assert((w1n < 0) == (t0n > rr)) by {
            lemma_mul_le(w1n, 0, rr);
            lemma_mul_le(rr - t0n, 0, sr);
        }
        assert((w0n > ss) == (t1n < 0)) by {
            lemma_mul_le(ss, w0n, rr);
            lemma_mul_le(sr, -t0n, sr);
            lemma_neg_mul(t0n, sr);
        }
        if !(tmax < 0 || tmin > rr) {
            let ma = imax(tmin, 0) + imin(tmax, rr);
            let mb = imax(wmin, 0) + imin(wmax, ss);
            let u = imax(-t0n, 0) + imin(rr - t0n, sr);
            assert(imax(w0n, 0) * rr == sr * imax(-t0n, 0)) by {
                lemma_mul_sign(w0n, rr);
                lemma_mul_sign(t0n, sr);
                lemma_neg_mul(sr, t0n);
                lemma_mul_comm(sr, t0n);
                if w0n >= 0 {
                    assert(t0n * sr <= 0);
                    assert(t0n <= 0);
                    assert(imax(w0n, 0) == w0n && imax(-t0n, 0) == -t0n);
                    assert(sr * (-t0n) == -(sr * t0n));
                } else {
                    assert(t0n * sr > 0);
                    assert(t0n > 0);
                    assert(imax(w0n, 0) == 0 && imax(-t0n, 0) == 0);
                    lemma_zero_mul(rr);
                    lemma_zero_mul(sr);
                    assert(sr * 0 == 0);
                }
            }
            assert(imin(w1n, ss) * rr == sr * imin(rr - t0n, sr)) by {
                lemma_mul_le(w1n, ss, rr);
                lemma_mul_le(rr - t0n, sr, sr);
                lemma_mul_comm(sr, rr - t0n);
                if w1n <= ss {
                    assert(w1n * rr <= ss * rr);
                    assert((rr - t0n) * sr <= sr * sr);
                    assert(rr - t0n <= sr);
                    assert(imin(w1n, ss) == w1n && imin(rr - t0n, sr) == rr - t0n);
                } else {
                    assert(ss * rr < w1n * rr);
                    assert(sr * sr < (rr - t0n) * sr);
                    assert(sr < rr - t0n);
                    assert(imin(w1n, ss) == ss && imin(rr - t0n, sr) == sr);
                }
            }
            assert(mb * rr == sr * u) by {
                lemma_mul_distrib(imax(wmin, 0), imin(wmax, ss), rr);
                lemma_mul_distrib_left(sr, imax(-t0n, 0), imin(rr - t0n, sr));
            }
            assert(ma == 2 * t0n + u);
            assert(ma * sr == 2 * (t0n * sr) + mb * rr) by {
                lemma_mul_distrib(2 * t0n, u, sr);
                assert((2 * t0n + u) * sr == (2 * t0n) * sr + u * sr);
                lemma_mul_assoc(2, t0n, sr);
                lemma_mul_comm(u, sr);
            }
            lemma_overlap_point_eq(a.0.x as int, b.0.x as int, pqx, rx, sx, rr, ss, sr, t0n,
                ma, mb);
            lemma_overlap_point_eq(a.0.y as int, b.0.y as int, pqy, ry, sy, rr, ss, sr, t0n,
                ma, mb);
        }
    } else {
        let c = -sr;
        assert(c > 0);
        assert(tmin == t1n && tmax == t0n);
        assert(w0n - w1n == c);
        assert(wmin == w1n && wmax == w0n);
        assert(t0n * sr == -(t0n * c)) by {
            lemma_neg_mul(t0n, c);
        }
        assert((rr - t0n) * sr == -((rr - t0n) * c)) by {
            lemma_neg_mul(rr - t0n, c);
        }
        assert(sr * sr == c * c) by {
            lemma_neg_mul(c, c);
            lemma_neg_mul(c, -c);
            assert((-c) * (-c) == -(c * (-c)));
            assert(c * (-c) == -(c * c));
        }
        // the no-overlap tests of the two orders agree
        assert((w0n < 0) == (t0n < 0)) by {
            lemma_mul_le(w0n, 0, rr);
            lemma_mul_le(t0n, 0, c);
        }
        assert((w1n > ss) == (t1n > rr)) by {
            lemma_mul_le(ss, w1n, rr);
            lemma_mul_le(rr - t0n, -c, c);
            lemma_neg_mul(c, c);
        }
        if !(tmax < 0 || tmin > rr) {
            let ma = imax(tmin, 0) + imin(tmax, rr);
            let mb = imax(wmin, 0) + imin(wmax, ss);
            let v = imax(t0n - rr, 0) + imin(t0n, c);
            assert(w1n * rr == (t0n - rr) * c) by {
                lemma_neg_mul(rr - t0n, c);
                assert((-(rr - t0n)) * c == -((rr - t0n) * c)) by {
                    lemma_neg_mul(rr - t0n, c);
                }
            }
            assert(imax(w1n, 0) * rr == c * imax(t0n - rr, 0)) by {
                lemma_mul_sign(w1n, rr);
                lemma_mul_sign(t0n - rr, c);
                lemma_mul_comm(c, t0n - rr);
                if w1n >= 0 {
                    assert((t0n - rr) * c >= 0);
                    assert(t0n - rr >= 0);
                    assert(imax(w1n, 0) == w1n && imax(t0n - rr, 0) == t0n - rr);
                } else {
                    assert((t0n - rr) * c < 0);
                    assert(t0n - rr < 0);
                    assert(imax(w1n, 0) == 0 && imax(t0n - rr, 0) == 0);
                    lemma_zero_mul(rr);
                    lemma_zero_mul(c);
                    assert(c * 0 == 0);
                }
            }
            assert(w0n * rr == t0n * c) by {
                lemma_neg_mul(t0n, c);
            }
            assert(imin(w0n, ss) * rr == c * imin(t0n, c)) by {
                lemma_mul_le(w0n, ss, rr);
                lemma_mul_le(t0n, c, c);
                lemma_mul_comm(c, t0n);
                if w0n <= ss {
                    assert(w0n * rr <= ss * rr);
                    assert(t0n * c <= c * c);
                    assert(t0n <= c);
                    assert(imin(w0n, ss) == w0n && imin(t0n, c) == t0n);
                } else {
                    assert(ss * rr < w0n * rr);
                    assert(c * c < t0n * c);
                    assert(c < t0n);
                    assert(imin(w0n, ss) == ss && imin(t0n, c) == c);
                }
            }
            assert(mb * rr == c * v) by {
                lemma_mul_distrib(imax(wmin, 0), imin(wmax, ss), rr);
                lemma_mul_distrib_left(c, imax(t0n - rr, 0), imin(t0n, c));
            }
            assert(ma == 2 * t0n - v);
            assert(ma * sr == 2 * (t0n * sr) + mb * rr) by {
                lemma_mul_distrib(2 * t0n, v, sr);
                assert((2 * t0n - v) * sr == (2 * t0n) * sr - v * sr);
                lemma_mul_assoc(2, t0n, sr);
                lemma_neg_mul(2 * t0n, c);
                assert((2 * t0n) * sr == -((2 * t0n) * c)) by {
                    lemma_neg_mul(2 * t0n, c);
                }
                assert(v * sr == -(v * c)) by {
                    lemma_neg_mul(v, c);
                }
                lemma_mul_comm(v, c);
            }
            lemma_overlap_point_eq(a.0.x as int, b.0.x as int, pqx, rx, sx, rr, ss, sr, t0n,
                ma, mb);
            lemma_overlap_point_eq(a.0.y as int, b.0.y as int, pqy, ry, sy, rr, ss, sr, t0n,
                ma, mb);
        }
    }
}

/// Law: segment-segment intersection is symmetric: the two orders return
/// `None` together or the same point, in every regime (crossing, collinear
/// overlap, and every degenerate combination).
pub proof fn lemma_seg_seg_symmetric(a: LineSegment, b: LineSegment)
    ensures
        opt3_eqv(seg_seg_point(a, b), seg_seg_point(b, a)),
{
    let rx = dirx(a.0, a.1);
    let ry = diry(a.0, a.1);
    let sx = dirx(b.0, b.1);
    let sy = diry(b.0, b.1);
    let pqx = dirx(a.0, b.0);
    let pqy = diry(a.0, b.0);
    let den = den4(a.0, a.1, b.0, b.1);
    let pqs = pqs4(a.0, a.1, b.0, b.1);
    let pqr = pqr4(a.0, a.1, b.0, b.1);
    assert(den4(b.0, b.1, a.0, a.1) == -den) by {
        lemma_cross_swap(rx, ry, sx, sy);
    }
    assert(pqs4(b.0, b.1, a.0, a.1) == -pqr) by {
        lemma_cross_swap(pqx, pqy, rx, ry);
    }
    assert(pqr4(b.0, b.1, a.0, a.1) == -pqs) by {
        lemma_cross_swap(pqx, pqy, sx, sy);
    }
    if den != 0 {
        assert(in_unit(-pqr, -den) == in_unit(pqr, den));
        assert(in_unit(-pqs, -den) == in_unit(pqs, den));
        if in_unit(pqs, den) && in_unit(pqr, den) {
            lemma_cross_point_symmetric(a.0, a.1, b.0, b.1);
        }
    } else if a.0 != a.1 && b.0 != b.1 {
        lemma_parallel_tests_agree(a.0, a.1, b.0, b.1);
        if pqr == 0 {
            lemma_seg_overlap_symmetric(a, b);
        }
    } else if a.0 == a.1 && b.0 != b.1 {
        assert(dot2(dirx(b.0, a.0), diry(b.0, a.0), sx, sy) == -dot2(pqx, pqy, sx, sy)) by {
            lemma_neg_mul(pqx, sx);
            lemma_neg_mul(pqy, sy);
        }
    } else if a.0 != a.1 && b.0 == b.1 {
        assert(dot2(dirx(b.0, a.0), diry(b.0, a.0), rx, ry) == -dot2(pqx, pqy, rx, ry)) by {
            lemma_neg_mul(pqx, rx);
            lemma_neg_mul(pqy, ry);
        }
    }
}

/// The square of an integer is never negative, and is at least one for a
/// nonzero integer.
pub proof fn lemma_sq_nonneg(a: int)
    by (nonlinear_arith)
    ensures
        a * a >= 0,
        a != 0 ==> a * a >= 1,
{
}

/// Whether the fraction `num / den` lies in `[0, 1]`, for `den != 0`.
fn in_unit_e(num: i128, den: i128) -> (r: bool)
    requires
        den != 0,
    ensures
        r == in_unit(num as int, den as int),
{
    if den >= 0 {
        0 <= num && num <= den
    } else {
        den <= num && num <= 0
    }
}

/// Builds the crossing point `p0 + (pqs / den) * (p1 - p0)` as an exact
/// rational point with a positive denominator.
fn cross_point_e(p0: Point, p1: Point, den: i128, pqs: i128) -> (r: RPoint)
    requires
        p0.wf(),
        p1.wf(),
        den != 0,
        -0x2_0000_0000_0000_0000 <= den <= 0x2_0000_0000_0000_0000,
        -0x2_0000_0000_0000_0000 <= pqs <= 0x2_0000_0000_0000_0000,
    ensures
        ({
            let t = norm3(
                p0.x * den + pqs * dirx(p0, p1),
                p0.y * den + pqs * diry(p0, p1),
                den as int,
            );
            r.xn == t.0 && r.yn == t.1 && r.den == t.2 && r.wf()
        }),
{
    let dx = diff_i(p0.x, p1.x);
    let dy = diff_i(p0.y, p1.y);
    proof {
        lemma_mul_bound(p0.x as int, den as int, 0x4000_0000, 0x2_0000_0000_0000_0000);
        lemma_mul_bound(p0.y as int, den as int, 0x4000_0000, 0x2_0000_0000_0000_0000);
        lemma_mul_bound(pqs as int, dx as int, 0x2_0000_0000_0000_0000, 0x8000_0000);
        lemma_mul_bound(pqs as int, dy as int, 0x2_0000_0000_0000_0000, 0x8000_0000);
    }
    let nx = (p0.x as i128) * den + pqs * dx;
    let ny = (p0.y as i128) * den + pqs * dy;
    if den < 0 {
        RPoint { xn: -nx, yn: -ny, den: -den }
    } else {
        RPoint { xn: nx, yn: ny, den }
    }
}

/// The difference `b - a` of two bounded coordinates, widened so that no
/// later product can overflow.
fn diff_i(a: i64, b: i64) -> (r: i128)
    ensures
        r == b - a,
{
    b as i128 - a as i128
}

/// Exact 2D cross product of two bounded vectors.
fn cross_e(ax: i128, ay: i128, bx: i128, by: i128) -> (r: i128)
    requires
        -0x1_0000_0000 <= ax <= 0x1_0000_0000,
        -0x1_0000_0000 <= ay <= 0x1_0000_0000,
        -0x1_0000_0000 <= bx <= 0x1_0000_0000,
        -0x1_0000_0000 <= by <= 0x1_0000_0000,
    ensures
        r == cross2(ax as int, ay as int, bx as int, by as int),
        -0x2_0000_0000_0000_0000 <= r <= 0x2_0000_0000_0000_0000,
{
    proof {
        lemma_mul_bound(ax as int, by as int, 0x1_0000_0000, 0x1_0000_0000);
        lemma_mul_bound(ay as int, bx as int, 0x1_0000_0000, 0x1_0000_0000);
    }
    ax * by - ay * bx
}

/// Exact dot product of two bounded vectors.
fn dot_e(ax: i128, ay: i128, bx: i128, by: i128) -> (r: i128)
    requires
        -0x1_0000_0000 <= ax <= 0x1_0000_0000,
        -0x1_0000_0000 <= ay <= 0x1_0000_0000,
        -0x1_0000_0000 <= bx <= 0x1_0000_0000,
        -0x1_0000_0000 <= by <= 0x1_0000_0000,
    ensures
        r == dot2(ax as int, ay as int, bx as int, by as int),
        -0x2_0000_0000_0000_0000 <= r <= 0x2_0000_0000_0000_0000,
{
    proof {
        lemma_mul_bound(ax as int, bx as int, 0x1_0000_0000, 0x1_0000_0000);
        lemma_mul_bound(ay as int, by as int, 0x1_0000_0000, 0x1_0000_0000);
    }
    ax * bx + ay * by
}

} // verus!
