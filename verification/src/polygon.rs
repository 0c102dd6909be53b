//! A simple polygon given by its ordered vertex sequence, with its exact
//! area and centroid by the shoelace formula, the vertex sequence treated
//! cyclically (the last vertex connects back to the first).

use vstd::prelude::*;

verus! {

use crate::Shape;
use crate::scalar::{lemma_mul_bound, Clump, Frac, Point, RPoint};

/// Most vertices a polygon may carry; with coordinates bounded by
/// `COORD_MAX` this keeps every shoelace partial sum within `i128`.
pub const VERTICES_MAX: usize = 1_048_576;

/// Cross product of two vertex position vectors.
pub open spec fn cross_pair(a: Point, b: Point) -> int {
    a.x * b.y - a.y * b.x
}

/// The absolute value of an integer.
pub open spec fn iabs(a: int) -> int {
    if a < 0 {
        -a
    } else {
        a
    }
}

/// The index of the vertex following vertex `i - 1` in cyclic order.
pub open spec fn cyc(s: Seq<Point>, i: nat) -> int {
    if i >= s.len() {
        0
    } else {
        i as int
    }
}

/// Sum of the cross products of the first `i` cyclic vertex pairs.
pub open spec fn shoelace_sum_to(s: Seq<Point>, i: nat) -> int
    decreases i,
{
    if i == 0 || s.len() == 0 {
        0
    } else {
        shoelace_sum_to(s, (i - 1) as nat) + cross_pair(s[i - 1], s[cyc(s, i)])
    }
}

/// Sum of `(a.x + b.x) * cross` over the first `i` cyclic vertex pairs: the
/// unnormalized x moment of the shoelace centroid.
pub open spec fn shoelace_cx_to(s: Seq<Point>, i: nat) -> int
    decreases i,
{
    if i == 0 || s.len() == 0 {
        0
    } else {
        shoelace_cx_to(s, (i - 1) as nat) + (s[i - 1].x + s[cyc(s, i)].x)
            * cross_pair(s[i - 1], s[cyc(s, i)])
    }
}

/// Sum of `(a.y + b.y) * cross` over the first `i` cyclic vertex pairs: the
/// unnormalized y moment of the shoelace centroid.
pub open spec fn shoelace_cy_to(s: Seq<Point>, i: nat) -> int
    decreases i,
{
    if i == 0 || s.len() == 0 {
        0
    } else {
        shoelace_cy_to(s, (i - 1) as nat) + (s[i - 1].y + s[cyc(s, i)].y)
            * cross_pair(s[i - 1], s[cyc(s, i)])
    }
}

/// A simple polygon, its vertices held as a read-only ordered sequence.
#[derive(Clone, Debug)]
pub struct Polygon {
    pub vertices: Vec<Point>,
}

impl Polygon {
    pub fn new(vertices: Vec<Point>) -> (p: Polygon)
        ensures
            p.vertices@ == vertices@,
    {
        Polygon { vertices }
    }

    /// The vertex sequence the polygon was built from.
    pub fn vertices(&self) -> (r: &Vec<Point>)
        ensures
            r@ == self.vertices@,
    {
        &self.vertices
    }

    /// The polygon's exact area: half the absolute shoelace sum.
    pub fn area(&self) -> (r: Frac)
        requires
            self.clump_defined(),
        ensures
            r.num == iabs(shoelace_sum_to(self.vertices@, self.vertices@.len())),
            r.den == 2,
            r.wf(),
    {
        self.clump().area
    }

    /// The polygon's exact centroid: the cross-weighted vertex-pair sums
    /// divided by six times the area.
    pub fn centroid(&self) -> (r: RPoint)
        requires
            self.clump_defined(),
        ensures
            r.xn == shoelace_cx_to(self.vertices@, self.vertices@.len()),
            r.yn == shoelace_cy_to(self.vertices@, self.vertices@.len()),
            r.den == 3 * iabs(shoelace_sum_to(self.vertices@, self.vertices@.len())),
            r.wf(),
    {
        self.clump().centroid
    }
}

impl Shape for Polygon {
    /// At least three in-bounds vertices whose shoelace sum is not zero: a
    /// zero sum (fewer than three vertices, or all vertices collinear) leaves
    /// the centroid undefined.
    open spec fn clump_defined(&self) -> bool {
        &&& 3 <= self.vertices@.len() <= VERTICES_MAX
        &&& forall|i: int|
            0 <= i < self.vertices@.len() ==> (#[trigger] self.vertices@[i]).wf()
        &&& shoelace_sum_to(self.vertices@, self.vertices@.len()) != 0
    }

    /// The polygon's exact measure by the shoelace formula: twice the area
    /// is the absolute shoelace sum, and the centroid is the cross-weighted
    /// vertex-pair sum divided by six times the area.
    fn clump(&self) -> (c: Clump)
        ensures
            ({
                let s = self.vertices@;
                let total = shoelace_sum_to(s, s.len());
                &&& c.area.num == iabs(total)
                &&& c.area.den == 2
                &&& c.centroid.xn == shoelace_cx_to(s, s.len())
                &&& c.centroid.yn == shoelace_cy_to(s, s.len())
                &&& c.centroid.den == 3 * iabs(total)
                &&& c.area.wf()
                &&& c.centroid.wf()
            }),
    {
        let ghost s = self.vertices@;
        let n = self.vertices.len();
        let mut acc: i128 = 0;
        let mut cx: i128 = 0;
        let mut cy: i128 = 0;
        let mut i: usize = 0;
        while i < n
            invariant
                3 <= n <= VERTICES_MAX,
                n == s.len(),
                0 <= i <= n,
                s == self.vertices@,
                forall|k: int| 0 <= k < s.len() ==> (#[trigger] s[k]).wf(),
                acc == shoelace_sum_to(s, i as nat),
                cx == shoelace_cx_to(s, i as nat),
                cy == shoelace_cy_to(s, i as nat),
                -(i as i128) * 0x2000_0000_0000_0000 <= acc <= (i as i128)
                    * 0x2000_0000_0000_0000,
                -(i as i128) * 0x1_0000_0000_0000_0000_0000_0000 <= cx <= (i as i128)
                    * 0x1_0000_0000_0000_0000_0000_0000,
                -(i as i128) * 0x1_0000_0000_0000_0000_0000_0000 <= cy <= (i as i128)
                    * 0x1_0000_0000_0000_0000_0000_0000,
            decreases n - i,
        {
            let a = self.vertices[i];
            let j = if i + 1 == n {
                0
            } else {
                i + 1
            };
            let b = self.vertices[j];
            let cr = cross_pair_e(a, b);
            let wx = a.x as i128 + b.x as i128;
            let wy = a.y as i128 + b.y as i128;
            proof {
                lemma_mul_bound(wx as int, cr as int, 0x8000_0000, 0x2000_0000_0000_0000);
                lemma_mul_bound(wy as int, cr as int, 0x8000_0000, 0x2000_0000_0000_0000);
            }
            acc = acc + cr;
            cx = cx + wx * cr;
            cy = cy + wy * cr;
            i = i + 1;
        }
        let two_area = if acc < 0 {
            -acc
        } else {
            acc
        };
        Clump {
            area: Frac { num: two_area, den: 2 },
            centroid: RPoint { xn: cx, yn: cy, den: 3 * two_area },
        }
    }
}

/// Exact cross product of two in-bounds vertex positions.
fn cross_pair_e(a: Point, b: Point) -> (r: i128)
    requires
        a.wf(),
        b.wf(),
    ensures
        r == cross_pair(a, b),
        -0x2000_0000_0000_0000 <= r <= 0x2000_0000_0000_0000,
{
    proof {
        lemma_mul_bound(a.x as int, b.y as int, 0x4000_0000, 0x4000_0000);
        lemma_mul_bound(a.y as int, b.x as int, 0x4000_0000, 0x4000_0000);
    }
    (a.x as i128) * (b.y as i128) - (a.y as i128) * (b.x as i128)
}

} // verus!
