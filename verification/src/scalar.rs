//! Exact scalars of the engine: integer-coordinate points and rational
//! values kept as integer fractions, together with the spec-level vector
//! algebra (2D cross and dot products) that the contracts are stated over.

use vstd::prelude::*;

verus! {

/// Greatest coordinate magnitude the engine accepts (2^30). With coordinates
/// bounded by it, every intermediate product of the algorithms fits in `i128`.
pub const COORD_MAX: i64 = 1_073_741_824;

/// Greatest magnitude a fraction's numerator or denominator may have for the
/// exact comparison operations to be free of overflow (2^126).
pub const PROD_MAX: i128 = 0x4000_0000_0000_0000_0000_0000_0000_0000;

/// A point (or vector) with integer coordinates.
#[derive(Clone, Copy, PartialEq, Eq, Structural, Hash, Debug)]
pub struct Point {
    pub x: i64,
    pub y: i64,
}

impl Point {
    /// Within the coordinate bounds the engine accepts.
    pub open spec fn wf(self) -> bool {
        &&& -COORD_MAX <= self.x <= COORD_MAX
        &&& -COORD_MAX <= self.y <= COORD_MAX
    }

    pub fn new(x: i64, y: i64) -> (p: Point)
        ensures
            p.x == x,
            p.y == y,
    {
        Point { x, y }
    }
}

/// 2D cross product (perpendicular dot product) of two vectors.
pub open spec fn cross2(ax: int, ay: int, bx: int, by: int) -> int {
    ax * by - ay * bx
}

/// Dot product of two vectors.
pub open spec fn dot2(ax: int, ay: int, bx: int, by: int) -> int {
    ax * bx + ay * by
}

/// x component of the vector from `a` to `b`.
pub open spec fn dirx(a: Point, b: Point) -> int {
    b.x as int - a.x as int
}

/// y component of the vector from `a` to `b`.
pub open spec fn diry(a: Point, b: Point) -> int {
    b.y as int - a.y as int
}

/// A product of two integers at least one is at least one.
pub proof fn lemma_mul_pos(a: int, b: int)
    by (nonlinear_arith)
    requires
        a >= 1,
        b >= 1,
    ensures
        a * b >= 1,
{
}

/// A product of values bounded in magnitude is bounded by the product of the
/// bounds.
pub proof fn lemma_mul_bound(a: int, b: int, ab: int, bb: int)
    by (nonlinear_arith)
    requires
        -ab <= a <= ab,
        -bb <= b <= bb,
        0 <= ab,
        0 <= bb,
    ensures
        -(ab * bb) <= a * b <= ab * bb,
{
}

/// Negating one factor negates a product.
pub(crate) proof fn lemma_neg_mul(a: int, b: int)
    by (nonlinear_arith)
    ensures
        (-a) * b == -(a * b),
        a * (-b) == -(a * b),
{
}

/// A product is zero only through one of its factors.
pub(crate) proof fn lemma_zero_factor(a: int, b: int)
    by (nonlinear_arith)
    requires
        a * b == 0,
        b != 0,
    ensures
        a == 0,
{
}

/// A common nonzero factor cancels from an equality of products.
pub(crate) proof fn lemma_mul_cancel(a: int, b: int, c: int)
    by (nonlinear_arith)
    requires
        a * c == b * c,
        c != 0,
    ensures
        a == b,
{
}

/// Multiplication distributes over sums and differences.
pub(crate) proof fn lemma_mul_distrib(a: int, b: int, c: int)
    by (nonlinear_arith)
    ensures
        (a - b) * c == a * c - b * c,
        (a + b) * c == a * c + b * c,
{
}

/// Multiplication commutes.
pub(crate) proof fn lemma_mul_comm(a: int, b: int)
    by (nonlinear_arith)
    ensures
        a * b == b * a,
{
}

/// Multiplication distributes from the left.
pub(crate) proof fn lemma_mul_distrib_left(c: int, a: int, b: int)
    by (nonlinear_arith)
    ensures
        c * (a - b) == c * a - c * b,
        c * (a + b) == c * a + c * b,
{
}

/// A product of three factors can be regrouped around any of them.
pub(crate) proof fn lemma_mul_shuffle(a: int, b: int, c: int)
    by (nonlinear_arith)
    ensures
        a * (b * c) == b * (a * c),
        a * (b * c) == c * (a * b),
{
}

/// Multiplying by zero gives zero.
pub(crate) proof fn lemma_zero_mul(a: int)
    by (nonlinear_arith)
    ensures
        0 * a == 0,
        a * 0 == 0,
{
}

/// Scaling by a positive factor preserves sign.
pub(crate) proof fn lemma_mul_sign(x: int, c: int)
    by (nonlinear_arith)
    requires
        c > 0,
    ensures
        (x <= 0) == (x * c <= 0),
        (x >= 0) == (x * c >= 0),
        (x < 0) == (x * c < 0),
        (x > 0) == (x * c > 0),
{
}

/// Scaling by a positive factor preserves order.
pub(crate) proof fn lemma_mul_le(x: int, y: int, c: int)
    by (nonlinear_arith)
    requires
        c > 0,
    ensures
        (x <= y) == (x * c <= y * c),
        (x < y) == (x * c < y * c),
{
}

/// Multiplication is associative.
pub(crate) proof fn lemma_mul_assoc(a: int, b: int, c: int)
    by (nonlinear_arith)
    ensures
        (a * b) * c == a * (b * c),
{
}

/// The factors of a product of two products can be regrouped crosswise.
pub(crate) proof fn lemma_mul_four(a: int, b: int, c: int, d: int)
    by (nonlinear_arith)
    ensures
        (a * b) * (c * d) == (a * c) * (b * d),
{
}

/// An exact rational scalar: `num / den` with `den >= 1`.
#[derive(Clone, Copy, PartialEq, Eq, Structural, Hash, Debug)]
pub struct Frac {
    pub num: i128,
    pub den: i128,
}

impl Frac {
    pub open spec fn wf(self) -> bool {
        self.den >= 1
    }

    /// The two fractions stand for the same rational number.
    pub open spec fn eqv_spec(self, other: Frac) -> bool {
        self.num * other.den == other.num * self.den
    }

    /// The cross products that an exact comparison forms stay within `i128`.
    pub open spec fn comparable(self, other: Frac) -> bool {
        &&& -PROD_MAX <= self.num * other.den <= PROD_MAX
        &&& -PROD_MAX <= other.num * self.den <= PROD_MAX
    }

    pub fn new(num: i128, den: i128) -> (f: Frac)
        requires
            den >= 1,
        ensures
            f.num == num,
            f.den == den,
            f.wf(),
    {
        Frac { num, den }
    }

    pub fn from_int(v: i64) -> (f: Frac)
        ensures
            f.num == v as int,
            f.den == 1,
            f.wf(),
    {
        Frac { num: v as i128, den: 1 }
    }

    /// Exact equality of the rational values the two fractions stand for.
    pub fn eqv(&self, other: &Frac) -> (r: bool)
        requires
            self.comparable(*other),
        ensures
            r == self.eqv_spec(*other),
    {
        self.num * other.den == other.num * self.den
    }
}

/// The rational number a fraction stands for, as a numerator-denominator
/// pair of unbounded integers.
pub open spec fn ratio(f: Frac) -> (int, int) {
    (f.num as int, f.den as int)
}

/// Whether a fraction holds exactly the given numerator-denominator pair.
pub open spec fn frac_is(f: Frac, p: (int, int)) -> bool {
    f.num == p.0 && f.den == p.1
}

/// Exact (unnormalized) sum of two rationals.
pub open spec fn rat_add(a: (int, int), b: (int, int)) -> (int, int) {
    (a.0 * b.1 + b.0 * a.1, a.1 * b.1)
}

/// Exact scaling of a rational by `n / d`.
pub open spec fn rat_scale(a: (int, int), n: int, d: int) -> (int, int) {
    (a.0 * n, a.1 * d)
}

/// Exact advance of a value by a derivative times a time step:
/// `x + dx * dt`.
pub open spec fn rat_step(x: (int, int), dx: (int, int), dt: (int, int)) -> (int, int) {
    (x.0 * (dx.1 * dt.1) + dx.0 * dt.0 * x.1, x.1 * (dx.1 * dt.1))
}

impl Frac {
    /// Magnitude bound on the numerator and denominator.
    pub open spec fn bounded(self, b: int) -> bool {
        &&& -b <= self.num <= b
        &&& 1 <= self.den <= b
    }

    /// The rational zero.
    pub fn zero() -> (f: Frac)
        ensures
            f.num == 0,
            f.den == 1,
            f.wf(),
    {
        Frac { num: 0, den: 1 }
    }

    /// Exact sum of two rationals, unnormalized.
    pub fn plus(self, other: Frac) -> (r: Frac)
        requires
            self.bounded(0x4000_0000_0000_0000),
            other.bounded(0x4000_0000_0000_0000),
        ensures
            frac_is(r, rat_add(ratio(self), ratio(other))),
            r.wf(),
    {
        proof {
            lemma_mul_bound(
                self.num as int,
                other.den as int,
                0x4000_0000_0000_0000,
                0x4000_0000_0000_0000,
            );
            lemma_mul_bound(
                other.num as int,
                self.den as int,
                0x4000_0000_0000_0000,
                0x4000_0000_0000_0000,
            );
            lemma_mul_bound(
                self.den as int,
                other.den as int,
                0x4000_0000_0000_0000,
                0x4000_0000_0000_0000,
            );
            lemma_mul_pos(self.den as int, other.den as int);
        }
        Frac { num: self.num * other.den + other.num * self.den, den: self.den * other.den }
    }

    /// Exact scaling by a small rational `n / d`.
    pub fn scaled(self, n: i64, d: i64) -> (r: Frac)
        requires
            self.bounded(0x4000_0000_0000_0000),
            -8 <= n <= 8,
            1 <= d <= 8,
        ensures
            frac_is(r, rat_scale(ratio(self), n as int, d as int)),
            r.wf(),
    {
        proof {
            lemma_mul_bound(self.num as int, n as int, 0x4000_0000_0000_0000, 8);
            lemma_mul_bound(self.den as int, d as int, 0x4000_0000_0000_0000, 8);
            lemma_mul_pos(self.den as int, d as int);
        }
        Frac { num: self.num * (n as i128), den: self.den * (d as i128) }
    }

    /// Exact advance of this value by a derivative times a time step.
    pub fn step(self, deriv: Frac, dt: Frac) -> (r: Frac)
        requires
            self.bounded(0x100_0000_0000),
            deriv.bounded(0x100_0000_0000),
            dt.bounded(0x100_0000_0000),
        ensures
            frac_is(r, rat_step(ratio(self), ratio(deriv), ratio(dt))),
            r.wf(),
    {
        proof {
            lemma_mul_bound(deriv.den as int, dt.den as int, 0x100_0000_0000, 0x100_0000_0000);
            lemma_mul_bound(
                self.num as int,
                (deriv.den * dt.den) as int,
                0x100_0000_0000,
                0x1_0000_0000_0000_0000_0000,
            );
            lemma_mul_bound(deriv.num as int, dt.num as int, 0x100_0000_0000, 0x100_0000_0000);
            lemma_mul_bound(
                (deriv.num * dt.num) as int,
                self.den as int,
                0x1_0000_0000_0000_0000_0000,
                0x100_0000_0000,
            );
            lemma_mul_bound(
                self.den as int,
                (deriv.den * dt.den) as int,
                0x100_0000_0000,
                0x1_0000_0000_0000_0000_0000,
            );
            lemma_mul_pos(deriv.den as int, dt.den as int);
            lemma_mul_pos(self.den as int, deriv.den * dt.den);
        }
        Frac {
            num: self.num * (deriv.den * dt.den) + deriv.num * dt.num * self.den,
            den: self.den * (deriv.den * dt.den),
        }
    }
}

/// An exact rational point: `(xn / den, yn / den)` with `den >= 1`.
#[derive(Clone, Copy, PartialEq, Eq, Structural, Hash, Debug)]
pub struct RPoint {
    pub xn: i128,
    pub yn: i128,
    pub den: i128,
}

impl RPoint {
    pub open spec fn wf(self) -> bool {
        self.den >= 1
    }

    /// The two rational points are the same point of the plane.
    pub open spec fn eqv_spec(self, other: RPoint) -> bool {
        &&& self.xn * other.den == other.xn * self.den
        &&& self.yn * other.den == other.yn * self.den
    }

    /// The cross products that an exact comparison forms stay within `i128`.
    pub open spec fn comparable(self, other: RPoint) -> bool {
        &&& -PROD_MAX <= self.xn * other.den <= PROD_MAX
        &&& -PROD_MAX <= other.xn * self.den <= PROD_MAX
        &&& -PROD_MAX <= self.yn * other.den <= PROD_MAX
        &&& -PROD_MAX <= other.yn * self.den <= PROD_MAX
    }

    pub fn new(xn: i128, yn: i128, den: i128) -> (p: RPoint)
        requires
            den >= 1,
        ensures
            p.xn == xn,
            p.yn == yn,
            p.den == den,
            p.wf(),
    {
        RPoint { xn, yn, den }
    }

    /// The rational point with the given integer coordinates.
    pub fn from_point(p: Point) -> (r: RPoint)
        ensures
            r.xn == p.x as int,
            r.yn == p.y as int,
            r.den == 1,
            r.wf(),
    {
        RPoint { xn: p.x as i128, yn: p.y as i128, den: 1 }
    }

    /// Exact equality of the points the two values stand for.
    pub fn eqv(&self, other: &RPoint) -> (r: bool)
        requires
            self.comparable(*other),
        ensures
            r == self.eqv_spec(*other),
    {
        self.xn * other.den == other.xn * self.den
            && self.yn * other.den == other.yn * self.den
    }
}

/// Abstract shape without an exact form: only its area and centroid.
#[derive(Clone, Copy, PartialEq, Eq, Structural, Debug)]
pub struct Clump {
    pub centroid: RPoint,
    pub area: Frac,
}

} // verus!
