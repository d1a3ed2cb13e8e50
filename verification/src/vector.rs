//! Geometry kernel: points and displacements of the plane.

use vstd::prelude::*;
use crate::fixed::{
    div_trunc, floor_sqrt, is_floor_sqrt, isqrt, lemma_floor_sqrt_exists,
    lemma_floor_sqrt_unique, trunc_div, COORD_LIMIT, RADICAND_LIMIT, SCALE,
};

verus! {

/// A point or displacement with unbounded integer coordinates: the
/// mathematical value of a `Vector2`.
pub struct Point {
    pub x: int,
    pub y: int,
}

impl Point {
    /// Component-wise sum.
    pub open spec fn add(self, other: Point) -> Point {
        Point { x: self.x + other.x, y: self.y + other.y }
    }

    /// The opposite displacement.
    pub open spec fn negate(self) -> Point {
        Point { x: -self.x, y: -self.y }
    }

    /// The displacement that leads from `self` to `target`.
    pub open spec fn heading(self, target: Point) -> Point {
        Point { x: target.x - self.x, y: target.y - self.y }
    }

    /// The product with the fixed-point factor `num`, each component rounded
    /// toward zero.
    pub open spec fn mul_num(self, num: int) -> Point {
        Point {
            x: trunc_div(self.x * num, SCALE as int),
            y: trunc_div(self.y * num, SCALE as int),
        }
    }

    /// The `part`-th of `parts` equal shares of the displacement, each
    /// component rounded toward zero.
    pub open spec fn fraction(self, part: int, parts: int) -> Point
        recommends
            parts > 0,
    {
        Point { x: trunc_div(self.x * part, parts), y: trunc_div(self.y * part, parts) }
    }

    /// Square of the Euclidean distance to `other`.
    pub open spec fn distance_squared(self, other: Point) -> int {
        (self.x - other.x) * (self.x - other.x) + (self.y - other.y) * (self.y - other.y)
    }

    /// Euclidean distance to `other`, rounded down to the grid.
    pub open spec fn distance(self, other: Point) -> int {
        floor_sqrt(self.distance_squared(other))
    }

    /// The fixed-point unit displacement that points from `self` to
    /// `target`; the zero displacement where the two coincide.
    pub open spec fn direction(self, target: Point) -> Point {
        let h = self.heading(target);
        let d = self.distance(target);
        let den = if d < 1 { 1 } else { d };
        Point { x: trunc_div(h.x * SCALE, den), y: trunc_div(h.y * SCALE, den) }
    }

    /// Both coordinates lie in `[-bound, bound]`.
    pub open spec fn within(self, bound: int) -> bool {
        -bound <= self.x <= bound && -bound <= self.y <= bound
    }
}

/// A square is non-negative and monotone in the magnitude of its root.
proof fn lemma_square_bound(d: int, b: int)
    by (nonlinear_arith)
    requires
        -b <= d <= b,
    ensures
        0 <= d * d <= b * b,
{
}

/// Truncating division never grows a magnitude, and a share `k` of `n`
/// parts never exceeds the whole.
pub proof fn lemma_trunc_share_bound(a: int, k: int, n: int)
    requires
        0 <= k <= n,
        0 < n,
    ensures
        a >= 0 ==> 0 <= trunc_div(a * k, n) <= a,
        a <= 0 ==> a <= trunc_div(a * k, n) <= 0,
{
    if a >= 0 {
        assert(0 <= a * k <= a * n) by (nonlinear_arith)
            requires
                0 <= a,
                0 <= k <= n,
        ;
        assert(0 <= (a * k) / n <= a) by (nonlinear_arith)
            requires
                0 <= a * k <= a * n,
                0 < n,
        ;
    } else {
        let m = -a;
        assert(a * k == -(m * k)) by (nonlinear_arith)
            requires
                m == -a,
        ;
        assert(0 <= m * k <= m * n) by (nonlinear_arith)
            requires
                0 <= m,
                0 <= k <= n,
        ;
        assert(0 <= (m * k) / n <= m) by (nonlinear_arith)
            requires
                0 <= m * k <= m * n,
                0 < n,
        ;
        if a * k == 0 {
            assert(trunc_div(a * k, n) == 0int / n);
        } else {
            assert(trunc_div(a * k, n) == -((m * k) / n));
        }
    }
}

/// Distance is symmetric, and a point is at distance zero from itself.
pub proof fn lemma_distance_symmetric(a: Point, b: Point)
    ensures
        a.distance_squared(b) == b.distance_squared(a),
        a.distance(b) == b.distance(a),
        a.distance_squared(a) == 0,
        a.distance(a) == 0,
{
    assert((a.x - b.x) * (a.x - b.x) == (b.x - a.x) * (b.x - a.x)) by (nonlinear_arith);
    assert((a.y - b.y) * (a.y - b.y) == (b.y - a.y) * (b.y - a.y)) by (nonlinear_arith);
    assert(is_floor_sqrt(0, 0));
    lemma_floor_sqrt_unique(0, 0);
}

/// The rounded distance is below an integer threshold exactly when the true
/// distance is: rounding to the grid never changes a comparison with a whole
/// number of grid steps.
pub proof fn lemma_distance_below(a: Point, b: Point, limit: int)
    ensures
        a.distance(b) < limit <==> (limit > 0 && a.distance_squared(b) < limit * limit),
        a.distance_squared(b) >= 0,
        a.distance(b) >= 0,
{
    let n = a.distance_squared(b);
    lemma_square_bound(a.x - b.x, if a.x >= b.x { a.x - b.x } else { b.x - a.x });
    lemma_square_bound(a.y - b.y, if a.y >= b.y { a.y - b.y } else { b.y - a.y });
    lemma_floor_sqrt_exists(n);
    let d = floor_sqrt(n);
    if limit > 0 {
        if d < limit {
            assert((d + 1) * (d + 1) <= limit * limit) by (nonlinear_arith)
                requires
                    0 <= d,
                    d + 1 <= limit,
            ;
        } else {
            assert(limit * limit <= d * d) by (nonlinear_arith)
                requires
                    0 < limit <= d,
            ;
        }
    }
}

/// Two points within `bound` of the origin on each axis are at most three
/// times `bound` apart.
pub proof fn lemma_distance_within(a: Point, b: Point, bound: int)
    requires
        a.within(bound),
        b.within(bound),
    ensures
        0 <= a.distance(b) <= 3 * bound,
{
    let n = a.distance_squared(b);
    lemma_distance_below(a, b, 0);
    lemma_floor_sqrt_exists(n);
    let d = floor_sqrt(n);
    lemma_square_bound(a.x - b.x, 2 * bound);
    lemma_square_bound(a.y - b.y, 2 * bound);
    assert(d <= 3 * bound) by (nonlinear_arith)
        requires
            0 <= d,
            0 <= bound,
            d * d <= n,
            n <= (2 * bound) * (2 * bound) + (2 * bound) * (2 * bound),
    ;
}

/// Points within `COORD_LIMIT` of the origin are close enough for their
/// squared distance to be a valid radicand.
pub proof fn lemma_distance_squared_in_range(a: Point, b: Point)
    requires
        a.within(COORD_LIMIT as int),
        b.within(COORD_LIMIT as int),
    ensures
        0 <= (a.x - b.x) * (a.x - b.x) <= 5_316_911_983_139_663_491_615_228_241_121_378_304,
        0 <= (a.y - b.y) * (a.y - b.y) <= 5_316_911_983_139_663_491_615_228_241_121_378_304,
        0 <= a.distance_squared(b) < RADICAND_LIMIT,
{
    let w: int = 2_305_843_009_213_693_952;
    lemma_square_bound(a.x - b.x, w);
    lemma_square_bound(a.y - b.y, w);
    assert(w * w == 5_316_911_983_139_663_491_615_228_241_121_378_304) by (nonlinear_arith)
        requires
            w == 2_305_843_009_213_693_952,
    ;
}

/// A point or displacement on the fixed-point grid.
#[derive(Clone, Copy, Debug, PartialEq, Eq, Structural)]
pub struct Vector2 {
    pub x: i64,
    pub y: i64,
}

impl View for Vector2 {
    type V = Point;

    open spec fn view(&self) -> Point {
        Point { x: self.x as int, y: self.y as int }
    }
}

impl Vector2 {
    /// Both coordinates are at most `COORD_LIMIT` in magnitude.
    pub open spec fn in_range(&self) -> bool {
        self@.within(COORD_LIMIT as int)
    }

    /// Whether both coordinates are at most `COORD_LIMIT` in magnitude.
    pub fn is_in_range(&self) -> (ok: bool)
        ensures
            ok == self.in_range(),
    {
        -COORD_LIMIT <= self.x && self.x <= COORD_LIMIT && -COORD_LIMIT <= self.y && self.y
            <= COORD_LIMIT
    }

    /// The point `(x, y)` of the grid.
    pub fn new(x: i64, y: i64) -> (v: Vector2)
        ensures
            v.x == x,
            v.y == y,
    {
        Vector2 { x, y }
    }

    /// Component-wise sum.
    pub fn add(&self, v2: Vector2) -> (v: Vector2)
        requires
            i64::MIN <= self.x + v2.x <= i64::MAX,
            i64::MIN <= self.y + v2.y <= i64::MAX,
        ensures
            v@ == self@.add(v2@),
    {
        Vector2 { x: self.x + v2.x, y: self.y + v2.y }
    }

    /// The opposite displacement.
    pub fn negate(&self) -> (v: Vector2)
        requires
            self.x > i64::MIN,
            self.y > i64::MIN,
        ensures
            v@ == self@.negate(),
    {
        Vector2 { x: -self.x, y: -self.y }
    }

    /// The displacement that leads from `self` to `target`.
    pub fn heading(&self, target: Vector2) -> (v: Vector2)
        requires
            i64::MIN <= target.x - self.x <= i64::MAX,
            i64::MIN <= target.y - self.y <= i64::MAX,
        ensures
            v@ == self@.heading(target@),
    {
        Vector2 { x: target.x - self.x, y: target.y - self.y }
    }

    /// The fixed-point unit displacement toward `target`. The divisor is
    /// clamped to one grid step, so coinciding points give the zero
    /// displacement.
    pub fn direction(&self, target: Vector2) -> (v: Vector2)
        requires
            self.in_range(),
            target.in_range(),
        ensures
            v@ == self@.direction(target@),
            v@.within(SCALE as int),
    {
        let hx: i128 = target.x as i128 - self.x as i128;
        let hy: i128 = target.y as i128 - self.y as i128;
        let d: i64 = self.distance(target);
        let den: i128 = if d < 1 { 1 } else { d as i128 };
        proof {
            lemma_distance_symmetric(self@, target@);
            lemma_heading_within_distance(hx as int, hy as int, d as int);
            lemma_unit_component(hx as int, den as int);
            lemma_unit_component(hy as int, den as int);
        }
        let ux: i128 = div_trunc(hx * (SCALE as i128), den);
        let uy: i128 = div_trunc(hy * (SCALE as i128), den);
        Vector2 { x: ux as i64, y: uy as i64 }
    }

    /// The product with the fixed-point factor `num` (thousandths), each
    /// component rounded toward zero.
    pub fn mul_num(&self, num: i64) -> (v: Vector2)
        requires
            i64::MIN <= self@.mul_num(num as int).x <= i64::MAX,
            i64::MIN <= self@.mul_num(num as int).y <= i64::MAX,
        ensures
            v@ == self@.mul_num(num as int),
    {
        proof {
            lemma_product_fits(self.x as int, num as int);
            lemma_product_fits(self.y as int, num as int);
        }
        let px: i128 = div_trunc((self.x as i128) * (num as i128), SCALE as i128);
        let py: i128 = div_trunc((self.y as i128) * (num as i128), SCALE as i128);
        Vector2 { x: px as i64, y: py as i64 }
    }

    /// Square of the Euclidean distance to `v2`.
    pub fn distance_squared(&self, v2: Vector2) -> (d: i128)
        requires
            self.in_range(),
            v2.in_range(),
        ensures
            d == self@.distance_squared(v2@),
            0 <= d < RADICAND_LIMIT,
    {
        let dx: i128 = self.x as i128 - v2.x as i128;
        let dy: i128 = self.y as i128 - v2.y as i128;
        proof {
            lemma_distance_squared_in_range(self@, v2@);
        }
        dx * dx + dy * dy
    }

    /// Euclidean distance to `v2`, rounded down to the grid.
    pub fn distance(&self, v2: Vector2) -> (d: i64)
        requires
            self.in_range(),
            v2.in_range(),
        ensures
            d == self@.distance(v2@),
            is_floor_sqrt(d as int, self@.distance_squared(v2@)),
    {
        isqrt(self.distance_squared(v2))
    }
}

/// Neither component of a displacement is longer than the displacement.
proof fn lemma_heading_within_distance(hx: int, hy: int, d: int)
    requires
        is_floor_sqrt(d, hx * hx + hy * hy),
    ensures
        -d <= hx <= d,
        -d <= hy <= d,
{
    assert(-d <= hx <= d && -d <= hy <= d) by (nonlinear_arith)
        requires
            0 <= d,
            hx * hx + hy * hy < (d + 1) * (d + 1),
    ;
}

/// A component divided by a length that bounds it is at most one unit.
proof fn lemma_unit_component(h: int, den: int)
    requires
        den >= 1,
        -den <= h <= den,
    ensures
        -SCALE <= trunc_div(h * SCALE, den) <= SCALE,
{
    if h >= 0 {
        assert(0 <= (h * 1000) / den <= 1000) by (nonlinear_arith)
            requires
                0 <= h <= den,
                den >= 1,
        ;
    } else {
        assert(0 <= ((-h) * 1000) / den <= 1000) by (nonlinear_arith)
            requires
                0 <= -h <= den,
                den >= 1,
        ;
        assert(-(h * 1000) == (-h) * 1000);
    }
}

/// The product of two 64-bit integers fits in 128 bits.
pub proof fn lemma_product_fits(a: int, b: int)
    by (nonlinear_arith)
    requires
        i64::MIN <= a <= i64::MAX,
        i64::MIN <= b <= i64::MAX,
    ensures
        i128::MIN < a * b < i128::MAX,
{
}

} // verus!
