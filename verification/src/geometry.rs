//! Planar geometry on whole-number coordinates.
//!
//! A coordinate is a signed count of the rangefinder's distance unit. Every
//! predicate is decided exactly: distances are compared through their squares,
//! slopes through cross products, so no rounding enters a decision.

use vstd::prelude::*;

verus! {

/// Largest magnitude of a coordinate for which the predicates of this module
/// are computed without overflow.
pub const COORD_LIMIT: i64 = 1_000_000;

/// A pair of coordinates.
#[derive(Clone, Copy, Debug, PartialEq)]
pub struct Vec2<T> {
    pub x: T,
    pub y: T,
}

/// A point of the plane on whole-number coordinates.
pub type Point = Vec2<i64>;

/// A non-negative fraction `num / den`, used for tolerances and for the
/// width of a grid cell.
#[derive(Clone, Copy, Debug, PartialEq, Eq)]
pub struct Ratio {
    pub num: u32,
    pub den: u32,
}

/// A line in implicit form: the points with `a*x + b*y + c == 0`.
#[derive(Clone, Copy, Debug, PartialEq, Eq)]
pub struct Line {
    pub a: i64,
    pub b: i64,
    pub c: i64,
}

/// A straight run between two points.
#[derive(Clone, Copy, Debug, PartialEq)]
pub struct Segment {
    pub p1: Point,
    pub p2: Point,
}

/// The absolute value of an integer.
pub open spec fn abs(v: int) -> int {
    if v < 0 {
        -v
    } else {
        v
    }
}

/// All points of the cloud are in range.
pub open spec fn cloud_in_range(points: Seq<Point>) -> bool {
    forall|i: int| 0 <= i < points.len() ==> (#[trigger] points[i]).in_range()
}

/// `r` is the whole part of the square root of `v`.
pub open spec fn is_floor_sqrt(r: int, v: int) -> bool {
    0 <= r && r * r <= v < (r + 1) * (r + 1)
}

/// The product of two bounded integers is bounded by the product of the bounds.
pub proof fn lemma_product_bound(u: int, v: int, bu: int, bv: int)
    requires
        abs(u) <= bu,
        abs(v) <= bv,
    ensures
        abs(u * v) <= bu * bv,
        -(bu * bv) <= u * v <= bu * bv,
{
    assert(abs(u * v) <= bu * bv) by (nonlinear_arith)
        requires
            abs(u) <= bu,
            abs(v) <= bv,
    ;
}

/// The square of `COORD_LIMIT`, written out.
pub proof fn lemma_limit_squared()
    ensures
        COORD_LIMIT * COORD_LIMIT == 1_000_000_000_000,
{
    assert(COORD_LIMIT * COORD_LIMIT == 1_000_000_000_000) by (nonlinear_arith)
        requires
            COORD_LIMIT == 1_000_000,
    ;
}

/// The whole part of the square root of `v`.
pub fn isqrt(v: u128) -> (r: u64)
    ensures
        is_floor_sqrt(r as int, v as int),
{
    let mut lo: u64 = 0;
    let mut hi: u64 = u64::MAX;
    assert(v < (hi + 1) * (hi + 1)) by (nonlinear_arith)
        requires
            hi == u64::MAX,
            v <= u128::MAX,
    ;
    while lo < hi
        invariant
            lo <= hi,
            lo * lo <= v,
            v < (hi + 1) * (hi + 1),
        decreases hi - lo,
    {
        let mid: u64 = lo + (hi - lo - 1) / 2 + 1;
        assert(mid * mid <= u128::MAX) by (nonlinear_arith)
            requires
                mid <= u64::MAX,
        ;
        let sq: u128 = (mid as u128) * (mid as u128);
        if sq <= v {
            lo = mid;
        } else {
            hi = mid - 1;
        }
    }
    lo
}

impl<T> Vec2<T> {
    /// The pair `(x, y)`.
    pub fn new(x: T, y: T) -> (v: Vec2<T>)
        ensures
            v.x == x,
            v.y == y,
    {
        Self { x, y }
    }

    /// The two coordinates as a tuple.
    pub fn into_pair(self) -> (pair: (T, T))
        ensures
            pair.0 == self.x,
            pair.1 == self.y,
    {
        (self.x, self.y)
    }
}

impl<T> From<Vec2<T>> for (T, T) {
    fn from(val: Vec2<T>) -> (pair: Self) {
        (val.x, val.y)
    }
}

impl<T> vstd::std_specs::convert::FromSpecImpl<Vec2<T>> for (T, T) {
    open spec fn obeys_from_spec() -> bool {
        true
    }

    open spec fn from_spec(val: Vec2<T>) -> Self {
        (val.x, val.y)
    }
}

impl<T> From<(T, T)> for Vec2<T> {
    fn from(value: (T, T)) -> (v: Self) {
        Self { x: value.0, y: value.1 }
    }
}

impl<T> vstd::std_specs::convert::FromSpecImpl<(T, T)> for Vec2<T> {
    open spec fn obeys_from_spec() -> bool {
        true
    }

    open spec fn from_spec(value: (T, T)) -> Self {
        Vec2 { x: value.0, y: value.1 }
    }
}

impl Vec2<i64> {
    /// Both coordinates lie within `COORD_LIMIT` of zero.
    pub open spec fn in_range(self) -> bool {
        -COORD_LIMIT <= self.x <= COORD_LIMIT && -COORD_LIMIT <= self.y <= COORD_LIMIT
    }

    /// The square of the distance from the origin.
    pub open spec fn norm_sq(self) -> int {
        self.x * self.x + self.y * self.y
    }

    /// Whether both coordinates lie within `COORD_LIMIT` of zero.
    pub fn is_in_range(&self) -> (ok: bool)
        ensures
            ok == self.in_range(),
    {
        -COORD_LIMIT <= self.x && self.x <= COORD_LIMIT && -COORD_LIMIT <= self.y && self.y
            <= COORD_LIMIT
    }

    /// Whether two points have the same coordinates.
    pub fn same_as(&self, other: &Point) -> (same: bool)
        ensures
            same == (*self == *other),
    {
        self.x == other.x && self.y == other.y
    }

    /// The square of the distance from the origin.
    pub fn length_squared(&self) -> (sq: u128)
        ensures
            sq as int == self.norm_sq(),
    {
        let ghost x: int = self.x as int;
        let ghost y: int = self.y as int;
        proof {
            lemma_product_bound(x, x, 0x8000_0000_0000_0000, 0x8000_0000_0000_0000);
            lemma_product_bound(y, y, 0x8000_0000_0000_0000, 0x8000_0000_0000_0000);
            assert(x * x >= 0 && y * y >= 0) by (nonlinear_arith);
        }
        let xx: i128 = (self.x as i128) * (self.x as i128);
        let yy: i128 = (self.y as i128) * (self.y as i128);
        (xx as u128) + (yy as u128)
    }

    /// The distance from the origin, rounded down to a whole number.
    pub fn length(&self) -> (len: u64)
        ensures
            is_floor_sqrt(len as int, self.norm_sq()),
    {
        isqrt(self.length_squared())
    }
}

/// Whether all points of the cloud are in range.
pub fn all_in_range(points: &[Point]) -> (ok: bool)
    ensures
        ok == cloud_in_range(points@),
{
    let mut i: usize = 0;
    while i < points.len()
        invariant
            i <= points@.len(),
            forall|j: int| 0 <= j < i ==> (#[trigger] points@[j]).in_range(),
        decreases points@.len() - i,
    {
        if !points[i].is_in_range() {
            return false;
        }
        i = i + 1;
    }
    true
}

impl Ratio {
    /// The fraction `num / den`.
    pub fn new(num: u32, den: u32) -> (r: Ratio)
        ensures
            r.num == num,
            r.den == den,
    {
        Ratio { num, den }
    }
}

impl Line {
    /// The coefficients are of the size that a segment between two points in
    /// range gives.
    pub open spec fn wf(self) -> bool {
        &&& abs(self.a as int) <= 2 * COORD_LIMIT
        &&& abs(self.b as int) <= 2 * COORD_LIMIT
        &&& abs(self.c as int) <= 4 * COORD_LIMIT * COORD_LIMIT
    }

    /// The value of `a*x + b*y + c` at `p`: zero on the line, and otherwise the
    /// distance of `p` from the line, signed, times the length of `(a, b)`.
    pub open spec fn offset(self, p: Point) -> int {
        self.a * p.x + self.b * p.y + self.c
    }

    /// The square of the length of the normal `(a, b)`.
    pub open spec fn normal_sq(self) -> int {
        self.a * self.a + self.b * self.b
    }

    /// The line with no direction, which a segment of one point gives.
    pub open spec fn is_degenerate(self) -> bool {
        self.a == 0 && self.b == 0
    }

    /// The line through the two end points of `s`.
    pub open spec fn through(s: Segment) -> Line {
        Line {
            a: (s.p1.y - s.p2.y) as i64,
            b: (s.p2.x - s.p1.x) as i64,
            c: (s.p1.x * (s.p2.y - s.p1.y) - s.p1.y * (s.p2.x - s.p1.x)) as i64,
        }
    }

    /// Both lines are vertical, or they have the same slope.
    pub open spec fn parallel(self, other: Line) -> bool {
        ||| self.b == 0 && other.b == 0
        ||| self.b != 0 && other.b != 0 && self.a * other.b == other.a * self.b
    }

    /// The lines are parallel, or their slopes differ by at most `tolerance`;
    /// where one of them is vertical, the sum of the two `b` is smaller than
    /// `tolerance`.
    pub open spec fn close_to_parallel(self, other: Line, tolerance: Ratio) -> bool {
        if self.parallel(other) {
            true
        } else if self.b == 0 || other.b == 0 {
            tolerance.den * abs(self.b + other.b) < tolerance.num
        } else {
            tolerance.den * abs(self.a * other.b - other.a * self.b) <= tolerance.num * abs(
                self.b * other.b,
            )
        }
    }

    /// The lines are close to parallel and their constant terms differ by at
    /// most `distance`.
    pub open spec fn close_to_collinear(self, other: Line, slope_diff: Ratio, distance: u64) -> bool {
        self.close_to_parallel(other, slope_diff) && abs(self.c - other.c) <= distance
    }

    /// Whether the coefficients are of the size that a segment between two
    /// points in range gives.
    pub fn is_wf(&self) -> (ok: bool)
        ensures
            ok == self.wf(),
    {
        proof {
            lemma_limit_squared();
        }
        -2 * COORD_LIMIT <= self.a && self.a <= 2 * COORD_LIMIT && -2 * COORD_LIMIT <= self.b
            && self.b <= 2 * COORD_LIMIT && -4_000_000_000_000 <= self.c && self.c
            <= 4_000_000_000_000
    }

    /// The line `a*x + b*y + c == 0`.
    pub fn new(a: i64, b: i64, c: i64) -> (l: Line)
        ensures
            l.a == a,
            l.b == b,
            l.c == c,
    {
        Self { a, b, c }
    }

    /// The line `y == a*x + b`, of slope `a` and intercept `b`.
    pub fn from2(a: i64, b: i64) -> (l: Line)
        ensures
            l.a == a,
            l.b == -1,
            l.c == b,
    {
        Self { a, b: -1, c: b }
    }

    /// The line through the two end points of `s`.
    pub fn from_segment(s: &Segment) -> (l: Line)
        requires
            s.in_range(),
        ensures
            l == Line::through(*s),
            l.wf(),
            l.a == s.p1.y - s.p2.y,
            l.b == s.p2.x - s.p1.x,
            l.c == s.p1.x * (s.p2.y - s.p1.y) - s.p1.y * (s.p2.x - s.p1.x),
    {
        let dy: i64 = s.p2.y - s.p1.y;
        let dx: i64 = s.p2.x - s.p1.x;
        proof {
            lemma_product_bound(s.p1.x as int, dy as int, COORD_LIMIT as int, 2 * COORD_LIMIT);
            lemma_product_bound(s.p1.y as int, dx as int, COORD_LIMIT as int, 2 * COORD_LIMIT);
        }
        Self { a: s.p1.y - s.p2.y, b: dx, c: s.p1.x * dy - s.p1.y * dx }
    }

    /// The value of `a*x + b*y + c` at `p`.
    pub fn offset_at(&self, p: Point) -> (n: i128)
        requires
            self.wf(),
            p.in_range(),
        ensures
            n == self.offset(p),
            abs(n as int) <= 8 * COORD_LIMIT * COORD_LIMIT,
    {
        proof {
            lemma_product_bound(self.a as int, p.x as int, 2 * COORD_LIMIT, COORD_LIMIT as int);
            lemma_product_bound(self.b as int, p.y as int, 2 * COORD_LIMIT, COORD_LIMIT as int);
        }
        (self.a as i128) * (p.x as i128) + (self.b as i128) * (p.y as i128) + (self.c as i128)
    }

    /// The square of the length of the normal `(a, b)`.
    pub fn normal_squared(&self) -> (q: i128)
        requires
            self.wf(),
        ensures
            q == self.normal_sq(),
            0 <= q <= 8 * COORD_LIMIT * COORD_LIMIT,
    {
        proof {
            lemma_product_bound(self.a as int, self.a as int, 2 * COORD_LIMIT, 2 * COORD_LIMIT);
            lemma_product_bound(self.b as int, self.b as int, 2 * COORD_LIMIT, 2 * COORD_LIMIT);
            assert(self.a * self.a >= 0) by (nonlinear_arith);
            assert(self.b * self.b >= 0) by (nonlinear_arith);
            assert((2 * COORD_LIMIT) * (2 * COORD_LIMIT) == 4 * COORD_LIMIT * COORD_LIMIT)
                by (nonlinear_arith);
        }
        (self.a as i128) * (self.a as i128) + (self.b as i128) * (self.b as i128)
    }

    /// The distance of `p` from the line, rounded down to a whole number; `None`
    /// for the line with no direction.
    pub fn distance(&self, p: Point) -> (d: Option<u64>)
        requires
            self.wf(),
            p.in_range(),
        ensures
            d is None <==> self.is_degenerate(),
            d matches Some(v) ==> v * v * self.normal_sq() <= self.offset(p) * self.offset(p) < (v
                + 1) * (v + 1) * self.normal_sq(),
    {
        let q: i128 = self.normal_squared();
        if q == 0 {
            assert(self.is_degenerate()) by (nonlinear_arith)
                requires
                    self.a * self.a + self.b * self.b == 0,
            ;
            return None;
        }
        assert(!self.is_degenerate());
        let n: i128 = self.offset_at(p);
        proof {
            lemma_limit_squared();
            lemma_product_bound(n as int, n as int, 8_000_000_000_000, 8_000_000_000_000);
            assert(n * n >= 0) by (nonlinear_arith);
        }
        let nn: i128 = n * n;
        let k: u128 = (nn / q) as u128;
        let v: u64 = isqrt(k);
        proof {
            let ghost nni: int = nn as int;
            let ghost qi: int = q as int;
            let ghost ki: int = k as int;
            let ghost vi: int = v as int;
            assert(ki * qi <= nni < (ki + 1) * qi) by (nonlinear_arith)
                requires
                    qi > 0,
                    nni >= 0,
                    ki == nni / qi,
            ;
            assert(vi * vi * qi <= nni) by (nonlinear_arith)
                requires
                    qi > 0,
                    vi * vi <= ki,
                    ki * qi <= nni,
            ;
            assert(nni < (vi + 1) * (vi + 1) * qi) by (nonlinear_arith)
                requires
                    qi > 0,
                    ki + 1 <= (vi + 1) * (vi + 1),
                    nni < (ki + 1) * qi,
            ;
        }
        Some(v)
    }

    /// Whether both lines are vertical or have the same slope.
    pub fn is_parallel(&self, other: &Line) -> (r: bool)
        requires
            self.wf(),
            other.wf(),
        ensures
            r == self.parallel(*other),
    {
        if self.b == 0 && other.b == 0 {
            true
        } else if self.b != 0 && other.b != 0 {
            proof {
                lemma_product_bound(
                    self.a as int,
                    other.b as int,
                    2 * COORD_LIMIT,
                    2 * COORD_LIMIT,
                );
                lemma_product_bound(
                    other.a as int,
                    self.b as int,
                    2 * COORD_LIMIT,
                    2 * COORD_LIMIT,
                );
            }
            self.a * other.b == other.a * self.b
        } else {
            false
        }
    }

    /// Whether the lines are parallel within `tolerance`.
    pub fn is_close_to_parallel(&self, other: &Line, tolerance: Ratio) -> (r: bool)
        requires
            self.wf(),
            other.wf(),
        ensures
            r == self.close_to_parallel(*other, tolerance),
    {
        if self.is_parallel(other) {
            true
        } else if self.b == 0 || other.b == 0 {
            let sum: i64 = self.b + other.b;
            let mag: i128 = if sum < 0 {
                -(sum as i128)
            } else {
                sum as i128
            };
            proof {
                lemma_product_bound(
                    tolerance.den as int,
                    mag as int,
                    0xffff_ffff,
                    4 * COORD_LIMIT,
                );
            }
            (tolerance.den as i128) * mag < (tolerance.num as i128)
        } else {
            proof {
                lemma_product_bound(
                    self.a as int,
                    other.b as int,
                    2 * COORD_LIMIT,
                    2 * COORD_LIMIT,
                );
                lemma_product_bound(
                    other.a as int,
                    self.b as int,
                    2 * COORD_LIMIT,
                    2 * COORD_LIMIT,
                );
                lemma_product_bound(
                    self.b as int,
                    other.b as int,
                    2 * COORD_LIMIT,
                    2 * COORD_LIMIT,
                );
            }
            let cross: i64 = self.a * other.b - other.a * self.b;
            let cross_mag: i128 = if cross < 0 {
                -(cross as i128)
            } else {
                cross as i128
            };
            let prod: i64 = self.b * other.b;
            let prod_mag: i128 = if prod < 0 {
                -(prod as i128)
            } else {
                prod as i128
            };
            proof {
                lemma_product_bound(
                    tolerance.den as int,
                    cross_mag as int,
                    0xffff_ffff,
                    8 * COORD_LIMIT * COORD_LIMIT,
                );
                lemma_product_bound(
                    tolerance.num as int,
                    prod_mag as int,
                    0xffff_ffff,
                    4 * COORD_LIMIT * COORD_LIMIT,
                );
            }
            (tolerance.den as i128) * cross_mag <= (tolerance.num as i128) * prod_mag
        }
    }

    /// Whether the lines are parallel within `slope_diff` and their constant
    /// terms differ by at most `distance`.
    pub fn is_close_to_collinear(&self, other: &Line, slope_diff: Ratio, distance: u64) -> (r:
        bool)
        requires
            self.wf(),
            other.wf(),
        ensures
            r == self.close_to_collinear(*other, slope_diff, distance),
    {
        let diff: i128 = (self.c as i128) - (other.c as i128);
        let mag: i128 = if diff < 0 {
            -diff
        } else {
            diff
        };
        self.is_close_to_parallel(other, slope_diff) && mag <= (distance as i128)
    }
}

impl Segment {
    /// Both end points are in range.
    pub open spec fn in_range(self) -> bool {
        self.p1.in_range() && self.p2.in_range()
    }

    /// The segment from `p1` to `p2`.
    pub fn new(p1: Point, p2: Point) -> (s: Segment)
        ensures
            s.p1 == p1,
            s.p2 == p2,
    {
        Self { p1, p2 }
    }

    /// The distance of `p` from the line through the segment, rounded down to
    /// a whole number; `None` where the two end points coincide.
    pub fn distance(&self, p: Point) -> (d: Option<u64>)
        requires
            self.in_range(),
            p.in_range(),
        ensures
            d is None <==> self.p1 == self.p2,
            d matches Some(v) ==> v * v * Line::through(*self).normal_sq() <= Line::through(
                *self,
            ).offset(p) * Line::through(*self).offset(p) < (v + 1) * (v + 1) * Line::through(
                *self,
            ).normal_sq(),
    {
        Line::from_segment(self).distance(p)
    }
}

} // verus!
