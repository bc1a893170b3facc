//! The kernel's 2D vector: a pair of fixed-point coordinates in raw units.

use crate::num::{rdiv, COORD_LIMIT};
use vstd::prelude::*;

verus! {

/// Magnitude bound for operands of the bilinear operations (dot, cross):
/// wide enough for every derived quantity of the kernel, and small enough
/// that products of two such values fit comfortably in `i128`.
pub const SPAN_LIMIT: i64 = 4_000_000_000_000_000_000;

/// A 2D point or direction in raw units.
#[derive(Clone, Copy, Debug, PartialEq, Eq, Structural)]
pub struct Vec2 {
    pub x: i64,
    pub y: i64,
}

/// Sum of componentwise products, exact.
pub open spec fn dot_of(a: Vec2, b: Vec2) -> int {
    a.x * b.x + a.y * b.y
}

/// 2D scalar cross product (perpendicular dot), exact.
pub open spec fn cross_of(a: Vec2, b: Vec2) -> int {
    a.x * b.y - a.y * b.x
}

/// Squared Euclidean length, exact.
pub open spec fn len2_of(a: Vec2) -> int {
    a.x * a.x + a.y * a.y
}

/// Displacement from `a` to `b` as a pair of unbounded integers.
pub open spec fn dvec(a: Vec2, b: Vec2) -> (int, int) {
    (b.x - a.x, b.y - a.y)
}

/// Dot product of integer pairs.
pub open spec fn tdot(a: (int, int), b: (int, int)) -> int {
    a.0 * b.0 + a.1 * b.1
}

/// 2D scalar cross product of integer pairs.
pub open spec fn tcross(a: (int, int), b: (int, int)) -> int {
    a.0 * b.1 - a.1 * b.0
}

/// An optional returned point agrees with an optional specified point.
pub open spec fn matches_point(r: Option<Vec2>, s: Option<(int, int)>) -> bool {
    match (r, s) {
        (Some(p), Some(q)) => p.x == q.0 && p.y == q.1,
        (None, None) => true,
        _ => false,
    }
}

impl Vec2 {
    /// Both coordinates within `b` raw units of zero.
    pub open spec fn in_range(self, b: int) -> bool {
        -b <= self.x <= b && -b <= self.y <= b
    }

    /// Within the kernel's coordinate range.
    pub open spec fn wf(self) -> bool {
        self.in_range(COORD_LIMIT as int)
    }

    pub fn new(x: i64, y: i64) -> (r: Self)
        ensures
            r.x == x,
            r.y == y,
    {
        Vec2 { x, y }
    }

    pub fn zero() -> (r: Self)
        ensures
            r.x == 0,
            r.y == 0,
    {
        Vec2 { x: 0, y: 0 }
    }

    pub fn add(self, o: Vec2) -> (r: Self)
        requires
            self.in_range(SPAN_LIMIT as int),
            o.in_range(SPAN_LIMIT as int),
        ensures
            r.x == self.x + o.x,
            r.y == self.y + o.y,
    {
        Vec2 { x: self.x + o.x, y: self.y + o.y }
    }

    pub fn sub(self, o: Vec2) -> (r: Self)
        requires
            self.in_range(SPAN_LIMIT as int),
            o.in_range(SPAN_LIMIT as int),
        ensures
            r.x == self.x - o.x,
            r.y == self.y - o.y,
    {
        Vec2 { x: self.x - o.x, y: self.y - o.y }
    }

    /// Counterclockwise quarter turn.
    pub fn perp(self) -> (r: Self)
        requires
            self.in_range(SPAN_LIMIT as int),
        ensures
            r.x == -self.y,
            r.y == self.x,
    {
        Vec2 { x: -self.y, y: self.x }
    }

    pub fn neg(self) -> (r: Self)
        requires
            self.in_range(SPAN_LIMIT as int),
        ensures
            r.x == -self.x,
            r.y == -self.y,
    {
        Vec2 { x: -self.x, y: -self.y }
    }

    pub fn dot(self, o: Vec2) -> (r: i128)
        requires
            self.in_range(SPAN_LIMIT as int),
            o.in_range(SPAN_LIMIT as int),
        ensures
            r == dot_of(self, o),
    {
        proof {
            lemma_bilinear_bound(self, o);
        }
        (self.x as i128) * (o.x as i128) + (self.y as i128) * (o.y as i128)
    }

    pub fn cross(self, o: Vec2) -> (r: i128)
        requires
            self.in_range(SPAN_LIMIT as int),
            o.in_range(SPAN_LIMIT as int),
        ensures
            r == cross_of(self, o),
    {
        proof {
            lemma_bilinear_bound(self, o);
        }
        (self.x as i128) * (o.y as i128) - (self.y as i128) * (o.x as i128)
    }

    pub fn length_squared(self) -> (r: i128)
        requires
            self.in_range(SPAN_LIMIT as int),
        ensures
            r == len2_of(self),
            r >= 0,
            r <= 0x2000_0000_0000_0000_0000_0000_0000_0000,
    {
        proof {
            lemma_bilinear_bound(self, self);
            assert(self.x * self.x >= 0) by (nonlinear_arith);
            assert(self.y * self.y >= 0) by (nonlinear_arith);
        }
        (self.x as i128) * (self.x as i128) + (self.y as i128) * (self.y as i128)
    }

    /// Midpoint, each coordinate rounded to the nearest raw unit.
    pub fn midpoint(self, o: Vec2) -> (r: Self)
        requires
            self.in_range(SPAN_LIMIT as int),
            o.in_range(SPAN_LIMIT as int),
        ensures
            r.x == rdiv(self.x + o.x, 2),
            r.y == rdiv(self.y + o.y, 2),
            r.in_range(SPAN_LIMIT as int),
    {
        proof {
            crate::num::lemma_rdiv_abs_le(self.x + o.x, 2, SPAN_LIMIT as int);
            crate::num::lemma_rdiv_abs_le(self.y + o.y, 2, SPAN_LIMIT as int);
        }
        let x = crate::num::rdiv_i128(self.x as i128 + o.x as i128, 2) as i64;
        let y = crate::num::rdiv_i128(self.y as i128 + o.y as i128, 2) as i64;
        Vec2 { x, y }
    }
}

/// Products of two `SPAN_LIMIT`-bounded coordinates stay far inside `i128`.
pub proof fn lemma_bilinear_bound(a: Vec2, b: Vec2)
    requires
        a.in_range(SPAN_LIMIT as int),
        b.in_range(SPAN_LIMIT as int),
    ensures
        -(0x1000_0000_0000_0000_0000_0000_0000_0000int) <= a.x * b.x
            <= 0x1000_0000_0000_0000_0000_0000_0000_0000int,
        -(0x1000_0000_0000_0000_0000_0000_0000_0000int) <= a.y * b.y
            <= 0x1000_0000_0000_0000_0000_0000_0000_0000int,
        -(0x1000_0000_0000_0000_0000_0000_0000_0000int) <= a.x * b.y
            <= 0x1000_0000_0000_0000_0000_0000_0000_0000int,
        -(0x1000_0000_0000_0000_0000_0000_0000_0000int) <= a.y * b.x
            <= 0x1000_0000_0000_0000_0000_0000_0000_0000int,
{
    let l = SPAN_LIMIT as int;
    crate::num::lemma_mul_abs_le(a.x as int, b.x as int, l, l);
    crate::num::lemma_mul_abs_le(a.y as int, b.y as int, l, l);
    crate::num::lemma_mul_abs_le(a.x as int, b.y as int, l, l);
    crate::num::lemma_mul_abs_le(a.y as int, b.x as int, l, l);
    assert(l * l <= 0x1000_0000_0000_0000_0000_0000_0000_0000int) by (nonlinear_arith)
        requires
            l == SPAN_LIMIT as int,
    ;
}

} // verus!
