//! Closed half-planes with an oriented boundary: a unit-scaled normal that
//! points from the inside toward the outside, and the boundary's signed
//! offset from the origin along that normal.

use crate::line::Line;
use crate::num::{absi, rdiv, sqrt_of, SCALE};
use crate::vec2::{dot_of, dvec, Vec2};
use vstd::prelude::*;

verus! {

/// Largest offset magnitude a well-formed half-plane may carry, raw units.
pub const OFFSET_LIMIT: i64 = 4_500_000_000;

/// A closed half-plane.
#[derive(Clone, Copy, Debug, PartialEq, Eq, Structural)]
pub struct HalfPlane {
    /// Unit-scaled normal of the boundary, pointing from inside to outside:
    /// a unit direction carries `SCALE` raw units of length.
    pub normal: Vec2,
    /// Signed distance from the origin to the boundary along `normal`,
    /// in raw units; negative when the origin is inside.
    pub offset: i64,
}

/// Signed side of the boundary, in raw-squared units: `SCALE` times the
/// signed distance of `p` from the boundary, positive outside.  Exact.
pub open spec fn side_of(hp: HalfPlane, p: Vec2) -> int {
    dot_of(p, hp.normal) - hp.offset * SCALE
}

/// What `HalfPlane::from_edge` constructs from a non-degenerate edge:
/// the normalized right-hand perpendicular of the edge direction, and the
/// offset of the edge's first point along it.
pub open spec fn from_edge_spec(l: Line) -> HalfPlane {
    let v = dvec(l.0, l.1);
    let len = sqrt_of(tlen2(v));
    let nx = rdiv(v.1 * SCALE, len);
    let ny = rdiv(-v.0 * SCALE, len);
    HalfPlane {
        normal: Vec2 { x: nx as i64, y: ny as i64 },
        offset: rdiv(l.0.x * nx + l.0.y * ny, SCALE as int) as i64,
    }
}

/// The boundary line `HalfPlane::edge` reconstructs: some boundary point,
/// and a second point one normal-perpendicular step along the boundary,
/// oriented so that `from_edge` of it reproduces the half-plane.
pub open spec fn edge_of(hp: HalfPlane) -> Line {
    let bx = rdiv(hp.normal.x * hp.offset, SCALE as int);
    let by = rdiv(hp.normal.y * hp.offset, SCALE as int);
    Line(
        Vec2 { x: bx as i64, y: by as i64 },
        Vec2 { x: (bx - hp.normal.y) as i64, y: (by + hp.normal.x) as i64 },
    )
}

/// Squared length of an integer pair.
pub open spec fn tlen2(v: (int, int)) -> int {
    v.0 * v.0 + v.1 * v.1
}

impl HalfPlane {
    /// Normal within twice the unit scale, offset bounded.
    pub open spec fn wf(self) -> bool {
        &&& self.normal.in_range(2 * SCALE as int)
        &&& -OFFSET_LIMIT <= self.offset <= OFFSET_LIMIT
    }

    /// The point is inside the closed half-plane.
    pub open spec fn contains_spec(self, p: Vec2) -> bool {
        side_of(self, p) <= 0
    }

    /// Construct from a boundary point and an outward unit-scaled normal.
    pub fn from_normal(point: Vec2, normal: Vec2) -> (r: Self)
        requires
            point.in_range(crate::num::LINE_LIMIT as int),
            normal.in_range(2 * SCALE as int),
        ensures
            r.normal == normal,
            r.offset == rdiv(dot_of(point, normal), SCALE as int),
            r.wf(),
    {
        proof {
            crate::num::lemma_mul_abs_le(
                point.x as int,
                normal.x as int,
                crate::num::LINE_LIMIT as int,
                2 * SCALE as int,
            );
            crate::num::lemma_mul_abs_le(
                point.y as int,
                normal.y as int,
                crate::num::LINE_LIMIT as int,
                2 * SCALE as int,
            );
            crate::num::lemma_rdiv_abs_le(
                dot_of(point, normal),
                SCALE as int,
                4_400_000_000,
            );
            assert(4_400_000_000int * (SCALE as int) == 2 * ((crate::num::LINE_LIMIT as int) * (2
                * SCALE as int))) by (nonlinear_arith);
        }
        let d = point.dot(normal);
        let offset = crate::num::rdiv_i128(d, SCALE as i128) as i64;
        HalfPlane { normal, offset }
    }

    /// Construct from an oriented boundary edge: walking the edge from its
    /// first point to its second leaves the inside on the left.
    pub fn from_edge(line: &Line) -> (r: Self)
        requires
            line.wf(),
            !line.degenerate_spec(),
        ensures
            r == from_edge_spec(*line),
            r.wf(),
            line.0.wf() ==> -500_000_000 <= r.offset <= 500_000_000,
    {
        let vx = line.1.x - line.0.x;
        let vy = line.1.y - line.0.y;
        proof {
            lemma_normalize_bounds(vx as int, vy as int);
        }
        let ll = (vx as i128) * (vx as i128) + (vy as i128) * (vy as i128);
        let len = crate::num::isqrt_i128(ll);
        let nx = crate::num::rdiv_i128(vy as i128 * SCALE as i128, len) as i64;
        let ny = crate::num::rdiv_i128(-(vx as i128) * SCALE as i128, len) as i64;
        let normal = Vec2 { x: nx, y: ny };
        let r = Self::from_normal(line.0, normal);
        proof {
            assert(dot_of(line.0, normal) == line.0.x * (nx as int) + line.0.y * (ny as int));
            if line.0.wf() {
                crate::num::lemma_mul_abs_le(
                    line.0.x as int,
                    nx as int,
                    crate::num::COORD_LIMIT as int,
                    2 * SCALE as int,
                );
                crate::num::lemma_mul_abs_le(
                    line.0.y as int,
                    ny as int,
                    crate::num::COORD_LIMIT as int,
                    2 * SCALE as int,
                );
                crate::num::lemma_rdiv_abs_le(dot_of(line.0, normal), SCALE as int, 400_000_000);
                assert(400_000_000int * (SCALE as int) == 2 * ((crate::num::COORD_LIMIT as int) * (
                2 * SCALE as int))) by (nonlinear_arith);
            }
        }
        r
    }

    /// Signed distance from the boundary to the point, in raw units:
    /// positive outside, negative inside.
    pub fn distance(&self, point: Vec2) -> (r: i64)
        requires
            self.wf(),
            point.wf(),
        ensures
            r == rdiv(side_of(*self, point), SCALE as int),
    {
        let s = self.side(point);
        proof {
            assert(4_900_000_000int * (SCALE as int) == 4_900_000_000_000_000int)
                by (nonlinear_arith);
            crate::num::lemma_rdiv_abs_le(side_of(*self, point), SCALE as int, 4_900_000_000);
        }
        crate::num::rdiv_i128(s, SCALE as i128) as i64
    }

    /// The exact side quantity `SCALE * distance`, free of rounding.
    pub(crate) fn side(&self, point: Vec2) -> (r: i128)
        requires
            self.wf(),
            point.wf(),
        ensures
            r == side_of(*self, point),
            -4_900_000_000_000_000 <= r <= 4_900_000_000_000_000,
    {
        proof {
            crate::num::lemma_mul_abs_le(
                point.x as int,
                self.normal.x as int,
                crate::num::COORD_LIMIT as int,
                2 * SCALE as int,
            );
            crate::num::lemma_mul_abs_le(
                point.y as int,
                self.normal.y as int,
                crate::num::COORD_LIMIT as int,
                2 * SCALE as int,
            );
            crate::num::lemma_mul_abs_le(
                self.offset as int,
                SCALE as int,
                OFFSET_LIMIT as int,
                SCALE as int,
            );
        }
        let d = point.dot(self.normal);
        d - (self.offset as i128) * (SCALE as i128)
    }

    /// Twice the boundary's wrapping contribution around the point: positive
    /// for inside points, negative outside.  The closed boundary counts as
    /// inside.
    pub fn winding_number_2(&self, point: Vec2) -> (r: i32)
        requires
            self.wf(),
            point.wf(),
        ensures
            r == if side_of(*self, point) <= 0 { 1int } else { -1int },
    {
        if self.side(point) <= 0 {
            1
        } else {
            -1
        }
    }

    /// The point is inside the closed half-plane.
    pub fn contains(&self, point: Vec2) -> (r: bool)
        requires
            self.wf(),
            point.wf(),
        ensures
            r == self.contains_spec(point),
            r == (self.winding_number_2_spec(point) > 0),
    {
        self.side(point) <= 0
    }

    /// What `winding_number_2` returns.
    pub open spec fn winding_number_2_spec(self, point: Vec2) -> int {
        if side_of(self, point) <= 0 {
            1
        } else {
            -1
        }
    }

    /// Some point on the boundary: the normal's foot from the origin.
    pub fn boundary_point(&self) -> (r: Vec2)
        requires
            self.wf(),
        ensures
            r.x == rdiv(self.normal.x * self.offset, SCALE as int),
            r.y == rdiv(self.normal.y * self.offset, SCALE as int),
            r.in_range(9_000_000_000),
    {
        proof {
            crate::num::lemma_mul_abs_le(
                self.normal.x as int,
                self.offset as int,
                2 * SCALE as int,
                OFFSET_LIMIT as int,
            );
            crate::num::lemma_mul_abs_le(
                self.normal.y as int,
                self.offset as int,
                2 * SCALE as int,
                OFFSET_LIMIT as int,
            );
            crate::num::lemma_rdiv_abs_le(
                self.normal.x * self.offset,
                SCALE as int,
                9_000_000_000,
            );
            crate::num::lemma_rdiv_abs_le(
                self.normal.y * self.offset,
                SCALE as int,
                9_000_000_000,
            );
            assert(9_000_000_000int * (SCALE as int) == (2 * SCALE as int) * (OFFSET_LIMIT as int))
                by (nonlinear_arith);
        }
        let x = crate::num::rdiv_i128(
            (self.normal.x as i128) * (self.offset as i128),
            SCALE as i128,
        ) as i64;
        let y = crate::num::rdiv_i128(
            (self.normal.y as i128) * (self.offset as i128),
            SCALE as i128,
        ) as i64;
        Vec2 { x, y }
    }

    /// A line lying on the boundary, oriented so that `from_edge` of it
    /// reproduces this half-plane's orientation.
    pub fn edge(&self) -> (r: Line)
        requires
            self.wf(),
        ensures
            r == edge_of(*self),
            r.0.x == rdiv(self.normal.x * self.offset, SCALE as int),
            r.0.y == rdiv(self.normal.y * self.offset, SCALE as int),
            r.1.x == r.0.x - self.normal.y,
            r.1.y == r.0.y + self.normal.x,
    {
        let p = self.boundary_point();
        Line(p, Vec2 { x: p.x - self.normal.y, y: p.y + self.normal.x })
    }
}

/// Bounds for normalizing a displacement: the square root of its squared
/// length is positive, and each normalized component is at most twice the
/// unit scale.
proof fn lemma_normalize_bounds(vx: int, vy: int)
    requires
        -4_000_000_000 <= vx <= 4_000_000_000,
        -4_000_000_000 <= vy <= 4_000_000_000,
        vx != 0 || vy != 0,
    ensures
        0 <= vx * vx <= 0x1_0000_0000_0000_0000,
        0 <= vy * vy <= 0x1_0000_0000_0000_0000,
        0 <= vx * vx + vy * vy <= 0x2_0000_0000_0000_0000,
        1 <= sqrt_of(vx * vx + vy * vy),
        -(2 * SCALE as int) <= rdiv(vy * SCALE, sqrt_of(vx * vx + vy * vy)) <= 2 * SCALE as int,
        -(2 * SCALE as int) <= rdiv(-vx * SCALE, sqrt_of(vx * vx + vy * vy)) <= 2 * SCALE as int,
        sqrt_of(vx * vx + vy * vy) <= 6_000_000_000,
{
    let ll = vx * vx + vy * vy;
    crate::num::lemma_mul_abs_le(vx, vx, 4_000_000_000, 4_000_000_000);
    crate::num::lemma_mul_abs_le(vy, vy, 4_000_000_000, 4_000_000_000);
    assert(vx * vx >= 0) by (nonlinear_arith);
    assert(vy * vy >= 0) by (nonlinear_arith);
    if vx != 0 {
        assert(vx * vx >= 1) by (nonlinear_arith)
            requires
                vx != 0,
        ;
    } else {
        assert(vy * vy >= 1) by (nonlinear_arith)
            requires
                vy != 0,
        ;
    }
    crate::num::lemma_sqrt_of(ll);
    let len = sqrt_of(ll);
    if len < 1 {
        assert((len + 1) * (len + 1) <= 1) by (nonlinear_arith)
            requires
                0 <= len < 1,
        ;
        assert(false);
    }
    // |vx| and |vy| are at most len: their squares are at most ll
    crate::num::lemma_sqrt_square(vx);
    crate::num::lemma_sqrt_mono(vx * vx, ll);
    crate::num::lemma_sqrt_square(vy);
    crate::num::lemma_sqrt_mono(vy * vy, ll);
    assert(absi(vx) <= len);
    assert(absi(vy) <= len);
    // each normalized component is bounded by 2 * SCALE
    assert(-((len + 1) * SCALE) <= vy * SCALE <= (len + 1) * SCALE) by (nonlinear_arith)
        requires
            -(len + 1) <= vy <= len + 1,
            len >= 0,
    ;
    assert((len + 1) * SCALE <= len * (2 * SCALE as int)) by (nonlinear_arith)
        requires
            len >= 1,
    ;
    crate::num::lemma_rdiv_abs_le(vy * SCALE, len, 2 * SCALE as int);
    assert(-((len + 1) * SCALE) <= -vx * SCALE <= (len + 1) * SCALE) by (nonlinear_arith)
        requires
            -(len + 1) <= vx <= len + 1,
            len >= 0,
    ;
    crate::num::lemma_rdiv_abs_le(-vx * SCALE, len, 2 * SCALE as int);
    assert(ll <= 6_000_000_000int * 6_000_000_000int) by (nonlinear_arith)
        requires
            ll <= 32_000_000_000_000_000_000,
    ;
    crate::num::lemma_sqrt_le(ll, 6_000_000_000);
}

} // verus!
