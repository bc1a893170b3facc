//! Geometric moment of a shape: area (zeroth moment) and centroid
//! (first moment), merged by area-weighted combination.

use crate::num::{rdiv, EPS};
use crate::vec2::Vec2;
use vstd::prelude::*;

verus! {

/// Largest area the kernel represents, in raw units of area
/// (one raw area unit is one millionth of a squared coordinate unit).
pub const AREA_LIMIT: i64 = 4_000_000_000_000_000_000;

/// Largest centroid coordinate a moment may carry, in raw units.
pub const CENTROID_LIMIT: i64 = 6_000_000_000;

/// Moment of a shape.
#[derive(Clone, Copy, Debug, PartialEq, Eq, Structural)]
pub struct Moment {
    /// Zeroth moment.
    pub area: i64,
    /// First moment.
    pub centroid: Vec2,
}

impl Moment {
    /// Area nonnegative and bounded; centroid within range.
    pub open spec fn wf(self) -> bool {
        &&& 0 <= self.area <= AREA_LIMIT
        &&& self.centroid.in_range(CENTROID_LIMIT as int)
    }

    /// The zero moment: no area, centroid conventionally at the origin.
    pub open spec fn zero_spec() -> Moment {
        Moment { area: 0, centroid: Vec2 { x: 0, y: 0 } }
    }

    pub fn zero() -> (r: Self)
        ensures
            r == Moment::zero_spec(),
    {
        Moment { area: 0, centroid: Vec2 { x: 0, y: 0 } }
    }

    /// What `merge` returns: the summed area (saturating at the area
    /// limit), with the area-weighted centroid, or the zero moment when
    /// the summed area vanishes.
    pub open spec fn merge_spec(self, other: Moment) -> Moment {
        let area = self.area + other.area;
        if area < EPS {
            Moment::zero_spec()
        } else {
            Moment {
                area: (if area > AREA_LIMIT { AREA_LIMIT as int } else { area }) as i64,
                centroid: Vec2 {
                    x: rdiv(
                        self.centroid.x * self.area + other.centroid.x * other.area,
                        area,
                    ) as i64,
                    y: rdiv(
                        self.centroid.y * self.area + other.centroid.y * other.area,
                        area,
                    ) as i64,
                },
            }
        }
    }

    /// Area-weighted combination of two moments.
    pub fn merge(self, other: Self) -> (r: Self)
        requires
            self.wf(),
            other.wf(),
        ensures
            r == self.merge_spec(other),
            r.wf(),
            self.area + other.area <= AREA_LIMIT ==> r.area == self.area + other.area || r.area
                == 0,
    {
        let sum = self.area + other.area;
        let area = if sum > AREA_LIMIT {
            AREA_LIMIT
        } else {
            sum
        };
        if sum < EPS {
            Moment::zero()
        } else {
            proof {
                lemma_weighted_centroid_bound(
                    self.centroid.x as int,
                    self.area as int,
                    other.centroid.x as int,
                    other.area as int,
                );
                lemma_weighted_centroid_bound(
                    self.centroid.y as int,
                    self.area as int,
                    other.centroid.y as int,
                    other.area as int,
                );
            }
            let cx = crate::num::rdiv_i128(
                (self.centroid.x as i128) * (self.area as i128)
                    + (other.centroid.x as i128) * (other.area as i128),
                sum as i128,
            ) as i64;
            let cy = crate::num::rdiv_i128(
                (self.centroid.y as i128) * (self.area as i128)
                    + (other.centroid.y as i128) * (other.area as i128),
                sum as i128,
            ) as i64;
            Moment { area, centroid: Vec2 { x: cx, y: cy } }
        }
    }
}

/// An area-weighted average of bounded centroid coordinates, with
/// nonnegative weights, stays within the bound.
proof fn lemma_weighted_centroid_bound(c1: int, a1: int, c2: int, a2: int)
    requires
        -(CENTROID_LIMIT as int) <= c1 <= CENTROID_LIMIT as int,
        -(CENTROID_LIMIT as int) <= c2 <= CENTROID_LIMIT as int,
        0 <= a1 <= AREA_LIMIT as int,
        0 <= a2 <= AREA_LIMIT as int,
        1 <= a1 + a2,
    ensures
        -(CENTROID_LIMIT as int) <= rdiv(c1 * a1 + c2 * a2, a1 + a2) <= CENTROID_LIMIT as int,
        -(0x1000_0000_0000_0000_0000_0000_0000_0000int) <= c1 * a1 + c2 * a2
            <= 0x1000_0000_0000_0000_0000_0000_0000_0000int,
        -(0x0800_0000_0000_0000_0000_0000_0000_0000int) <= c1 * a1
            <= 0x0800_0000_0000_0000_0000_0000_0000_0000int,
        -(0x0800_0000_0000_0000_0000_0000_0000_0000int) <= c2 * a2
            <= 0x0800_0000_0000_0000_0000_0000_0000_0000int,
{
    let b = CENTROID_LIMIT as int;
    assert(-(0x0800_0000_0000_0000_0000_0000_0000_0000int) <= c1 * a1
        <= 0x0800_0000_0000_0000_0000_0000_0000_0000int) by (nonlinear_arith)
        requires
            -b <= c1 <= b,
            0 <= a1 <= 2 * AREA_LIMIT as int,
            b == CENTROID_LIMIT as int,
    ;
    assert(-(0x0800_0000_0000_0000_0000_0000_0000_0000int) <= c2 * a2
        <= 0x0800_0000_0000_0000_0000_0000_0000_0000int) by (nonlinear_arith)
        requires
            -b <= c2 <= b,
            0 <= a2 <= 2 * AREA_LIMIT as int,
            b == CENTROID_LIMIT as int,
    ;
    assert(-(b * a1) <= c1 * a1 <= b * a1) by (nonlinear_arith)
        requires
            -b <= c1 <= b,
            0 <= a1,
    ;
    assert(-(b * a2) <= c2 * a2 <= b * a2) by (nonlinear_arith)
        requires
            -b <= c2 <= b,
            0 <= a2,
    ;
    assert(b * a1 + b * a2 == b * (a1 + a2)) by (nonlinear_arith);
    crate::num::lemma_rdiv_abs_le(c1 * a1 + c2 * a2, a1 + a2, b);
    assert(b * (a1 + a2) <= 0x1000_0000_0000_0000_0000_0000_0000_0000int) by (nonlinear_arith)
        requires
            0 <= a1 + a2 <= 2 * AREA_LIMIT as int,
            b == CENTROID_LIMIT as int,
    ;
    assert(a1 + a2 <= 2 * AREA_LIMIT as int);
}

impl Default for Moment {
    /// The zero moment.
    fn default() -> (r: Self)
        ensures
            r == Moment::zero_spec(),
    {
        Moment::zero()
    }
}

} // verus!
