//! Circular arcs given by chord endpoints and a signed sagitta, and the
//! disk segment bounded by an arc and its chord.
//!
//! The sagitta is the distance from the chord's midpoint to the arc's
//! midpoint.  It is signed: walking the chord from its first point to its
//! second, a positive sagitta bulges to the right, a negative one to the
//! left.

use crate::line::LineSegment;
use crate::moment::Moment;
use crate::num::{absi, clampi, clampr, rdiv, sqrt_of, EPS, SCALE};
use crate::trig::{angle_spec, HALF_TURN};
use crate::vec2::{dvec, tdot, Vec2};
use vstd::prelude::*;

verus! {

/// Largest magnitude of an arc endpoint coordinate or sagitta, raw units:
/// wider than the kernel's input range, so that arcs produced by the
/// intersection derivations are representable.
pub const ARC_LIMIT: i64 = 800_000_000;

/// Circular arc: chord endpoints plus signed sagitta.
#[derive(Clone, Copy, Debug, PartialEq, Eq)]
pub struct Arc {
    pub points: (Vec2, Vec2),
    pub sagitta: i64,
}

/// Start point of an [`Arc`] with the sagitta of the arc leading to the
/// next vertex.
#[derive(Clone, Copy, Debug, PartialEq, Eq, Structural)]
pub struct ArcVertex {
    pub point: Vec2,
    pub sagitta: i64,
}

/// Disk segment bounded by an arc and its chord.
#[derive(Clone, Copy, Debug, PartialEq, Eq)]
pub struct DiskSegment(pub Arc);

impl Arc {
    /// Endpoints and sagitta within the arc range.
    pub open spec fn wf(self) -> bool {
        &&& self.points.0.in_range(ARC_LIMIT as int)
        &&& self.points.1.in_range(ARC_LIMIT as int)
        &&& -ARC_LIMIT <= self.sagitta <= ARC_LIMIT
    }

    /// The chord connecting the arc's endpoints.
    pub fn chord(&self) -> (r: LineSegment)
        ensures
            r == LineSegment(self.points.0, self.points.1),
    {
        LineSegment(self.points.0, self.points.1)
    }

    /// The arc leading from one vertex to the next: it starts at the first
    /// vertex and carries that vertex's sagitta.
    pub fn from_vertices(a: &ArcVertex, b: &ArcVertex) -> (r: Self)
        ensures
            r == (Arc { points: (a.point, b.point), sagitta: a.sagitta }),
    {
        Arc { points: (a.point, b.point), sagitta: a.sagitta }
    }
}

impl ArcVertex {
    /// Point and sagitta within the arc range.
    pub open spec fn wf(self) -> bool {
        &&& self.point.in_range(ARC_LIMIT as int)
        &&& -ARC_LIMIT <= self.sagitta <= ARC_LIMIT
    }
}

/// Twice the wrapping contribution of a disk segment's boundary around a
/// point: `2` (sign of the sagitta) for points between chord and arc,
/// `0` elsewhere.  A degenerate sagitta contributes nothing.
///
/// The point is in the segment when it lies inside the subtending circle
/// and on the bulge side of the chord.  The circle test is the cleared
/// integer form of `|p - center|^2 <= radius^2` with the chord length
/// rounded once to `sqrt_of` of its exact square.
pub open spec fn seg_winding_spec(seg: DiskSegment, p: Vec2) -> int {
    let a = seg.0.points.0;
    let b = seg.0.points.1;
    let s = absi(seg.0.sagitta as int);
    if s < EPS as int {
        0
    } else {
        let cx = rdiv(a.x + b.x, 2);
        let cy = rdiv(a.y + b.y, 2);
        let bv = dvec(a, b);
        let l2 = bv.0 * bv.0 + bv.1 * bv.1;
        let hl = sqrt_of(l2);
        let v = (p.x - cx, p.y - cy);
        let w0 = v.0 * bv.1 - v.1 * bv.0;
        let w = if seg.0.sagitta > 0 {
            w0
        } else {
            -w0
        };
        let vv = v.0 * v.0 + v.1 * v.1;
        if (4 * vv - l2) * (s * hl) <= (4 * (s * s) - l2) * w && w > 0 {
            if seg.0.sagitta > 0 {
                2
            } else {
                -2
            }
        } else {
            0
        }
    }
}


/// The subtending circle's radius of a chord of squared length `l2` and
/// sagitta `s`, rounded once: `(l2 + 4 s^2) / (8 s)`.
pub open spec fn seg_radius_spec(l2: int, s: int) -> int {
    rdiv(l2 + 4 * (s * s), 8 * s)
}

/// The segment's area fraction (in units of the squared radius, scaled)
/// and the centroid offset factor (scaled), from the half-angle's cosine
/// and sine.  The exact trigonometric form is used unless the sagitta is
/// below a twenty-fifth of the radius, where the angle's raw-unit resolution
/// makes the direct formula lose precision and a parabolic approximation
/// is more accurate; both results are clamped into their analytic ranges.
pub open spec fn seg_frac_spec(s: int, radius: int, cos: int, sine: int) -> (int, int) {
    let fo = if s * 25 > radius {
        let theta = angle_spec(cos, sine);
        let af = clampr(theta - rdiv(cos * sine, SCALE as int), 0, HALF_TURN as int);
        if af < 1 {
            (0int, SCALE as int)
        } else {
            (af, rdiv(2 * (sine * sine * sine), 3 * af * SCALE))
        }
    } else {
        let y = SCALE - absi(cos);
        let fr = clampr(rdiv(4 * sqrt_of(2 * y * SCALE) * y, 3 * SCALE), 0, HALF_TURN as int);
        let of = SCALE - rdiv(3 * y, 5);
        if cos > 0 {
            (fr, of)
        } else {
            let af2 = HALF_TURN - fr;
            if af2 < 1 {
                (0int, SCALE as int)
            } else {
                (af2, -rdiv(of * fr, af2))
            }
        }
    };
    (clampr(fo.0, 0, HALF_TURN as int), clampr(fo.1, -(2 * SCALE as int), 2 * SCALE as int))
}

/// The moment of a disk segment: the area fraction scaled by the squared
/// radius, and the centroid displaced from the chord midpoint along the
/// bulge normal; area and centroid are clamped into the representable
/// ranges.  A degenerate sagitta gives a zero-area moment centred on the
/// chord midpoint.
pub open spec fn seg_moment_spec(seg: DiskSegment) -> Moment {
    let a = seg.0.points.0;
    let b = seg.0.points.1;
    let s = absi(seg.0.sagitta as int);
    let cx = rdiv(a.x + b.x, 2);
    let cy = rdiv(a.y + b.y, 2);
    if s < EPS as int {
        Moment { area: 0, centroid: Vec2 { x: cx as i64, y: cy as i64 } }
    } else {
        let bv = dvec(a, b);
        let l2 = bv.0 * bv.0 + bv.1 * bv.1;
        let hl = sqrt_of(l2);
        let radius = seg_radius_spec(l2, s);
        let cos = clampr(SCALE - rdiv(s * SCALE, radius), -(2 * SCALE as int), SCALE as int);
        let sine = clampr(rdiv(hl * SCALE, 2 * radius), 0, 2 * SCALE as int);
        let fo = seg_frac_spec(s, radius, cos, sine);
        let rr = radius * radius;
        let area0 = if rr <= 0x1000_0000_0000_0000_0000_0000 {
            rdiv(fo.0 * rr, 1_000_000_000_000)
        } else {
            fo.0 * rdiv(rr, 1_000_000_000_000)
        };
        let cen_off = s + rdiv(radius * (fo.1 - SCALE), SCALE as int);
        let sg = if seg.0.sagitta > 0 {
            1int
        } else {
            -1int
        };
        let nux = if hl >= 1 {
            rdiv(sg * bv.1 * SCALE, hl)
        } else {
            0
        };
        let nuy = if hl >= 1 {
            rdiv(-(sg * bv.0) * SCALE, hl)
        } else {
            sg * SCALE
        };
        Moment {
            area: clampr(area0, 0, crate::moment::AREA_LIMIT as int) as i64,
            centroid: Vec2 {
                x: clampi(
                    cx + rdiv(nux * cen_off, SCALE as int),
                    crate::moment::CENTROID_LIMIT as int,
                ) as i64,
                y: clampi(
                    cy + rdiv(nuy * cen_off, SCALE as int),
                    crate::moment::CENTROID_LIMIT as int,
                ) as i64,
            },
        }
    }
}

impl DiskSegment {
    /// The underlying arc is well-formed.
    pub open spec fn wf(self) -> bool {
        self.0.wf()
    }

    /// The point lies strictly between the chord and the arc.
    pub open spec fn contains_spec(self, p: Vec2) -> bool {
        seg_winding_spec(self, p) > 0
    }

    /// Twice the boundary's wrapping contribution around the point.
    pub fn winding_number_2(&self, point: Vec2) -> (r: i32)
        requires
            self.wf(),
            point.wf(),
        ensures
            r == seg_winding_spec(*self, point),
    {
        let a = self.0.points.0;
        let b = self.0.points.1;
        let s: i64 = if self.0.sagitta < 0 {
            -self.0.sagitta
        } else {
            self.0.sagitta
        };
        if s < EPS {
            return 0;
        }
        let cx = crate::num::rdiv_i128(a.x as i128 + b.x as i128, 2) as i64;
        let cy = crate::num::rdiv_i128(a.y as i128 + b.y as i128, 2) as i64;
        let bvx = (b.x - a.x) as i128;
        let bvy = (b.y - a.y) as i128;
        proof {
            lemma_seg_products(
                a.x as int,
                a.y as int,
                b.x as int,
                b.y as int,
                point.x as int,
                point.y as int,
                s as int,
            );
        }
        let l2 = bvx * bvx + bvy * bvy;
        let hl = crate::num::isqrt_i128(l2);
        let vx = point.x as i128 - cx as i128;
        let vy = point.y as i128 - cy as i128;
        proof {
            crate::num::lemma_sqrt_of(l2 as int);
            lemma_seg_test_products(
                vx as int,
                vy as int,
                bvx as int,
                bvy as int,
                s as int,
                hl as int,
            );
        }
        let w0 = vx * bvy - vy * bvx;
        let w = if self.0.sagitta > 0 {
            w0
        } else {
            -w0
        };
        let vv = vx * vx + vy * vy;
        if (4 * vv - l2) * (s as i128 * hl) <= (4 * (s as i128 * s as i128) - l2) * w && w > 0 {
            if self.0.sagitta > 0 {
                2
            } else {
                -2
            }
        } else {
            0
        }
    }


    /// Area and centroid of the disk segment: the trigonometric segment
    /// formula over the subtending circle, with a parabolic fallback for
    /// slivers.
    #[verifier::rlimit(80)]
    pub fn moment(&self) -> (r: Moment)
        requires
            self.wf(),
        ensures
            r == seg_moment_spec(*self),
            r.wf(),
    {
        let a = self.0.points.0;
        let b = self.0.points.1;
        let s: i64 = if self.0.sagitta < 0 {
            -self.0.sagitta
        } else {
            self.0.sagitta
        };
        proof {
            crate::num::lemma_rdiv_abs_le(a.x as int + b.x as int, 2, 800_000_001);
            crate::num::lemma_rdiv_abs_le(a.y as int + b.y as int, 2, 800_000_001);
        }
        let cx = crate::num::rdiv_i128(a.x as i128 + b.x as i128, 2) as i64;
        let cy = crate::num::rdiv_i128(a.y as i128 + b.y as i128, 2) as i64;
        if s < EPS {
            return Moment { area: 0, centroid: Vec2 { x: cx, y: cy } };
        }
        let bvx = (b.x - a.x) as i128;
        let bvy = (b.y - a.y) as i128;
        proof {
            crate::num::lemma_mul_abs_le(bvx as int, bvx as int, 1_600_000_000, 1_600_000_000);
            crate::num::lemma_mul_abs_le(bvy as int, bvy as int, 1_600_000_000, 1_600_000_000);
            assert(bvx as int * bvx as int >= 0) by (nonlinear_arith);
            assert(bvy as int * bvy as int >= 0) by (nonlinear_arith);
        }
        let l2 = bvx * bvx + bvy * bvy;
        proof {
            crate::num::lemma_sqrt_of(l2 as int);
            crate::num::lemma_sqrt_le(l2 as int, 2_300_000_000);
            assert(2_300_000_000int * 2_300_000_000int >= 5_200_000_000_000_000_000int)
                by (nonlinear_arith);
            crate::num::lemma_mul_abs_le(s as int, s as int, 800_000_000, 800_000_000);
            assert(s as int * s as int >= 0) by (nonlinear_arith);
            lemma_seg_radius(l2 as int, s as int);
        }
        let hl = crate::num::isqrt_i128(l2) as i64;
        let radius = crate::num::rdiv_i128(
            l2 + 4 * ((s as i128) * (s as i128)),
            8 * (s as i128),
        ) as i64;
        proof {
            crate::num::lemma_mul_abs_le(s as int, SCALE as int, 800_000_000, 1_000_000);
            crate::num::lemma_mul_abs_le(hl as int, SCALE as int, 2_300_000_000, 1_000_000);
        }
        let cos128 = SCALE as i128 - crate::num::rdiv_i128(
            (s as i128) * (SCALE as i128),
            radius as i128,
        );
        let cos: i64 = if cos128 < -(2 * SCALE as i128) {
            -(2 * SCALE)
        } else if cos128 > SCALE as i128 {
            SCALE
        } else {
            cos128 as i64
        };
        let sine128 = crate::num::rdiv_i128((hl as i128) * (SCALE as i128), 2 * (radius as i128));
        let sine: i64 = if sine128 < 0 {
            0
        } else if sine128 > 2 * SCALE as i128 {
            2 * SCALE
        } else {
            sine128 as i64
        };
        let fo = seg_frac(s, radius, cos, sine);
        let af = fo.0;
        let off = fo.1;
        proof {
            crate::num::lemma_mul_abs_le(radius as int, radius as int, 1_000_000_000_000_000_000, 1_000_000_000_000_000_000);
            assert(radius as int * radius as int >= 0) by (nonlinear_arith);
        }
        let rr = (radius as i128) * (radius as i128);
        proof {
            if rr <= 0x1000_0000_0000_0000_0000_0000 {
                crate::num::lemma_mul_abs_le(
                    af as int,
                    rr as int,
                    3_141_593,
                    0x1000_0000_0000_0000_0000_0000,
                );
            } else {
                crate::num::lemma_rdiv_abs_le(
                    rr as int,
                    1_000_000_000_000,
                    1_000_000_000_000_000_000_000_000,
                );
                assert(1_000_000_000_000_000_000_000_000int * 1_000_000_000_000int
                    >= 1_000_000_000_000_000_000int * 1_000_000_000_000_000_000int)
                    by (nonlinear_arith);
                crate::num::lemma_mul_abs_le(
                    af as int,
                    rdiv(rr as int, 1_000_000_000_000),
                    3_141_593,
                    1_000_000_000_000_000_000_000_000,
                );
            }
        }
        let area0: i128 = if rr <= 0x1000_0000_0000_0000_0000_0000 {
            crate::num::rdiv_i128((af as i128) * rr, 1_000_000_000_000)
        } else {
            (af as i128) * crate::num::rdiv_i128(rr, 1_000_000_000_000)
        };
        let area: i64 = if area0 < 0 {
            0
        } else if area0 > crate::moment::AREA_LIMIT as i128 {
            crate::moment::AREA_LIMIT
        } else {
            area0 as i64
        };
        proof {
            crate::num::lemma_mul_abs_le(
                radius as int,
                off as int - SCALE as int,
                1_000_000_000_000_000_000,
                3_000_000,
            );
            crate::num::lemma_rdiv_abs_le(
                radius as int * (off as int - SCALE as int),
                SCALE as int,
                3_000_000_000_000_000_000,
            );
            assert(3_000_000_000_000_000_000int * (SCALE as int) == 1_000_000_000_000_000_000int
                * 3_000_000int) by (nonlinear_arith);
        }
        let cen_off: i128 = s as i128 + crate::num::rdiv_i128(
            (radius as i128) * (off as i128 - SCALE as i128),
            SCALE as i128,
        );
        let sg: i64 = if self.0.sagitta > 0 {
            1
        } else {
            -1
        };
        let nux: i64;
        let nuy: i64;
        if hl >= 1 {
            proof {
                lemma_seg_normal(bvx as int, bvy as int, l2 as int, hl as int, sg as int);
            }
            nux = crate::num::rdiv_i128(
                (sg as i128) * bvy * (SCALE as i128),
                hl as i128,
            ) as i64;
            nuy = crate::num::rdiv_i128(
                -((sg as i128) * bvx) * (SCALE as i128),
                hl as i128,
            ) as i64;
        } else {
            nux = 0;
            nuy = sg * SCALE;
        }
        proof {
            crate::num::lemma_mul_abs_le(nux as int, cen_off as int, 1_000_000, 4_000_000_000_000_000_000);
            crate::num::lemma_mul_abs_le(nuy as int, cen_off as int, 1_000_000, 4_000_000_000_000_000_000);
            crate::num::lemma_rdiv_abs_le(
                nux as int * (cen_off as int),
                SCALE as int,
                4_000_000_000_000_000_000,
            );
            crate::num::lemma_rdiv_abs_le(
                nuy as int * (cen_off as int),
                SCALE as int,
                4_000_000_000_000_000_000,
            );
            assert(4_000_000_000_000_000_000int * (SCALE as int) == 1_000_000int
                * 4_000_000_000_000_000_000int) by (nonlinear_arith);
        }
        let gx = cx as i128 + crate::num::rdiv_i128(
            (nux as i128) * cen_off,
            SCALE as i128,
        );
        let gy = cy as i128 + crate::num::rdiv_i128(
            (nuy as i128) * cen_off,
            SCALE as i128,
        );
        let cl = crate::moment::CENTROID_LIMIT;
        let gx64: i64 = if gx > cl as i128 {
            cl
        } else if gx < -(cl as i128) {
            -cl
        } else {
            gx as i64
        };
        let gy64: i64 = if gy > cl as i128 {
            cl
        } else if gy < -(cl as i128) {
            -cl
        } else {
            gy as i64
        };
        Moment { area, centroid: Vec2 { x: gx64, y: gy64 } }
    }

    /// The point lies strictly between the chord and the arc.
    pub fn contains(&self, point: Vec2) -> (r: bool)
        requires
            self.wf(),
            point.wf(),
        ensures
            r == self.contains_spec(point),
            r == (seg_winding_spec(*self, point) > 0),
    {
        self.winding_number_2(point) > 0
    }
}


/// The area fraction and centroid offset factor of a segment.
fn seg_frac(s: i64, radius: i64, cos: i64, sine: i64) -> (r: (i64, i64))
    requires
        1 <= s <= 800_000_000,
        1 <= radius <= 1_000_000_000_000_000_000,
        -(2 * SCALE) <= cos <= SCALE,
        0 <= sine <= 2 * SCALE,
    ensures
        r.0 == seg_frac_spec(s as int, radius as int, cos as int, sine as int).0,
        r.1 == seg_frac_spec(s as int, radius as int, cos as int, sine as int).1,
        0 <= r.0 <= HALF_TURN,
        -(2 * SCALE) <= r.1 <= 2 * SCALE,
{
    let fo: (i64, i64) = if (s as i128) * 25 > radius as i128 {
        let theta = crate::trig::angle_from(cos, sine);
        proof {
            crate::num::lemma_mul_abs_le(cos as int, sine as int, 2_000_000, 2_000_000);
            crate::num::lemma_rdiv_abs_le(cos as int * (sine as int), SCALE as int, 4_000_000);
            assert(4_000_000int * (SCALE as int) == 2_000_000int * 2_000_000int)
                by (nonlinear_arith);
        }
        let af0 = theta - crate::num::rdiv_i128(
            (cos as i128) * (sine as i128),
            SCALE as i128,
        ) as i64;
        let af: i64 = if af0 < 0 {
            0
        } else if af0 > HALF_TURN {
            HALF_TURN
        } else {
            af0
        };
        if af < 1 {
            (0, SCALE)
        } else {
            proof {
                crate::num::lemma_mul_abs_le(sine as int, sine as int, 2_000_000, 2_000_000);
                crate::num::lemma_mul_abs_le(
                    sine as int * (sine as int),
                    sine as int,
                    4_000_000_000_000,
                    2_000_000,
                );
                crate::num::lemma_mul_abs_le(af as int, SCALE as int, 3_141_593, 1_000_000);
                assert(3 * (af as int * (SCALE as int)) >= 3) by (nonlinear_arith)
                    requires
                        af as int * (SCALE as int) >= 1,
                ;
                assert(af as int * (SCALE as int) >= 1) by (nonlinear_arith)
                    requires
                        af >= 1,
                        SCALE as int >= 1,
                ;
            }
            let s3 = (sine as i128) * (sine as i128) * (sine as i128);
            let off = crate::num::rdiv_i128(2 * s3, 3 * ((af as i128) * (SCALE as i128)));
            let offc: i64 = if off < -(2 * SCALE as i128) {
                -(2 * SCALE)
            } else if off > 2 * SCALE as i128 {
                2 * SCALE
            } else {
                off as i64
            };
            (af, offc)
        }
    } else {
        let ac: i64 = if cos < 0 {
            -cos
        } else {
            cos
        };
        let y = SCALE - ac;
        proof {
            crate::num::lemma_mul_abs_le(2 * (y as int), SCALE as int, 6_000_000, 1_000_000);
            if 2 * (y as int) * (SCALE as int) >= 0 {
                crate::num::lemma_sqrt_of(2 * (y as int) * (SCALE as int));
                crate::num::lemma_sqrt_le(2 * (y as int) * (SCALE as int), 3_000_000);
                assert(3_000_000int * 3_000_000int >= 6_000_000int * 1_000_000int)
                    by (nonlinear_arith);
            } else {
                assert(sqrt_of(2 * (y as int) * (SCALE as int)) == 0);
            }
            crate::num::lemma_mul_abs_le(
                4 * sqrt_of(2 * (y as int) * (SCALE as int)),
                y as int,
                12_000_000,
                3_000_000,
            );
            crate::num::lemma_rdiv_abs_le(
                4 * sqrt_of(2 * (y as int) * (SCALE as int)) * (y as int),
                3 * SCALE as int,
                12_000_000,
            );
            assert(12_000_000int * (3 * SCALE as int) >= 12_000_000int * 3_000_000int)
                by (nonlinear_arith);
        }
        let yprod = 2 * (y as i128) * (SCALE as i128);
        let root: i128 = if yprod >= 0 {
            crate::num::isqrt_i128(yprod)
        } else {
            0
        };
        let fr0 = crate::num::rdiv_i128(4 * root * (y as i128), 3 * SCALE as i128) as i64;
        let fr: i64 = if fr0 < 0 {
            0
        } else if fr0 > HALF_TURN {
            HALF_TURN
        } else {
            fr0
        };
        proof {
            crate::num::lemma_rdiv_abs_le(3 * (y as int), 5, 1_200_000);
        }
        let of = SCALE - crate::num::rdiv_i128(3 * (y as i128), 5) as i64;
        if cos > 0 {
            (fr, of)
        } else {
            let af2 = HALF_TURN - fr;
            if af2 < 1 {
                (0, SCALE)
            } else {
                proof {
                    crate::num::lemma_mul_abs_le(of as int, fr as int, 2_400_000, 3_141_593);
                    crate::num::lemma_rdiv_abs_le(
                        of as int * (fr as int),
                        af2 as int,
                        7_600_000_000_000,
                    );
                    assert(7_600_000_000_000int * (af2 as int) >= 2_400_000int * 3_141_593int)
                        by (nonlinear_arith)
                        requires
                            af2 >= 1,
                    ;
                }
                let o2 = -crate::num::rdiv_i128((of as i128) * (fr as i128), af2 as i128);
                let o2c: i64 = if o2 < -(2 * SCALE as i128) {
                    -(2 * SCALE)
                } else if o2 > 2 * SCALE as i128 {
                    2 * SCALE
                } else {
                    o2 as i64
                };
                (af2, o2c)
            }
        }
    };
    let a = fo.0;
    let ac: i64 = if a < 0 {
        0
    } else if a > HALF_TURN {
        HALF_TURN
    } else {
        a
    };
    let o = fo.1;
    let oc: i64 = if o < -(2 * SCALE) {
        -(2 * SCALE)
    } else if o > 2 * SCALE {
        2 * SCALE
    } else {
        o
    };
    (ac, oc)
}

/// The rounded subtending radius is positive, at least half the sagitta
/// less one, and bounded by the chord and sagitta ranges.
proof fn lemma_seg_radius(l2: int, s: int)
    requires
        0 <= l2 <= 5_200_000_000_000_000_000,
        1 <= s <= 800_000_000,
        0 <= s * s,
        s * s <= 640_000_000_000_000_000,
    ensures
        1 <= seg_radius_spec(l2, s) <= 1_000_000_000_000_000_000,
{
    let num = l2 + 4 * (s * s);
    let den = 8 * s;
    crate::num::lemma_rdiv_err(num, den);
    let q = rdiv(num, den);
    // upper bound: num <= b * den with b = 10^18
    assert(num <= 1_000_000_000_000_000_000 * den) by (nonlinear_arith)
        requires
            num <= 7_800_000_000_000_000_000,
            den >= 8,
    ;
    crate::num::lemma_rdiv_abs_le(num, den, 1_000_000_000_000_000_000);
    // lower bound: the numerator is at least half the divisor, so the
    // rounded quotient is at least one
    assert(4 * (s * s) >= 4 * s) by (nonlinear_arith)
        requires
            s >= 1,
    ;
    assert(2 * num + den >= 2 * den);
    vstd::arithmetic::div_mod::lemma_div_non_zero(2 * num + den, 2 * den);
    assert(q == (2 * num + den) / (2 * den));
    if q < 1 {
        assert(false);
    }
}

/// The bulge normal components are unit-scaled.
proof fn lemma_seg_normal(bvx: int, bvy: int, l2: int, hl: int, sg: int)
    requires
        -1_600_000_000 <= bvx <= 1_600_000_000,
        -1_600_000_000 <= bvy <= 1_600_000_000,
        l2 == bvx * bvx + bvy * bvy,
        hl == sqrt_of(l2),
        1 <= hl,
        sg == 1 || sg == -1,
    ensures
        -1_000_000 <= rdiv(sg * bvy * SCALE, hl) <= 1_000_000,
        -1_000_000 <= rdiv(-(sg * bvx) * SCALE, hl) <= 1_000_000,
        -2_000_000_000 <= sg * bvy <= 2_000_000_000,
        -2_000_000_000 <= -(sg * bvx) <= 2_000_000_000,
        -2_000_000_000_000_000_000 <= sg * bvy * SCALE <= 2_000_000_000_000_000_000,
        -2_000_000_000_000_000_000 <= -(sg * bvx) * SCALE <= 2_000_000_000_000_000_000,
{
    assert(-1_600_000_000 <= sg * bvy <= 1_600_000_000) by (nonlinear_arith)
        requires
            sg == 1 || sg == -1,
            -1_600_000_000 <= bvy <= 1_600_000_000,
    ;
    assert(-1_600_000_000 <= sg * bvx <= 1_600_000_000) by (nonlinear_arith)
        requires
            sg == 1 || sg == -1,
            -1_600_000_000 <= bvx <= 1_600_000_000,
    ;
    crate::num::lemma_mul_abs_le(sg * bvy, SCALE as int, 1_600_000_000, 1_000_000);
    crate::num::lemma_mul_abs_le(-(sg * bvx), SCALE as int, 1_600_000_000, 1_000_000);
    assert(bvx * bvx >= 0) by (nonlinear_arith);
    assert(bvy * bvy >= 0) by (nonlinear_arith);
    crate::num::lemma_sqrt_square(bvx);
    crate::num::lemma_sqrt_square(bvy);
    crate::num::lemma_sqrt_mono(bvx * bvx, l2);
    crate::num::lemma_sqrt_mono(bvy * bvy, l2);
    assert(absi(bvx) <= hl);
    assert(absi(bvy) <= hl);
    assert(-(1_000_000 * hl) <= sg * bvy * SCALE <= 1_000_000 * hl) by (nonlinear_arith)
        requires
            -hl <= bvy <= hl,
            hl >= 0,
            sg == 1 || sg == -1,
            SCALE as int == 1_000_000,
    ;
    assert(-(1_000_000 * hl) <= -(sg * bvx) * SCALE <= 1_000_000 * hl) by (nonlinear_arith)
        requires
            -hl <= bvx <= hl,
            hl >= 0,
            sg == 1 || sg == -1,
            SCALE as int == 1_000_000,
    ;
    crate::num::lemma_rdiv_abs_le(sg * bvy * SCALE, hl, 1_000_000);
    crate::num::lemma_rdiv_abs_le(-(sg * bvx) * SCALE, hl, 1_000_000);
}

/// Intermediate bounds for the disk-segment winding computation: midpoint,
/// displacement and chord products stay far inside `i128`.
proof fn lemma_seg_products(ax: int, ay: int, bx: int, by: int, px: int, py: int, s: int)
    requires
        -(ARC_LIMIT as int) <= ax <= ARC_LIMIT as int,
        -(ARC_LIMIT as int) <= ay <= ARC_LIMIT as int,
        -(ARC_LIMIT as int) <= bx <= ARC_LIMIT as int,
        -(ARC_LIMIT as int) <= by <= ARC_LIMIT as int,
        -(crate::num::COORD_LIMIT as int) <= px <= crate::num::COORD_LIMIT as int,
        -(crate::num::COORD_LIMIT as int) <= py <= crate::num::COORD_LIMIT as int,
        1 <= s <= ARC_LIMIT as int,
    ensures
        -800_000_001 <= rdiv(ax + bx, 2) <= 800_000_001,
        -800_000_001 <= rdiv(ay + by, 2) <= 800_000_001,
        0 <= (bx - ax) * (bx - ax) <= 0x2000_0000_0000_0000_0000,
        0 <= (by - ay) * (by - ay) <= 0x2000_0000_0000_0000_0000,
{
    crate::num::lemma_rdiv_abs_le(ax + bx, 2, 800_000_001);
    crate::num::lemma_rdiv_abs_le(ay + by, 2, 800_000_001);
    crate::num::lemma_mul_abs_le(bx - ax, bx - ax, 1_600_000_000, 1_600_000_000);
    crate::num::lemma_mul_abs_le(by - ay, by - ay, 1_600_000_000, 1_600_000_000);
    assert((bx - ax) * (bx - ax) >= 0) by (nonlinear_arith);
    assert((by - ay) * (by - ay) >= 0) by (nonlinear_arith);
}

/// The two sides of the cleared subtending-circle test stay inside `i128`.
proof fn lemma_seg_test_products(vx: int, vy: int, bvx: int, bvy: int, s: int, hl: int)
    requires
        -910_000_000 <= vx <= 910_000_000,
        -910_000_000 <= vy <= 910_000_000,
        -1_600_000_000 <= bvx <= 1_600_000_000,
        -1_600_000_000 <= bvy <= 1_600_000_000,
        1 <= s <= ARC_LIMIT as int,
        0 <= hl,
        hl * hl <= bvx * bvx + bvy * bvy,
    ensures
        0 <= vx * vx <= 1_000_000_000_000_000_000,
        0 <= vy * vy <= 1_000_000_000_000_000_000,
        0 <= vx * vx + vy * vy <= 2_000_000_000_000_000_000,
        0 <= bvx * bvx + bvy * bvy <= 6_000_000_000_000_000_000,
        hl <= 2_500_000_000,
        0 <= s * hl <= 2_000_000_000_000_000_000,
        0 <= 4 * (s * s) <= 3_000_000_000_000_000_000,
        -1_500_000_000_000_000_000 <= vx * bvx <= 1_500_000_000_000_000_000,
        -1_500_000_000_000_000_000 <= vx * bvy <= 1_500_000_000_000_000_000,
        -1_500_000_000_000_000_000 <= vy * bvx <= 1_500_000_000_000_000_000,
        -1_500_000_000_000_000_000 <= vy * bvy <= 1_500_000_000_000_000_000,
        -(0x4000_0000_0000_0000_0000_0000_0000_0000int)
            <= (4 * (vx * vx + vy * vy) - (bvx * bvx + bvy * bvy)) * (s * hl)
            <= 0x4000_0000_0000_0000_0000_0000_0000_0000int,
        -(0x4000_0000_0000_0000_0000_0000_0000_0000int)
            <= (4 * (s * s) - (bvx * bvx + bvy * bvy)) * (vx * bvy - vy * bvx)
            <= 0x4000_0000_0000_0000_0000_0000_0000_0000int,
        -(0x4000_0000_0000_0000_0000_0000_0000_0000int)
            <= (4 * (s * s) - (bvx * bvx + bvy * bvy)) * (-(vx * bvy - vy * bvx))
            <= 0x4000_0000_0000_0000_0000_0000_0000_0000int,
{
    crate::num::lemma_mul_abs_le(vx, vx, 910_000_000, 910_000_000);
    crate::num::lemma_mul_abs_le(vy, vy, 910_000_000, 910_000_000);
    assert(vx * vx >= 0) by (nonlinear_arith);
    assert(vy * vy >= 0) by (nonlinear_arith);
    crate::num::lemma_mul_abs_le(bvx, bvx, 1_600_000_000, 1_600_000_000);
    crate::num::lemma_mul_abs_le(bvy, bvy, 1_600_000_000, 1_600_000_000);
    assert(bvx * bvx >= 0) by (nonlinear_arith);
    assert(bvy * bvy >= 0) by (nonlinear_arith);
    let l2 = bvx * bvx + bvy * bvy;
    assert(hl <= 2_500_000_000) by (nonlinear_arith)
        requires
            0 <= hl,
            hl * hl <= l2,
            l2 <= 6_000_000_000_000_000_000,
    ;
    crate::num::lemma_mul_abs_le(s, hl, 800_000_000, 2_500_000_000);
    assert(s * hl >= 0) by (nonlinear_arith)
        requires
            s >= 0,
            hl >= 0,
    ;
    crate::num::lemma_mul_abs_le(s, s, 800_000_000, 800_000_000);
    assert(s * s >= 0) by (nonlinear_arith);
    crate::num::lemma_mul_abs_le(vx, bvx, 910_000_000, 1_600_000_000);
    crate::num::lemma_mul_abs_le(vx, bvy, 910_000_000, 1_600_000_000);
    crate::num::lemma_mul_abs_le(vy, bvx, 910_000_000, 1_600_000_000);
    crate::num::lemma_mul_abs_le(vy, bvy, 910_000_000, 1_600_000_000);
    let vv = vx * vx + vy * vy;
    let w = vx * bvy - vy * bvx;
    crate::num::lemma_mul_abs_le(
        4 * vv - l2,
        s * hl,
        14_000_000_000_000_000_000,
        2_000_000_000_000_000_000,
    );
    crate::num::lemma_mul_abs_le(
        4 * (s * s) - l2,
        w,
        9_000_000_000_000_000_000,
        3_000_000_000_000_000_000,
    );
    crate::num::lemma_mul_abs_le(
        4 * (s * s) - l2,
        -w,
        9_000_000_000_000_000_000,
        3_000_000_000_000_000_000,
    );
    assert(14_000_000_000_000_000_000int * 2_000_000_000_000_000_000int
        <= 0x4000_0000_0000_0000_0000_0000_0000_0000int) by (nonlinear_arith);
    assert(9_000_000_000_000_000_000int * 3_000_000_000_000_000_000int
        <= 0x4000_0000_0000_0000_0000_0000_0000_0000int) by (nonlinear_arith);
}

} // verus!
