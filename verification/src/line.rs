//! Infinite lines and bounded segments, with the four pairwise
//! intersections.  Each operation's result is pinned exactly by a
//! specification over the integer raw-unit model; a unique crossing is
//! solved by 2D cross products and one rounded division per coordinate.

use crate::num::{absi, maxi, mini, rdiv, EPS2, SCALE};
use crate::vec2::{dvec, matches_point, tcross, tdot, Vec2, SPAN_LIMIT};
use crate::Intersect;
use vstd::prelude::*;

verus! {

/// Infinite line through two points.
#[derive(Clone, Copy, Debug, PartialEq, Eq, Structural)]
pub struct Line(pub Vec2, pub Vec2);

/// Line segment bounded by two points.
#[derive(Clone, Copy, Debug, PartialEq, Eq, Structural)]
pub struct LineSegment(pub Vec2, pub Vec2);

/// A parameter ratio `num / den` lies in the unit interval, widened by the
/// kernel tolerance on either side (`den` positive).
pub open spec fn param_in01(num: int, den: int) -> bool {
    &&& SCALE * num + den >= 0
    &&& SCALE * num <= SCALE * den + den
}

/// The point `a + (num / den) * (b - a)`, each coordinate rounded once;
/// absent when it falls outside the representable span.
pub open spec fn far_point_spec(a: Vec2, b: Vec2, num: int, den: int) -> Option<(int, int)> {
    let px = rdiv((b.x - a.x) * num, den);
    let py = rdiv((b.y - a.y) * num, den);
    if absi(px) > SPAN_LIMIT as int || absi(py) > SPAN_LIMIT as int {
        None
    } else {
        Some((a.x + px, a.y + py))
    }
}

/// The point `a + (num / den) * (b - a)` for a parameter near the unit
/// interval, each coordinate rounded once.
pub open spec fn near_point_spec(a: Vec2, b: Vec2, num: int, den: int) -> (int, int) {
    (a.x + rdiv((b.x - a.x) * num, den), a.y + rdiv((b.y - a.y) * num, den))
}

/// What `Line::intersect(&Line)` returns.
pub open spec fn line_line_spec(s: Line, o: Line) -> Option<(int, int)> {
    let r = dvec(s.0, s.1);
    let q = dvec(o.0, o.1);
    let pq = dvec(s.0, o.0);
    let den = tcross(r, q);
    let pqr = tcross(pq, r);
    let pqs = tcross(pq, q);
    if absi(den) > EPS2 as int {
        far_point_spec(s.0, s.1, if den > 0 { pqs } else { -pqs }, absi(den))
    } else if r != (0int, 0int) && q != (0int, 0int) {
        // parallel; coincident lines share every point, report the base point
        if absi(pqs) < EPS2 as int {
            Some((s.0.x as int, s.0.y as int))
        } else {
            None
        }
    } else if r == (0int, 0int) && q != (0int, 0int) {
        // `s` is a single point; on the other line or not
        if absi(pqs) < EPS2 as int {
            Some((s.0.x as int, s.0.y as int))
        } else {
            None
        }
    } else if r != (0int, 0int) && q == (0int, 0int) {
        if absi(pqr) < EPS2 as int {
            Some((o.0.x as int, o.0.y as int))
        } else {
            None
        }
    } else {
        if pq == (0int, 0int) {
            Some((s.0.x as int, s.0.y as int))
        } else {
            None
        }
    }
}

/// What `LineSegment::intersect(&Line)` returns.
pub open spec fn seg_line_spec(s: LineSegment, o: Line) -> Option<(int, int)> {
    let r = dvec(s.0, s.1);
    let q = dvec(o.0, o.1);
    let pq = dvec(s.0, o.0);
    let den = tcross(r, q);
    let pqr = tcross(pq, r);
    let pqs = tcross(pq, q);
    if absi(den) > EPS2 as int {
        let nu = if den > 0 { pqs } else { -pqs };
        if param_in01(nu, absi(den)) {
            Some(near_point_spec(s.0, s.1, nu, absi(den)))
        } else {
            None
        }
    } else if r != (0int, 0int) && q != (0int, 0int) {
        // segment parallel to the line; when they coincide, report the
        // segment's midpoint
        if absi(pqs) < EPS2 as int {
            Some(near_point_spec(s.0, s.1, 1, 2))
        } else {
            None
        }
    } else if r == (0int, 0int) && q != (0int, 0int) {
        if absi(pqs) < EPS2 as int {
            Some((s.0.x as int, s.0.y as int))
        } else {
            None
        }
    } else if r != (0int, 0int) && q == (0int, 0int) {
        let nu = tdot(pq, r);
        if absi(pqr) < EPS2 as int && param_in01(nu, tdot(r, r)) {
            Some((o.0.x as int, o.0.y as int))
        } else {
            None
        }
    } else {
        if pq == (0int, 0int) {
            Some((s.0.x as int, s.0.y as int))
        } else {
            None
        }
    }
}

/// What `LineSegment::intersect(&LineSegment)` returns.
pub open spec fn seg_seg_spec(s: LineSegment, o: LineSegment) -> Option<(int, int)> {
    let r = dvec(s.0, s.1);
    let q = dvec(o.0, o.1);
    let pq = dvec(s.0, o.0);
    let den = tcross(r, q);
    let pqr = tcross(pq, r);
    let pqs = tcross(pq, q);
    if absi(den) > EPS2 as int {
        let nu = if den > 0 { pqs } else { -pqs };
        let nv = if den > 0 { pqr } else { -pqr };
        if param_in01(nu, absi(den)) && param_in01(nv, absi(den)) {
            Some(near_point_spec(s.0, s.1, nu, absi(den)))
        } else {
            None
        }
    } else if r != (0int, 0int) && q != (0int, 0int) {
        // parallel segments: when collinear and overlapping, report the
        // midpoint of the overlap of the two parameter intervals
        if absi(pqr) < EPS2 as int {
            let ll = tdot(r, r);
            let n0 = tdot(pq, r);
            let n1 = tdot((pq.0 + q.0, pq.1 + q.1), r);
            let nmin = mini(n0, n1);
            let nmax = maxi(n0, n1);
            if SCALE * nmax + ll < 0 || SCALE * nmin > SCALE * ll + ll {
                None
            } else {
                Some(near_point_spec(s.0, s.1, maxi(nmin, 0) + mini(nmax, ll), 2 * ll))
            }
        } else {
            None
        }
    } else if r == (0int, 0int) && q != (0int, 0int) {
        let nv = -tdot(pq, q);
        if absi(pqs) < EPS2 as int && param_in01(nv, tdot(q, q)) {
            Some((s.0.x as int, s.0.y as int))
        } else {
            None
        }
    } else if r != (0int, 0int) && q == (0int, 0int) {
        let nu = tdot(pq, r);
        if absi(pqr) < EPS2 as int && param_in01(nu, tdot(r, r)) {
            Some((o.0.x as int, o.0.y as int))
        } else {
            None
        }
    } else {
        if pq == (0int, 0int) {
            Some((s.0.x as int, s.0.y as int))
        } else {
            None
        }
    }
}

impl Line {
    /// Both endpoints within the line range.
    pub open spec fn wf(self) -> bool {
        self.0.in_range(crate::num::LINE_LIMIT as int) && self.1.in_range(
            crate::num::LINE_LIMIT as int,
        )
    }

    /// Degenerate: the two defining points coincide at raw resolution.
    pub open spec fn degenerate_spec(self) -> bool {
        self.0 == self.1
    }

    /// A point lies within the kernel tolerance of the line.
    pub open spec fn near_spec(self, p: Vec2) -> bool {
        if self.0 == self.1 {
            p == self.0
        } else {
            absi(tcross(dvec(self.0, self.1), dvec(self.0, p))) < EPS2 as int
        }
    }

    pub fn is_degenerate(&self) -> (r: bool)
        requires
            self.wf(),
        ensures
            r == self.degenerate_spec(),
    {
        self.0.x == self.1.x && self.0.y == self.1.y
    }

    /// Check that a point is within the tolerance neighbourhood of the line.
    pub fn is_near(&self, point: Vec2) -> (r: bool)
        requires
            self.wf(),
            point.wf(),
        ensures
            r == self.near_spec(point),
    {
        if self.is_degenerate() {
            point.x == self.0.x && point.y == self.0.y
        } else {
            let rv = self.1.sub(self.0);
            let pv = point.sub(self.0);
            let cross = rv.cross(pv);
            -(EPS2 as i128) < cross && cross < EPS2 as i128
        }
    }
}

impl LineSegment {
    /// Both endpoints within the line range.
    pub open spec fn wf(self) -> bool {
        self.0.in_range(crate::num::LINE_LIMIT as int) && self.1.in_range(
            crate::num::LINE_LIMIT as int,
        )
    }

    /// The infinite line containing this segment.
    pub fn to_line(&self) -> (r: Line)
        ensures
            r == Line(self.0, self.1),
    {
        Line(self.0, self.1)
    }

    /// Degenerate: zero length at raw resolution.
    pub open spec fn degenerate_spec(self) -> bool {
        self.0 == self.1
    }

    pub fn is_degenerate(&self) -> (r: bool)
        requires
            self.wf(),
        ensures
            r == self.degenerate_spec(),
    {
        Line(self.0, self.1).is_degenerate()
    }

    /// A point lies within the kernel tolerance of the segment: near the
    /// carrying line, and its projection within the endpoints.
    pub open spec fn near_spec(self, p: Vec2) -> bool {
        if self.0 == self.1 {
            p == self.0
        } else {
            let r = dvec(self.0, self.1);
            let pv = dvec(self.0, p);
            &&& absi(tcross(r, pv)) <= EPS2 as int
            &&& -(EPS2 as int) <= tdot(pv, r) <= tdot(r, r) + EPS2 as int
        }
    }

    /// Check that a point is within the tolerance neighbourhood of the
    /// segment.
    pub fn is_near(&self, point: Vec2) -> (r: bool)
        requires
            self.wf(),
            point.wf(),
        ensures
            r == self.near_spec(point),
    {
        if self.is_degenerate() {
            point.x == self.0.x && point.y == self.0.y
        } else {
            let rv = self.1.sub(self.0);
            let pv = point.sub(self.0);
            let cross = rv.cross(pv);
            if cross > EPS2 as i128 || cross < -(EPS2 as i128) {
                return false;
            }
            let d = pv.dot(rv);
            let ll = rv.length_squared();
            -(EPS2 as i128) <= d && d <= ll + EPS2 as i128
        }
    }
}

/// The point a parameter ratio near the unit interval selects on a segment.
fn near_point(a: Vec2, b: Vec2, num: i128, den: i128) -> (r: Vec2)
    requires
        a.in_range(crate::num::LINE_LIMIT as int),
        b.in_range(crate::num::LINE_LIMIT as int),
        1 <= den <= 0x10_0000_0000_0000_0000,
        -2 * den <= num <= 2 * den,
    ensures
        r.x == near_point_spec(a, b, num as int, den as int).0,
        r.y == near_point_spec(a, b, num as int, den as int).1,
        r.in_range(12_000_000_000),
{
    let dx = (b.x - a.x) as i128;
    let dy = (b.y - a.y) as i128;
    proof {
        lemma_near_offset(dx as int, num as int, den as int);
        lemma_near_offset(dy as int, num as int, den as int);
    }
    let px = crate::num::rdiv_i128(dx * num, den);
    let py = crate::num::rdiv_i128(dy * num, den);
    Vec2 { x: (a.x as i128 + px) as i64, y: (a.y as i128 + py) as i64 }
}

/// Offset bound for a near-unit parameter: the rounded offset along one
/// coordinate of the direction is at most twice that coordinate span.
proof fn lemma_near_offset(d: int, num: int, den: int)
    requires
        1 <= den <= 0x10_0000_0000_0000_0000,
        -2 * den <= num <= 2 * den,
        -0x1_0000_0000 <= d <= 0x1_0000_0000,
    ensures
        -0x2_0000_0000 <= rdiv(d * num, den) <= 0x2_0000_0000,
        -0x2000_0000_0000_0000_0000_0000_0000_0000 <= d * num
            <= 0x2000_0000_0000_0000_0000_0000_0000_0000,
{
    crate::num::lemma_mul_abs_le(d, num, 0x1_0000_0000, 2 * den);
    assert(0x1_0000_0000 * (2 * den) == 0x2_0000_0000 * den) by (nonlinear_arith);
    crate::num::lemma_rdiv_abs_le(d * num, den, 0x2_0000_0000);
    assert(0x2_0000_0000 * den <= 0x2000_0000_0000_0000_0000_0000_0000_0000int)
        by (nonlinear_arith)
        requires
            1 <= den <= 0x10_0000_0000_0000_0000,
    ;
}

/// The point a parameter ratio selects on an infinite line, absent when it
/// falls outside the representable span.
fn far_point(a: Vec2, b: Vec2, num: i128, den: i128) -> (r: Option<Vec2>)
    requires
        a.in_range(crate::num::LINE_LIMIT as int),
        b.in_range(crate::num::LINE_LIMIT as int),
        1 <= den <= 0x10_0000_0000_0000_0000,
        -0x10_0000_0000_0000_0000 <= num <= 0x10_0000_0000_0000_0000,
    ensures
        matches_point(r, far_point_spec(a, b, num as int, den as int)),
{
    let dx = (b.x - a.x) as i128;
    let dy = (b.y - a.y) as i128;
    proof {
        crate::num::lemma_mul_abs_le(dx as int, num as int, 0x1_0000_0000, 0x10_0000_0000_0000_0000);
        crate::num::lemma_mul_abs_le(dy as int, num as int, 0x1_0000_0000, 0x10_0000_0000_0000_0000);
    }
    let px = crate::num::rdiv_i128(dx * num, den);
    let py = crate::num::rdiv_i128(dy * num, den);
    if px > SPAN_LIMIT as i128 || px < -(SPAN_LIMIT as i128) || py > SPAN_LIMIT as i128
        || py < -(SPAN_LIMIT as i128) {
        None
    } else {
        Some(Vec2 { x: (a.x as i128 + px) as i64, y: (a.y as i128 + py) as i64 })
    }
}

/// Whether `num / den` lies in the tolerance-widened unit interval.
fn param_ok(num: i128, den: i128) -> (r: bool)
    requires
        1 <= den <= 0x10_0000_0000_0000_0000,
        -0x10_0000_0000_0000_0000 <= num <= 0x10_0000_0000_0000_0000,
    ensures
        r == param_in01(num as int, den as int),
{
    proof {
        crate::num::lemma_mul_abs_le(
            SCALE as int,
            num as int,
            1_000_000,
            0x10_0000_0000_0000_0000,
        );
        crate::num::lemma_mul_abs_le(
            SCALE as int,
            den as int,
            1_000_000,
            0x10_0000_0000_0000_0000,
        );
    }
    let sn = SCALE as i128 * num;
    sn + den >= 0 && sn <= SCALE as i128 * den + den
}

impl Intersect<Line> for Line {
    type Output = Vec2;

    open spec fn compatible(&self, other: &Line) -> bool {
        self.wf() && other.wf()
    }

    /// Intersection point of two infinite lines; a coincident pair reports
    /// a shared representative point, a parallel distinct pair reports
    /// nothing, and a degenerate operand degrades to a point-on-line test.
    fn intersect(&self, other: &Line) -> (r: Option<Vec2>)
        ensures
            matches_point(r, line_line_spec(*self, *other)),
    {
        let rx = (self.1.x - self.0.x) as i128;
        let ry = (self.1.y - self.0.y) as i128;
        let qx = (other.1.x - other.0.x) as i128;
        let qy = (other.1.y - other.0.y) as i128;
        let pqx = (other.0.x - self.0.x) as i128;
        let pqy = (other.0.y - self.0.y) as i128;
        proof {
            lemma_small_products(rx as int, ry as int, qx as int, qy as int, pqx as int, pqy as int);
        }
        let den = rx * qy - ry * qx;
        let pqr = pqx * ry - pqy * rx;
        let pqs = pqx * qy - pqy * qx;
        if den > EPS2 as i128 || den < -(EPS2 as i128) {
            let nu = if den > 0 { pqs } else { -pqs };
            let dd = if den > 0 { den } else { -den };
            far_point(self.0, self.1, nu, dd)
        } else if (rx != 0 || ry != 0) && (qx != 0 || qy != 0) {
            if pqs < EPS2 as i128 && pqs > -(EPS2 as i128) {
                Some(self.0)
            } else {
                None
            }
        } else if (rx == 0 && ry == 0) && (qx != 0 || qy != 0) {
            if pqs < EPS2 as i128 && pqs > -(EPS2 as i128) {
                Some(self.0)
            } else {
                None
            }
        } else if (rx != 0 || ry != 0) && (qx == 0 && qy == 0) {
            if pqr < EPS2 as i128 && pqr > -(EPS2 as i128) {
                Some(other.0)
            } else {
                None
            }
        } else {
            if pqx == 0 && pqy == 0 {
                Some(self.0)
            } else {
                None
            }
        }
    }
}

impl Intersect<Line> for LineSegment {
    type Output = Vec2;

    open spec fn compatible(&self, other: &Line) -> bool {
        self.wf() && other.wf()
    }

    /// Intersection of a bounded segment with an infinite line; the crossing
    /// is accepted only when its parameter along the segment lies in the
    /// tolerance-widened unit interval.
    fn intersect(&self, other: &Line) -> (r: Option<Vec2>)
        ensures
            matches_point(r, seg_line_spec(*self, *other)),
    {
        let rx = (self.1.x - self.0.x) as i128;
        let ry = (self.1.y - self.0.y) as i128;
        let qx = (other.1.x - other.0.x) as i128;
        let qy = (other.1.y - other.0.y) as i128;
        let pqx = (other.0.x - self.0.x) as i128;
        let pqy = (other.0.y - self.0.y) as i128;
        proof {
            lemma_small_products(rx as int, ry as int, qx as int, qy as int, pqx as int, pqy as int);
        }
        let den = rx * qy - ry * qx;
        let pqr = pqx * ry - pqy * rx;
        let pqs = pqx * qy - pqy * qx;
        if den > EPS2 as i128 || den < -(EPS2 as i128) {
            let nu = if den > 0 { pqs } else { -pqs };
            let dd = if den > 0 { den } else { -den };
            if param_ok(nu, dd) {
                Some(near_point(self.0, self.1, nu, dd))
            } else {
                None
            }
        } else if (rx != 0 || ry != 0) && (qx != 0 || qy != 0) {
            if pqs < EPS2 as i128 && pqs > -(EPS2 as i128) {
                Some(near_point(self.0, self.1, 1, 2))
            } else {
                None
            }
        } else if (rx == 0 && ry == 0) && (qx != 0 || qy != 0) {
            if pqs < EPS2 as i128 && pqs > -(EPS2 as i128) {
                Some(self.0)
            } else {
                None
            }
        } else if (rx != 0 || ry != 0) && (qx == 0 && qy == 0) {
            let nu = pqx * rx + pqy * ry;
            let ll = rx * rx + ry * ry;
            proof {
                lemma_len2_pos(rx as int, ry as int);
            }
            if pqr < EPS2 as i128 && pqr > -(EPS2 as i128) && param_ok(nu, ll) {
                Some(other.0)
            } else {
                None
            }
        } else {
            if pqx == 0 && pqy == 0 {
                Some(self.0)
            } else {
                None
            }
        }
    }
}

impl Intersect<LineSegment> for Line {
    type Output = Vec2;

    open spec fn compatible(&self, other: &LineSegment) -> bool {
        self.wf() && other.wf()
    }

    /// Delegates to the segment-against-line derivation.
    fn intersect(&self, other: &LineSegment) -> (r: Option<Vec2>)
        ensures
            matches_point(r, seg_line_spec(*other, *self)),
    {
        other.intersect(self)
    }
}

impl Intersect<LineSegment> for LineSegment {
    type Output = Vec2;

    open spec fn compatible(&self, other: &LineSegment) -> bool {
        self.wf() && other.wf()
    }

    /// Intersection point of two bounded segments; collinear overlapping
    /// segments report the midpoint of their overlap.
    fn intersect(&self, other: &LineSegment) -> (r: Option<Vec2>)
        ensures
            matches_point(r, seg_seg_spec(*self, *other)),
    {
        let rx = (self.1.x - self.0.x) as i128;
        let ry = (self.1.y - self.0.y) as i128;
        let qx = (other.1.x - other.0.x) as i128;
        let qy = (other.1.y - other.0.y) as i128;
        let pqx = (other.0.x - self.0.x) as i128;
        let pqy = (other.0.y - self.0.y) as i128;
        proof {
            lemma_small_products(rx as int, ry as int, qx as int, qy as int, pqx as int, pqy as int);
        }
        let den = rx * qy - ry * qx;
        let pqr = pqx * ry - pqy * rx;
        let pqs = pqx * qy - pqy * qx;
        if den > EPS2 as i128 || den < -(EPS2 as i128) {
            let nu = if den > 0 { pqs } else { -pqs };
            let nv = if den > 0 { pqr } else { -pqr };
            let dd = if den > 0 { den } else { -den };
            if param_ok(nu, dd) && param_ok(nv, dd) {
                Some(near_point(self.0, self.1, nu, dd))
            } else {
                None
            }
        } else if (rx != 0 || ry != 0) && (qx != 0 || qy != 0) {
            if pqr < EPS2 as i128 && pqr > -(EPS2 as i128) {
                proof {
                    lemma_len2_pos(rx as int, ry as int);
                }
                let ll = rx * rx + ry * ry;
                let n0 = pqx * rx + pqy * ry;
                let n1 = (pqx + qx) * rx + (pqy + qy) * ry;
                let nmin = if n0 < n1 { n0 } else { n1 };
                let nmax = if n0 < n1 { n1 } else { n0 };
                proof {
                    crate::num::lemma_mul_abs_le(
                        SCALE as int,
                        nmax as int,
                        1_000_000,
                        0x10_0000_0000_0000_0000,
                    );
                    crate::num::lemma_mul_abs_le(
                        SCALE as int,
                        nmin as int,
                        1_000_000,
                        0x10_0000_0000_0000_0000,
                    );
                    crate::num::lemma_mul_abs_le(
                        SCALE as int,
                        ll as int,
                        1_000_000,
                        0x10_0000_0000_0000_0000,
                    );
                }
                if SCALE as i128 * nmax + ll < 0 || SCALE as i128 * nmin > SCALE as i128 * ll + ll {
                    None
                } else {
                    let sn = if nmin < 0 { 0 } else { nmin };
                    let en = if nmax < ll { nmax } else { ll };
                    Some(near_point(self.0, self.1, sn + en, 2 * ll))
                }
            } else {
                None
            }
        } else if (rx == 0 && ry == 0) && (qx != 0 || qy != 0) {
            let nv = -(pqx * qx + pqy * qy);
            let ll = qx * qx + qy * qy;
            proof {
                lemma_len2_pos(qx as int, qy as int);
            }
            if pqs < EPS2 as i128 && pqs > -(EPS2 as i128) && param_ok(nv, ll) {
                Some(self.0)
            } else {
                None
            }
        } else if (rx != 0 || ry != 0) && (qx == 0 && qy == 0) {
            let nu = pqx * rx + pqy * ry;
            let ll = rx * rx + ry * ry;
            proof {
                lemma_len2_pos(rx as int, ry as int);
            }
            if pqr < EPS2 as i128 && pqr > -(EPS2 as i128) && param_ok(nu, ll) {
                Some(other.0)
            } else {
                None
            }
        } else {
            if pqx == 0 && pqy == 0 {
                Some(self.0)
            } else {
                None
            }
        }
    }
}

/// Products of displacement components between in-range points stay far
/// inside `i128`, and their pairwise sums and differences as well.
pub(crate) proof fn lemma_small_products(rx: int, ry: int, qx: int, qy: int, pqx: int, pqy: int)
    requires
        -0x1_0000_0000 <= rx <= 0x1_0000_0000,
        -0x1_0000_0000 <= ry <= 0x1_0000_0000,
        -0x1_0000_0000 <= qx <= 0x1_0000_0000,
        -0x1_0000_0000 <= qy <= 0x1_0000_0000,
        -0x1_0000_0000 <= pqx <= 0x1_0000_0000,
        -0x1_0000_0000 <= pqy <= 0x1_0000_0000,
    ensures
        -0x1_0000_0000_0000_0000 <= rx * qy <= 0x1_0000_0000_0000_0000,
        -0x1_0000_0000_0000_0000 <= ry * qx <= 0x1_0000_0000_0000_0000,
        -0x1_0000_0000_0000_0000 <= pqx * ry <= 0x1_0000_0000_0000_0000,
        -0x1_0000_0000_0000_0000 <= pqy * rx <= 0x1_0000_0000_0000_0000,
        -0x1_0000_0000_0000_0000 <= pqx * qy <= 0x1_0000_0000_0000_0000,
        -0x1_0000_0000_0000_0000 <= pqy * qx <= 0x1_0000_0000_0000_0000,
        -0x1_0000_0000_0000_0000 <= pqx * rx <= 0x1_0000_0000_0000_0000,
        -0x1_0000_0000_0000_0000 <= pqy * ry <= 0x1_0000_0000_0000_0000,
        -0x1_0000_0000_0000_0000 <= pqx * qx <= 0x1_0000_0000_0000_0000,
        -0x1_0000_0000_0000_0000 <= pqy * qy <= 0x1_0000_0000_0000_0000,
        -0x1_0000_0000_0000_0000 <= rx * rx <= 0x1_0000_0000_0000_0000,
        -0x1_0000_0000_0000_0000 <= ry * ry <= 0x1_0000_0000_0000_0000,
        -0x1_0000_0000_0000_0000 <= qx * qx <= 0x1_0000_0000_0000_0000,
        -0x1_0000_0000_0000_0000 <= qy * qy <= 0x1_0000_0000_0000_0000,
        -0x2_0000_0000_0000_0000 <= (pqx + qx) * rx <= 0x2_0000_0000_0000_0000,
        -0x2_0000_0000_0000_0000 <= (pqy + qy) * ry <= 0x2_0000_0000_0000_0000,
{
    let b = 0x1_0000_0000int;
    crate::num::lemma_mul_abs_le(rx, qy, b, b);
    crate::num::lemma_mul_abs_le(ry, qx, b, b);
    crate::num::lemma_mul_abs_le(pqx, ry, b, b);
    crate::num::lemma_mul_abs_le(pqy, rx, b, b);
    crate::num::lemma_mul_abs_le(pqx, qy, b, b);
    crate::num::lemma_mul_abs_le(pqy, qx, b, b);
    crate::num::lemma_mul_abs_le(pqx, rx, b, b);
    crate::num::lemma_mul_abs_le(pqy, ry, b, b);
    crate::num::lemma_mul_abs_le(pqx, qx, b, b);
    crate::num::lemma_mul_abs_le(pqy, qy, b, b);
    crate::num::lemma_mul_abs_le(rx, rx, b, b);
    crate::num::lemma_mul_abs_le(ry, ry, b, b);
    crate::num::lemma_mul_abs_le(qx, qx, b, b);
    crate::num::lemma_mul_abs_le(qy, qy, b, b);
    crate::num::lemma_mul_abs_le(pqx + qx, rx, 2 * b, b);
    crate::num::lemma_mul_abs_le(pqy + qy, ry, 2 * b, b);
}

/// A nonzero integer vector has squared length at least one.
proof fn lemma_len2_pos(x: int, y: int)
    requires
        x != 0 || y != 0,
    ensures
        x * x + y * y >= 1,
        x * x >= 0,
        y * y >= 0,
{
    assert(x * x >= 0) by (nonlinear_arith);
    assert(y * y >= 0) by (nonlinear_arith);
    if x != 0 {
        assert(x * x >= 1) by (nonlinear_arith)
            requires
                x != 0,
        ;
    } else {
        assert(y * y >= 1) by (nonlinear_arith)
            requires
                y != 0,
        ;
    }
}

} // verus!
