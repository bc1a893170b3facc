//! Circles and disks: the boundary curve and the filled region it bounds,
//! with containment, moment, and intersection against lines, segments,
//! half-planes and other disks.

use crate::arc::{Arc, ArcVertex, DiskSegment};
use crate::line::{Line, LineSegment, param_in01};
use crate::moment::Moment;
use crate::num::{absi, rdiv, sqrt_of, EPS, EPS2, SCALE};
use crate::plane::{from_edge_spec, side_of, HalfPlane};
use crate::polygon::ArcPolygon;
use crate::vec2::{dot_of, Vec2};
use crate::Intersect;
use vstd::prelude::*;

verus! {

/// The circle constant, scaled by `SCALE`.
pub const PI_RAW: i64 = 3_141_593;

/// A circle: boundary curve around a center.  The radius is signed for
/// winding-orientation purposes; a negative radius flips the inside sense.
#[derive(Clone, Copy, Debug, PartialEq, Eq, Structural)]
pub struct Circle {
    pub center: Vec2,
    pub radius: i64,
}

/// A disk: a circle treated as the filled region it bounds.
#[derive(Clone, Copy, Debug, PartialEq, Eq, Structural)]
pub struct Disk {
    pub center: Vec2,
    pub radius: i64,
}

/// A disk clipped by a half-plane: either a disk segment remains, or the
/// whole disk lies inside.
#[derive(Clone, Copy, Debug, PartialEq, Eq)]
pub enum DiskCut {
    /// The half-plane's boundary cuts the disk; this segment remains.
    Segment(DiskSegment),
    /// The disk lies entirely inside the half-plane.
    Whole(Disk),
}

/// The intersection of two disks: either a two-arc lens, or one disk lies
/// entirely inside the other.
#[derive(Clone, Debug, PartialEq, Eq)]
pub enum DiskOverlap {
    /// The boundaries cross: the lens between the two crossing points.
    Lens(ArcPolygon),
    /// One disk contains the other; the smaller disk.
    Whole(Disk),
}

/// Twice the wrapping contribution of a circle around a point: `2` times
/// the sign of the radius for points inside (boundary included), `0`
/// outside.  Exact.
pub open spec fn circle_winding_spec(center: Vec2, radius: int, p: Vec2) -> int {
    let dx = center.x - p.x;
    let dy = center.y - p.y;
    if dx * dx + dy * dy <= radius * radius {
        if radius > 0 {
            2
        } else if radius < 0 {
            -2
        } else {
            0
        }
    } else {
        0
    }
}

/// The moment of a disk of the given center and radius: the area
/// `PI_RAW * radius^2`, centroid at the center.
pub open spec fn disk_moment_spec(center: Vec2, radius: int) -> Moment {
    Moment {
        area: rdiv(PI_RAW * (radius * radius), 1_000_000_000_000) as i64,
        centroid: center,
    }
}

/// Which case `Disk::intersect(&HalfPlane)` takes: `0` for no
/// intersection, `1` for a disk fully inside, `2` for a cut.
pub open spec fn disk_plane_case(d: Disk, hp: HalfPlane) -> int {
    let dist2 = side_of(hp, d.center);
    if dist2 > d.radius * SCALE {
        0
    } else if d.radius * SCALE + dist2 <= EPS2 as int {
        1
    } else {
        2
    }
}

/// The disk segment a cutting half-plane leaves of a disk: chord endpoints
/// at the rounded apothem foot, half-chord along the boundary, and sagitta
/// `radius - apothem`.
pub open spec fn disk_plane_seg(d: Disk, hp: HalfPlane) -> DiskSegment {
    let dist2 = side_of(hp, d.center);
    let a = rdiv(dist2, SCALE as int);
    let hh = if a * a <= d.radius * d.radius {
        sqrt_of(d.radius * d.radius - a * a)
    } else {
        0
    };
    let mx = d.center.x - rdiv(hp.normal.x * a, SCALE as int);
    let my = d.center.y - rdiv(hp.normal.y * a, SCALE as int);
    let ox = rdiv(hp.normal.y * hh, SCALE as int);
    let oy = rdiv(hp.normal.x * hh, SCALE as int);
    DiskSegment(
        Arc {
            points: (
                Vec2 { x: (mx - ox) as i64, y: (my + oy) as i64 },
                Vec2 { x: (mx + ox) as i64, y: (my - oy) as i64 },
            ),
            sagitta: (d.radius - a) as i64,
        },
    )
}

/// Which case `Disk::intersect(&Disk)` takes: `0` for no intersection,
/// `1` for one disk inside the other, `2` for a lens.
pub open spec fn disk_disk_case(d1: Disk, d2: Disk) -> int {
    let rx = d2.center.x - d1.center.x;
    let ry = d2.center.y - d1.center.y;
    let dd = rx * rx + ry * ry;
    if dd > (d1.radius + d2.radius) * (d1.radius + d2.radius) {
        0
    } else if dd <= (d1.radius - d2.radius) * (d1.radius - d2.radius) {
        1
    } else {
        2
    }
}

/// The smaller of two disks, the result when one contains the other.
pub open spec fn disk_disk_whole(d1: Disk, d2: Disk) -> Disk {
    if d1.radius < d2.radius {
        d1
    } else {
        d2
    }
}

/// The rounded apothem of the first disk along the center line, from the
/// radical-line formula `(d^2 + r1^2 - r2^2) / (2 d)`.
pub open spec fn disk_disk_apothem(d1: Disk, d2: Disk) -> int {
    let rx = d2.center.x - d1.center.x;
    let ry = d2.center.y - d1.center.y;
    let dd = rx * rx + ry * ry;
    rdiv(dd + d1.radius * d1.radius - d2.radius * d2.radius, 2 * sqrt_of(dd))
}

/// The two arc vertices of the lens of two overlapping disks: the chord
/// endpoints, each carrying the sagitta of its own disk's arc.
pub open spec fn disk_disk_lens(d1: Disk, d2: Disk) -> (ArcVertex, ArcVertex) {
    let rx = d2.center.x - d1.center.x;
    let ry = d2.center.y - d1.center.y;
    let dd = rx * rx + ry * ry;
    let t = sqrt_of(dd);
    let a1 = disk_disk_apothem(d1, d2);
    let a2 = t - a1;
    let nx = rdiv(rx * SCALE, t);
    let ny = rdiv(ry * SCALE, t);
    let mx = d1.center.x + rdiv(nx * a1, SCALE as int);
    let my = d1.center.y + rdiv(ny * a1, SCALE as int);
    let hh = if a1 * a1 <= d1.radius * d1.radius {
        sqrt_of(d1.radius * d1.radius - a1 * a1)
    } else {
        0
    };
    let qx = rdiv(ny * hh, SCALE as int);
    let qy = rdiv(nx * hh, SCALE as int);
    (
        ArcVertex {
            point: Vec2 { x: (mx + qx) as i64, y: (my - qy) as i64 },
            sagitta: (d1.radius - a1) as i64,
        },
        ArcVertex {
            point: Vec2 { x: (mx - qx) as i64, y: (my + qy) as i64 },
            sagitta: (d2.radius - a2) as i64,
        },
    )
}

impl Circle {
    /// Center within the coordinate range, radius bounded.
    pub open spec fn wf(self) -> bool {
        &&& self.center.wf()
        &&& -(crate::num::COORD_LIMIT) <= self.radius <= crate::num::COORD_LIMIT
    }

    /// Twice the boundary's wrapping contribution around the point.
    pub fn winding_number_2(&self, point: Vec2) -> (r: i32)
        requires
            self.wf(),
            point.wf(),
        ensures
            r == circle_winding_spec(self.center, self.radius as int, point),
    {
        winding_of_circle(self.center, self.radius, point)
    }

    /// The point lies in the closed region bounded by the circle.
    pub fn contains(&self, point: Vec2) -> (r: bool)
        requires
            self.wf(),
            point.wf(),
        ensures
            r == (circle_winding_spec(self.center, self.radius as int, point) > 0),
    {
        self.winding_number_2(point) > 0
    }

    /// Area and centroid of the bounded region.
    pub fn moment(&self) -> (r: Moment)
        requires
            self.wf(),
        ensures
            r == disk_moment_spec(self.center, self.radius as int),
            r.wf(),
    {
        moment_of_circle(self.center, self.radius)
    }

    /// The filled region bounded by this circle.
    pub fn fill(&self) -> (r: Disk)
        ensures
            r.center == self.center,
            r.radius == self.radius,
    {
        Disk { center: self.center, radius: self.radius }
    }
}

impl Disk {
    /// Center within the coordinate range, radius bounded.
    pub open spec fn wf(self) -> bool {
        &&& self.center.wf()
        &&& -(crate::num::COORD_LIMIT) <= self.radius <= crate::num::COORD_LIMIT
    }

    pub fn new(center: Vec2, radius: i64) -> (r: Self)
        ensures
            r.center == center,
            r.radius == radius,
    {
        Disk { center, radius }
    }

    /// The boundary circle of this disk.
    pub fn edge(&self) -> (r: Circle)
        ensures
            r.center == self.center,
            r.radius == self.radius,
    {
        Circle { center: self.center, radius: self.radius }
    }

    /// Twice the boundary's wrapping contribution around the point.
    pub fn winding_number_2(&self, point: Vec2) -> (r: i32)
        requires
            self.wf(),
            point.wf(),
        ensures
            r == circle_winding_spec(self.center, self.radius as int, point),
    {
        winding_of_circle(self.center, self.radius, point)
    }

    /// The point lies in the closed disk.
    pub fn contains(&self, point: Vec2) -> (r: bool)
        requires
            self.wf(),
            point.wf(),
        ensures
            r == (circle_winding_spec(self.center, self.radius as int, point) > 0),
    {
        self.winding_number_2(point) > 0
    }

    /// Area and centroid of the disk.
    pub fn moment(&self) -> (r: Moment)
        requires
            self.wf(),
        ensures
            r == disk_moment_spec(self.center, self.radius as int),
            r.wf(),
    {
        moment_of_circle(self.center, self.radius)
    }
}

/// Winding contribution shared by circles and disks: the exact squared
/// distance test against the squared radius.
fn winding_of_circle(center: Vec2, radius: i64, point: Vec2) -> (r: i32)
    requires
        center.wf(),
        point.wf(),
        -(crate::num::COORD_LIMIT) <= radius <= crate::num::COORD_LIMIT,
    ensures
        r == circle_winding_spec(center, radius as int, point),
{
    let dx = (center.x - point.x) as i128;
    let dy = (center.y - point.y) as i128;
    proof {
        crate::num::lemma_mul_abs_le(dx as int, dx as int, 200_000_000, 200_000_000);
        crate::num::lemma_mul_abs_le(dy as int, dy as int, 200_000_000, 200_000_000);
        crate::num::lemma_mul_abs_le(radius as int, radius as int, 100_000_000, 100_000_000);
    }
    if dx * dx + dy * dy <= (radius as i128) * (radius as i128) {
        if radius > 0 {
            2
        } else if radius < 0 {
            -2
        } else {
            0
        }
    } else {
        0
    }
}

/// Moment shared by circles and disks.
fn moment_of_circle(center: Vec2, radius: i64) -> (r: Moment)
    requires
        center.wf(),
        -(crate::num::COORD_LIMIT) <= radius <= crate::num::COORD_LIMIT,
    ensures
        r == disk_moment_spec(center, radius as int),
        r.wf(),
{
    proof {
        crate::num::lemma_mul_abs_le(radius as int, radius as int, 100_000_000, 100_000_000);
        crate::num::lemma_mul_abs_le(
            PI_RAW as int,
            (radius as int) * (radius as int),
            3_141_593,
            10_000_000_000_000_000,
        );
        crate::num::lemma_rdiv_abs_le(
            PI_RAW as int * ((radius as int) * (radius as int)),
            1_000_000_000_000,
            32_000_000_000,
        );
        assert(3_141_593int * 10_000_000_000_000_000int <= 32_000_000_000int
            * 1_000_000_000_000int) by (nonlinear_arith);
        assert(radius as int * radius as int >= 0) by (nonlinear_arith);
    }
    let rr = (radius as i128) * (radius as i128);
    let area = crate::num::rdiv_i128(PI_RAW as i128 * rr, 1_000_000_000_000) as i64;
    Moment { area, centroid: center }
}

impl Intersect<HalfPlane> for Disk {
    type Output = DiskCut;

    open spec fn compatible(&self, other: &HalfPlane) -> bool {
        self.wf() && other.wf() && self.radius >= 0
    }

    /// Clip the disk by the half-plane: nothing when the disk lies outside,
    /// the whole disk when it lies inside, and otherwise the disk segment
    /// inside the half-plane, whose arc bulges away from the boundary.
    fn intersect(&self, other: &HalfPlane) -> (r: Option<DiskCut>)
        ensures
            match r {
                None => disk_plane_case(*self, *other) == 0,
                Some(DiskCut::Whole(w)) => disk_plane_case(*self, *other) == 1 && w == *self,
                Some(DiskCut::Segment(seg)) => {
                    &&& disk_plane_case(*self, *other) == 2
                    &&& seg == disk_plane_seg(*self, *other)
                    &&& seg.wf()
                    &&& seg.0.points.0.in_range(700_000_000)
                    &&& seg.0.points.1.in_range(700_000_000)
                },
            },
    {
        let dist2 = other.side(self.center);
        proof {
            crate::num::lemma_mul_abs_le(self.radius as int, SCALE as int, 100_000_000, 1_000_000);
        }
        let rs = (self.radius as i128) * (SCALE as i128);
        if dist2 > rs {
            None
        } else if rs + dist2 <= EPS2 as i128 {
            Some(DiskCut::Whole(*self))
        } else {
            proof {
                lemma_plane_cut_bounds(
                    dist2 as int,
                    self.radius as int,
                    other.normal.x as int,
                    other.normal.y as int,
                );
            }
            let a = crate::num::rdiv_i128(dist2, SCALE as i128) as i64;
            proof {
                crate::num::lemma_mul_abs_le(
                    self.radius as int,
                    self.radius as int,
                    100_000_000,
                    100_000_000,
                );
                crate::num::lemma_mul_abs_le(a as int, a as int, 100_000_000, 100_000_000);
                assert((a as int) * (a as int) >= 0) by (nonlinear_arith);
            }
            let rr = (self.radius as i128) * (self.radius as i128);
            let aa = (a as i128) * (a as i128);
            let hh128: i128 = if aa <= rr {
                crate::num::isqrt_i128(rr - aa)
            } else {
                0
            };
            proof {
                if (a as int) * (a as int) <= (self.radius as int) * (self.radius as int) {
                    crate::num::lemma_sqrt_le(
                        (self.radius as int) * (self.radius as int) - (a as int) * (a as int),
                        100_000_000,
                    );
                    assert(100_000_000int * 100_000_000int == 10_000_000_000_000_000int)
                        by (nonlinear_arith);
                }
            }
            let hh = hh128 as i64;
            proof {
                crate::num::lemma_mul_abs_le(other.normal.x as int, a as int, 2_000_000, 100_000_000);
                crate::num::lemma_mul_abs_le(other.normal.y as int, a as int, 2_000_000, 100_000_000);
                crate::num::lemma_mul_abs_le(other.normal.x as int, hh as int, 2_000_000, 100_000_000);
                crate::num::lemma_mul_abs_le(other.normal.y as int, hh as int, 2_000_000, 100_000_000);
                crate::num::lemma_rdiv_abs_le(
                    (other.normal.x as int) * (a as int),
                    SCALE as int,
                    200_000_000,
                );
                crate::num::lemma_rdiv_abs_le(
                    (other.normal.y as int) * (a as int),
                    SCALE as int,
                    200_000_000,
                );
                crate::num::lemma_rdiv_abs_le(
                    (other.normal.y as int) * (hh as int),
                    SCALE as int,
                    200_000_000,
                );
                crate::num::lemma_rdiv_abs_le(
                    (other.normal.x as int) * (hh as int),
                    SCALE as int,
                    200_000_000,
                );
                assert(200_000_000int * (SCALE as int) == 2_000_000int * 100_000_000int)
                    by (nonlinear_arith);
            }
            let mx = self.center.x as i128 - crate::num::rdiv_i128(
                (other.normal.x as i128) * (a as i128),
                SCALE as i128,
            );
            let my = self.center.y as i128 - crate::num::rdiv_i128(
                (other.normal.y as i128) * (a as i128),
                SCALE as i128,
            );
            let ox = crate::num::rdiv_i128((other.normal.y as i128) * (hh as i128), SCALE as i128);
            let oy = crate::num::rdiv_i128((other.normal.x as i128) * (hh as i128), SCALE as i128);
            Some(
                DiskCut::Segment(
                    DiskSegment(
                        Arc {
                            points: (
                                Vec2 { x: (mx - ox) as i64, y: (my + oy) as i64 },
                                Vec2 { x: (mx + ox) as i64, y: (my - oy) as i64 },
                            ),
                            sagitta: self.radius - a,
                        },
                    ),
                ),
            )
        }
    }
}

impl Intersect<Disk> for HalfPlane {
    type Output = DiskCut;

    open spec fn compatible(&self, other: &Disk) -> bool {
        other.wf() && self.wf() && other.radius >= 0
    }

    /// Delegates to the disk-against-half-plane derivation.
    fn intersect(&self, other: &Disk) -> (r: Option<DiskCut>)
        ensures
            match r {
                None => disk_plane_case(*other, *self) == 0,
                Some(DiskCut::Whole(w)) => disk_plane_case(*other, *self) == 1 && w == *other,
                Some(DiskCut::Segment(seg)) => {
                    &&& disk_plane_case(*other, *self) == 2
                    &&& seg == disk_plane_seg(*other, *self)
                    &&& seg.wf()
                    &&& seg.0.points.0.in_range(700_000_000)
                    &&& seg.0.points.1.in_range(700_000_000)
                },
            },
    {
        other.intersect(self)
    }
}

/// In the cutting case the rounded apothem is confined by the radius:
/// `1 - radius <= a <= radius`, so every derived chord quantity stays in
/// the arc range.
proof fn lemma_plane_cut_bounds(dist2: int, radius: int, nx: int, ny: int)
    requires
        -(2 * SCALE as int) <= nx <= 2 * SCALE as int,
        -(2 * SCALE as int) <= ny <= 2 * SCALE as int,
        0 <= radius <= 100_000_000,
        dist2 <= radius * SCALE,
        radius * SCALE + dist2 > EPS2 as int,
    ensures
        1 - radius <= rdiv(dist2, SCALE as int) <= radius,
        1 <= radius,
        -100_000_000 <= rdiv(dist2, SCALE as int) <= 100_000_000,
{
    let a = rdiv(dist2, SCALE as int);
    crate::num::lemma_rdiv_err(dist2, SCALE as int);
    assert(radius * SCALE >= 0) by (nonlinear_arith)
        requires
            radius >= 0,
            SCALE as int >= 0,
    ;
    if radius < 1 {
        assert(radius * SCALE == 0) by (nonlinear_arith)
            requires
                radius == 0,
        ;
        assert(false);
    }
    if a > radius {
        assert(a * SCALE >= (radius + 1) * SCALE) by (nonlinear_arith)
            requires
                a >= radius + 1,
                SCALE as int > 0,
        ;
        assert((radius + 1) * SCALE == radius * SCALE + SCALE) by (nonlinear_arith);
        assert(false);
    }
    if a < 1 - radius {
        assert(a * SCALE <= (-radius) * SCALE) by (nonlinear_arith)
            requires
                a <= -radius,
                SCALE as int > 0,
        ;
        assert((-radius) * SCALE == -(radius * SCALE)) by (nonlinear_arith);
        assert(false);
    }
}

/// Which case `Circle::intersect(&Line)` takes: `0` for no crossing,
/// `1` for a tangent touch, `2` for two crossing points.
pub open spec fn circle_line_case(c: Circle, l: Line) -> int {
    if l.0 == l.1 {
        0
    } else {
        let hp = from_edge_spec(l);
        let dist2 = side_of(hp, c.center);
        if dist2 <= c.radius * SCALE && c.radius * SCALE + dist2 > EPS2 as int {
            2
        } else {
            if absi(absi(rdiv(dist2, SCALE as int)) - c.radius) < EPS as int {
                1
            } else {
                0
            }
        }
    }
}

/// The tangent touch point: the foot of the circle's center on the line.
pub open spec fn circle_line_tangent(c: Circle, l: Line) -> (int, int) {
    let hp = from_edge_spec(l);
    let a = rdiv(side_of(hp, c.center), SCALE as int);
    (
        c.center.x - rdiv(hp.normal.x * a, SCALE as int),
        c.center.y - rdiv(hp.normal.y * a, SCALE as int),
    )
}

/// The two crossing points of a circle and a line, ordered along the
/// line's own direction: the chord endpoints of the disk segment that the
/// line's left half-plane cuts from the disk, reversed.
pub open spec fn circle_line_points(c: Circle, l: Line) -> (Vec2, Vec2) {
    let seg = disk_plane_seg(Disk { center: c.center, radius: c.radius }, from_edge_spec(l));
    (seg.0.points.1, seg.0.points.0)
}

impl Intersect<Line> for Circle {
    type Output = (Vec2, Vec2);

    open spec fn compatible(&self, other: &Line) -> bool {
        self.wf() && other.wf() && self.radius >= 0
    }

    /// The crossing points of the circle's boundary with an infinite line,
    /// in the order the line traverses them; a tangent line reports its
    /// touch point twice, and a degenerate line reports nothing.
    fn intersect(&self, other: &Line) -> (r: Option<(Vec2, Vec2)>)
        ensures
            match r {
                None => circle_line_case(*self, *other) == 0,
                Some((p0, p1)) => {
                    &&& circle_line_case(*self, *other) >= 1
                    &&& (circle_line_case(*self, *other) == 2 ==> (p0, p1) == circle_line_points(
                        *self,
                        *other,
                    ))
                    &&& (circle_line_case(*self, *other) == 1 ==> p0.x
                        == circle_line_tangent(*self, *other).0 && p0.y == circle_line_tangent(
                        *self,
                        *other,
                    ).1 && p1 == p0)
                    &&& p0.in_range(700_000_000)
                    &&& p1.in_range(700_000_000)
                },
            },
    {
        if other.is_degenerate() {
            proof {
                assert(circle_line_case(*self, *other) == 0);
            }
            return None;
        }
        let hp = crate::plane::HalfPlane::from_edge(other);
        let d = Disk { center: self.center, radius: self.radius };
        let dist2 = hp.side(self.center);
        proof {
            crate::num::lemma_mul_abs_le(self.radius as int, SCALE as int, 100_000_000, 1_000_000);
        }
        let rs = (self.radius as i128) * (SCALE as i128);
        if dist2 <= rs && rs + dist2 > EPS2 as i128 {
            match d.intersect(&hp) {
                Some(DiskCut::Segment(seg)) => Some((seg.0.points.1, seg.0.points.0)),
                _ => {
                    proof {
                        assert(false);
                    }
                    None
                },
            }
        } else {
            proof {
                crate::num::lemma_rdiv_abs_le(dist2 as int, SCALE as int, 4_900_000_000);
                assert(4_900_000_000int * (SCALE as int) == 4_900_000_000_000_000int)
                    by (nonlinear_arith);
            }
            let a = crate::num::rdiv_i128(dist2, SCALE as i128) as i64;
            let aa: i64 = if a < 0 {
                -a
            } else {
                a
            };
            let t: i64 = if aa > self.radius {
                aa - self.radius
            } else {
                self.radius - aa
            };
            proof {
                assert(a == rdiv(side_of(from_edge_spec(*other), self.center), SCALE as int));
                assert(t == absi(absi(a as int) - self.radius));
            }
            if t < EPS {
                proof {
                    crate::num::lemma_mul_abs_le(
                        hp.normal.x as int,
                        a as int,
                        2_000_000,
                        100_000_001,
                    );
                    crate::num::lemma_mul_abs_le(
                        hp.normal.y as int,
                        a as int,
                        2_000_000,
                        100_000_001,
                    );
                    crate::num::lemma_rdiv_abs_le(
                        (hp.normal.x as int) * (a as int),
                        SCALE as int,
                        200_000_002,
                    );
                    crate::num::lemma_rdiv_abs_le(
                        (hp.normal.y as int) * (a as int),
                        SCALE as int,
                        200_000_002,
                    );
                    assert(200_000_002int * (SCALE as int) == 2_000_000int * 100_000_001int)
                        by (nonlinear_arith);
                }
                let px = (self.center.x as i128 - crate::num::rdiv_i128(
                    (hp.normal.x as i128) * (a as i128),
                    SCALE as i128,
                )) as i64;
                let py = (self.center.y as i128 - crate::num::rdiv_i128(
                    (hp.normal.y as i128) * (a as i128),
                    SCALE as i128,
                )) as i64;
                let p = Vec2 { x: px, y: py };
                proof {
                    assert(circle_line_case(*self, *other) == 1);
                }
                Some((p, p))
            } else {
                proof {
                    assert(circle_line_case(*self, *other) == 0);
                }
                None
            }
        }
    }
}

impl Intersect<Circle> for Line {
    type Output = (Vec2, Vec2);

    open spec fn compatible(&self, other: &Circle) -> bool {
        other.wf() && self.wf() && other.radius >= 0
    }

    /// Delegates to the circle-against-line derivation.
    fn intersect(&self, other: &Circle) -> (r: Option<(Vec2, Vec2)>)
        ensures
            match r {
                None => circle_line_case(*other, *self) == 0,
                Some((p0, p1)) => {
                    &&& circle_line_case(*other, *self) >= 1
                    &&& (circle_line_case(*other, *self) == 2 ==> (p0, p1) == circle_line_points(
                        *other,
                        *self,
                    ))
                    &&& (circle_line_case(*other, *self) == 1 ==> p0.x
                        == circle_line_tangent(*other, *self).0 && p0.y == circle_line_tangent(
                        *other,
                        *self,
                    ).1 && p1 == p0)
                    &&& p0.in_range(700_000_000)
                    &&& p1.in_range(700_000_000)
                },
            },
    {
        other.intersect(self)
    }
}

/// The parameter of a point along a segment lies in the tolerance-widened
/// unit interval.
pub open spec fn on_segment_spec(s: LineSegment, p: Vec2) -> bool {
    let d = crate::vec2::dvec(s.0, s.1);
    let tp = (p.x - s.0.x, p.y - s.0.y);
    param_in01(crate::vec2::tdot(tp, d), crate::vec2::tdot(d, d))
}

impl Intersect<LineSegment> for Circle {
    type Output = (Option<Vec2>, Option<Vec2>);

    open spec fn compatible(&self, other: &LineSegment) -> bool {
        self.wf() && other.wf() && self.radius >= 0
    }

    /// The crossing points of the circle's boundary with a bounded
    /// segment: the crossings with the carrying line, each reported only
    /// when it falls within the segment's parameter range.
    fn intersect(&self, other: &LineSegment) -> (r: Option<(Option<Vec2>, Option<Vec2>)>)
        ensures
            match r {
                None => circle_line_case(*self, Line(other.0, other.1)) == 0,
                Some((o0, o1)) => {
                    &&& circle_line_case(*self, Line(other.0, other.1)) >= 1
                    &&& match (
                        self.line_hits_spec(Line(other.0, other.1)),
                        o0,
                    ) {
                        ((q0, _), Some(p)) => p == q0 && on_segment_spec(*other, q0)
                            && p.in_range(700_000_000),
                        ((q0, _), None) => !on_segment_spec(*other, q0),
                    }
                    &&& match (
                        self.line_hits_spec(Line(other.0, other.1)),
                        o1,
                    ) {
                        ((_, q1), Some(p)) => p == q1 && on_segment_spec(*other, q1)
                            && p.in_range(700_000_000),
                        ((_, q1), None) => !on_segment_spec(*other, q1),
                    }
                },
            },
    {
        let line = Line(other.0, other.1);
        match self.intersect(&line) {
            None => None,
            Some((p0, p1)) => {
                let o0 = if on_segment(other, p0) {
                    Some(p0)
                } else {
                    None
                };
                let o1 = if on_segment(other, p1) {
                    Some(p1)
                } else {
                    None
                };
                Some((o0, o1))
            },
        }
    }
}

impl Circle {
    /// The pair of points `Circle::intersect(&Line)` reports in its
    /// crossing and tangent cases.
    pub open spec fn line_hits_spec(self, l: Line) -> (Vec2, Vec2) {
        if circle_line_case(self, l) == 2 {
            circle_line_points(self, l)
        } else {
            let t = circle_line_tangent(self, l);
            (Vec2 { x: t.0 as i64, y: t.1 as i64 }, Vec2 { x: t.0 as i64, y: t.1 as i64 })
        }
    }
}

/// Whether a point's parameter along a segment lies in the widened unit
/// interval.
fn on_segment(s: &LineSegment, p: Vec2) -> (r: bool)
    requires
        s.wf(),
        p.in_range(700_000_000),
    ensures
        r == on_segment_spec(*s, p),
{
    let dx = (s.1.x - s.0.x) as i128;
    let dy = (s.1.y - s.0.y) as i128;
    let tx = (p.x - s.0.x) as i128;
    let ty = (p.y - s.0.y) as i128;
    proof {
        crate::num::lemma_mul_abs_le(tx as int, dx as int, 1_800_000_000, 2_200_000_000);
        crate::num::lemma_mul_abs_le(ty as int, dy as int, 1_800_000_000, 2_200_000_000);
        crate::num::lemma_mul_abs_le(dx as int, dx as int, 2_200_000_000, 2_200_000_000);
        crate::num::lemma_mul_abs_le(dy as int, dy as int, 2_200_000_000, 2_200_000_000);
        crate::num::lemma_mul_abs_le(
            SCALE as int,
            tx as int * (dx as int) + ty as int * (dy as int),
            1_000_000,
            8_000_000_000_000_000_000,
        );
        crate::num::lemma_mul_abs_le(
            SCALE as int,
            dx as int * (dx as int) + dy as int * (dy as int),
            1_000_000,
            10_000_000_000_000_000_000,
        );
    }
    let num = tx * dx + ty * dy;
    let den = dx * dx + dy * dy;
    let sn = SCALE as i128 * num;
    sn + den >= 0 && sn <= SCALE as i128 * den + den
}

impl Intersect<Disk> for Disk {
    type Output = DiskOverlap;

    open spec fn compatible(&self, other: &Disk) -> bool {
        self.wf() && other.wf() && self.radius >= 0 && other.radius >= 0
    }

    /// The intersection of two disks: nothing when they lie apart, the
    /// smaller disk when one contains the other, and otherwise the
    /// two-arc lens between the crossing points of their boundaries,
    /// derived from the radical-line apothems.
    #[verifier::rlimit(60)]
    fn intersect(&self, other: &Disk) -> (r: Option<DiskOverlap>)
        ensures
            match r {
                None => disk_disk_case(*self, *other) == 0,
                Some(DiskOverlap::Whole(w)) => disk_disk_case(*self, *other) == 1 && w
                    == disk_disk_whole(*self, *other),
                Some(DiskOverlap::Lens(p)) => {
                    &&& disk_disk_case(*self, *other) == 2
                    &&& p.vertices@.len() == 2
                    &&& p.vertices@[0] == disk_disk_lens(*self, *other).0
                    &&& p.vertices@[1] == disk_disk_lens(*self, *other).1
                    &&& p.vertices@[0].wf()
                    &&& p.vertices@[1].wf()
                },
            },
    {
        let rx = (other.center.x - self.center.x) as i128;
        let ry = (other.center.y - self.center.y) as i128;
        let rsum = (self.radius + other.radius) as i128;
        let rdif = (self.radius - other.radius) as i128;
        proof {
            crate::num::lemma_mul_abs_le(rx as int, rx as int, 200_000_000, 200_000_000);
            crate::num::lemma_mul_abs_le(ry as int, ry as int, 200_000_000, 200_000_000);
            crate::num::lemma_mul_abs_le(rsum as int, rsum as int, 200_000_000, 200_000_000);
            crate::num::lemma_mul_abs_le(rdif as int, rdif as int, 200_000_000, 200_000_000);
        }
        let dd = rx * rx + ry * ry;
        if dd > rsum * rsum {
            None
        } else if dd <= rdif * rdif {
            Some(
                DiskOverlap::Whole(
                    if self.radius < other.radius {
                        *self
                    } else {
                        *other
                    },
                ),
            )
        } else {
            proof {
                assert(rdif * rdif >= 0) by (nonlinear_arith);
                crate::num::lemma_sqrt_of(dd as int);
            }
            let t = crate::num::isqrt_i128(dd) as i64;
            proof {
                crate::num::lemma_sqrt_le(dd as int, 300_000_000);
                assert(300_000_000int * 300_000_000int == 90_000_000_000_000_000int)
                    by (nonlinear_arith);
                lemma_lens_apothem(
                    dd as int,
                    self.radius as int,
                    other.radius as int,
                    t as int,
                );
                crate::num::lemma_mul_abs_le(
                    self.radius as int,
                    self.radius as int,
                    100_000_000,
                    100_000_000,
                );
                crate::num::lemma_mul_abs_le(
                    other.radius as int,
                    other.radius as int,
                    100_000_000,
                    100_000_000,
                );
            }
            let a1 = crate::num::rdiv_i128(
                dd + (self.radius as i128) * (self.radius as i128) - (other.radius as i128) * (
                other.radius as i128),
                2 * (t as i128),
            ) as i64;
            let a2 = t - a1;
            proof {
                lemma_lens_direction(rx as int, ry as int, dd as int, t as int);
                crate::num::lemma_mul_abs_le(a1 as int, a1 as int, 410_000_000, 410_000_000);
                assert((a1 as int) * (a1 as int) >= 0) by (nonlinear_arith);
            }
            let nx = crate::num::rdiv_i128(rx * (SCALE as i128), t as i128) as i64;
            let ny = crate::num::rdiv_i128(ry * (SCALE as i128), t as i128) as i64;
            proof {
                crate::num::lemma_mul_abs_le(nx as int, a1 as int, 1_000_000, 410_000_000);
                crate::num::lemma_mul_abs_le(ny as int, a1 as int, 1_000_000, 410_000_000);
                crate::num::lemma_rdiv_abs_le(
                    (nx as int) * (a1 as int),
                    SCALE as int,
                    410_000_000,
                );
                crate::num::lemma_rdiv_abs_le(
                    (ny as int) * (a1 as int),
                    SCALE as int,
                    410_000_000,
                );
                assert(410_000_000int * (SCALE as int) == 1_000_000int * 410_000_000int)
                    by (nonlinear_arith);
            }
            let mx = (self.center.x as i128 + crate::num::rdiv_i128(
                (nx as i128) * (a1 as i128),
                SCALE as i128,
            )) as i64;
            let my = (self.center.y as i128 + crate::num::rdiv_i128(
                (ny as i128) * (a1 as i128),
                SCALE as i128,
            )) as i64;
            let rr1 = (self.radius as i128) * (self.radius as i128);
            let aa1 = (a1 as i128) * (a1 as i128);
            let hh128: i128 = if aa1 <= rr1 {
                crate::num::isqrt_i128(rr1 - aa1)
            } else {
                0
            };
            proof {
                if (a1 as int) * (a1 as int) <= (self.radius as int) * (self.radius as int) {
                    crate::num::lemma_sqrt_le(
                        (self.radius as int) * (self.radius as int) - (a1 as int) * (a1 as int),
                        100_000_000,
                    );
                    assert(100_000_000int * 100_000_000int == 10_000_000_000_000_000int)
                        by (nonlinear_arith);
                }
            }
            let hh = hh128 as i64;
            proof {
                crate::num::lemma_mul_abs_le(ny as int, hh as int, 1_000_000, 100_000_000);
                crate::num::lemma_mul_abs_le(nx as int, hh as int, 1_000_000, 100_000_000);
                crate::num::lemma_rdiv_abs_le((ny as int) * (hh as int), SCALE as int, 100_000_000);
                crate::num::lemma_rdiv_abs_le((nx as int) * (hh as int), SCALE as int, 100_000_000);
                assert(100_000_000int * (SCALE as int) == 1_000_000int * 100_000_000int)
                    by (nonlinear_arith);
            }
            let qx = crate::num::rdiv_i128((ny as i128) * (hh as i128), SCALE as i128) as i64;
            let qy = crate::num::rdiv_i128((nx as i128) * (hh as i128), SCALE as i128) as i64;
            let va = ArcVertex {
                point: Vec2 { x: mx + qx, y: my - qy },
                sagitta: self.radius - a1,
            };
            let vb = ArcVertex {
                point: Vec2 { x: mx - qx, y: my + qy },
                sagitta: other.radius - a2,
            };
            let mut verts: Vec<ArcVertex> = Vec::new();
            verts.push(va);
            verts.push(vb);
            Some(DiskOverlap::Lens(crate::polygon::Polygon::new(verts)))
        }
    }
}

/// In the lens case the rounded first apothem is bounded by twice the sum
/// of the radii.
proof fn lemma_lens_apothem(dd: int, r1: int, r2: int, t: int)
    requires
        0 <= r1 <= 100_000_000,
        0 <= r2 <= 100_000_000,
        0 <= t,
        t * t <= dd,
        dd < (t + 1) * (t + 1),
        dd <= (r1 + r2) * (r1 + r2),
        (r1 - r2) * (r1 - r2) < dd,
    ensures
        1 <= t,
        -410_000_000 <= rdiv(dd + r1 * r1 - r2 * r2, 2 * t) <= 410_000_000,
{
    if t < 1 {
        assert(t == 0);
        assert((t + 1) * (t + 1) == 1) by (nonlinear_arith)
            requires
                t == 0,
        ;
        assert(dd < 1);
        assert((r1 - r2) * (r1 - r2) >= 0) by (nonlinear_arith);
        assert(false);
    }
    let num = dd + r1 * r1 - r2 * r2;
    let b = 2 * (r1 + r2) + 2;
    assert(r1 * r1 - r2 * r2 == (r1 - r2) * (r1 + r2)) by (nonlinear_arith);
    assert(-(t + 1) < r1 - r2 < t + 1) by (nonlinear_arith)
        requires
            (r1 - r2) * (r1 - r2) < (t + 1) * (t + 1),
            (r1 - r2) * (r1 - r2) < dd,
            dd < (t + 1) * (t + 1),
            t >= 0,
    ;
    assert(t <= r1 + r2) by (nonlinear_arith)
        requires
            t * t <= dd,
            dd <= (r1 + r2) * (r1 + r2),
            t >= 0,
            r1 + r2 >= 0,
    ;
    assert((r1 - r2) * (r1 + r2) <= t * (r1 + r2)) by (nonlinear_arith)
        requires
            r1 - r2 <= t,
            r1 + r2 >= 0,
    ;
    assert((r1 - r2) * (r1 + r2) >= -(t * (r1 + r2))) by (nonlinear_arith)
        requires
            -t <= r1 - r2,
            r1 + r2 >= 0,
    ;
    assert(dd <= t * t + 3 * t) by (nonlinear_arith)
        requires
            dd < (t + 1) * (t + 1),
            t >= 1,
    ;
    assert(t * t <= t * (r1 + r2)) by (nonlinear_arith)
        requires
            t <= r1 + r2,
            t >= 0,
    ;
    assert(num <= 2 * (t * (r1 + r2)) + 3 * t);
    assert(num >= -(t * (r1 + r2)));
    assert(2 * (t * (r1 + r2)) + 3 * t <= b * (2 * t)) by (nonlinear_arith)
        requires
            b == 2 * (r1 + r2) + 2,
            t >= 1,
            r1 + r2 >= 0,
    ;
    assert(-(b * (2 * t)) <= -(t * (r1 + r2))) by (nonlinear_arith)
        requires
            b == 2 * (r1 + r2) + 2,
            t >= 1,
            r1 + r2 >= 0,
    ;
    crate::num::lemma_rdiv_abs_le(num, 2 * t, b);
    assert(b <= 410_000_000);
}

/// The normalized center direction of a lens: each component at most the
/// unit scale.
proof fn lemma_lens_direction(rx: int, ry: int, dd: int, t: int)
    requires
        -200_000_000 <= rx <= 200_000_000,
        -200_000_000 <= ry <= 200_000_000,
        dd == rx * rx + ry * ry,
        1 <= t,
        t * t <= dd,
        dd < (t + 1) * (t + 1),
    ensures
        -1_000_000 <= rdiv(rx * SCALE, t) <= 1_000_000,
        -1_000_000 <= rdiv(ry * SCALE, t) <= 1_000_000,
{
    crate::num::lemma_sqrt_square(rx);
    crate::num::lemma_sqrt_square(ry);
    assert(ry * ry >= 0) by (nonlinear_arith);
    assert(rx * rx >= 0) by (nonlinear_arith);
    crate::num::lemma_sqrt_mono(rx * rx, dd);
    crate::num::lemma_sqrt_mono(ry * ry, dd);
    assert(sqrt_of(dd) == t) by {
        crate::num::lemma_sqrt_of(dd);
        let s = sqrt_of(dd);
        if s < t {
            assert((s + 1) * (s + 1) <= t * t) by (nonlinear_arith)
                requires
                    0 <= s,
                    s + 1 <= t,
            ;
            assert(false);
        }
        if s > t {
            assert(s * s >= (t + 1) * (t + 1)) by (nonlinear_arith)
                requires
                    0 <= t,
                    t + 1 <= s,
            ;
            assert(false);
        }
    }
    assert(crate::num::absi(rx) <= t);
    assert(crate::num::absi(ry) <= t);
    assert(-(1_000_000 * t) <= rx * SCALE <= 1_000_000 * t) by (nonlinear_arith)
        requires
            -t <= rx <= t,
            t >= 0,
            SCALE as int == 1_000_000,
    ;
    assert(-(1_000_000 * t) <= ry * SCALE <= 1_000_000 * t) by (nonlinear_arith)
        requires
            -t <= ry <= t,
            t >= 0,
            SCALE as int == 1_000_000,
    ;
    crate::num::lemma_rdiv_abs_le(rx * SCALE, t, 1_000_000);
    crate::num::lemma_rdiv_abs_le(ry * SCALE, t, 1_000_000);
}


} // verus!
