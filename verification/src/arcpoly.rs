//! Arc polygons: polygons whose edges are circular arcs.  An arc polygon
//! decomposes into its straight chord polygon plus one disk segment per
//! edge; winding numbers add and moments merge across that decomposition.
//! Clipping a straight polygon against a disk produces an arc polygon.

use crate::arc::{seg_moment_spec, seg_winding_spec, Arc, ArcVertex, DiskSegment};
use crate::circle::{circle_line_case, circle_winding_spec, on_segment_spec, Circle, Disk};
use crate::line::{Line, LineSegment};
use crate::moment::Moment;
use crate::num::{clampr, rdiv, sqrt_of, EPS, SCALE};
use crate::polygon::{nxt, winding_sum, ArcPolygon, Polygon, MAX_VERTICES};
use crate::vec2::{dvec, tcross, Vec2};
use crate::{Intersect, IntersectTo};
use vstd::prelude::*;

verus! {

/// The points of an arc-vertex sequence.
pub open spec fn points_of(s: Seq<ArcVertex>) -> Seq<Vec2> {
    s.map_values(|v: ArcVertex| v.point)
}

/// The disk segment of edge `i`: the arc from vertex `i` to its cyclic
/// successor, carrying vertex `i`'s sagitta.
pub open spec fn edge_seg(s: Seq<ArcVertex>, i: int) -> DiskSegment {
    DiskSegment(Arc { points: (s[i].point, nxt(s, i).point), sagitta: s[i].sagitta })
}

/// Sum of the winding contributions of the first `i` edge segments.
pub open spec fn seg_wind_sum(s: Seq<ArcVertex>, p: Vec2, i: int) -> int
    decreases i,
{
    if i <= 0 {
        0
    } else {
        seg_wind_sum(s, p, i - 1) + seg_winding_spec(edge_seg(s, i - 1), p)
    }
}

/// A prefix of segment winding contributions is bounded by twice its
/// length.
pub proof fn lemma_seg_wind_bound(s: Seq<ArcVertex>, p: Vec2, i: int)
    requires
        0 <= i,
    ensures
        -(2 * i) <= seg_wind_sum(s, p, i) <= 2 * i,
    decreases i,
{
    if i > 0 {
        lemma_seg_wind_bound(s, p, i - 1);
    }
}

/// Twice the wrapping of an arc polygon's boundary around a point: twice
/// the chord polygon's winding number plus each edge segment's
/// contribution.
pub open spec fn arc_winding_spec(s: Seq<ArcVertex>, p: Vec2) -> int {
    2 * winding_sum(points_of(s), p, s.len() as int) + seg_wind_sum(s, p, s.len() as int)
}

/// The moments of the first `i` edge segments merged onto a base moment.
pub open spec fn seg_moment_fold(s: Seq<ArcVertex>, base: Moment, i: int) -> Moment
    decreases i,
{
    if i <= 0 {
        base
    } else {
        seg_moment_fold(s, base, i - 1).merge_spec(seg_moment_spec(edge_seg(s, i - 1)))
    }
}

/// The moment of an arc polygon: the chord polygon's shoelace moment
/// merged with every edge segment's moment.
pub open spec fn arc_moment_spec(s: Seq<ArcVertex>) -> Moment {
    seg_moment_fold(s, crate::polygon::poly_moment_spec(points_of(s)), s.len() as int)
}

impl ArcPolygon {
    /// All vertices within the arc range, and not more of them than the
    /// kernel supports.
    pub open spec fn awf(self) -> bool {
        &&& self.vertices@.len() <= MAX_VERTICES
        &&& forall|i: int| 0 <= i < self.vertices@.len() ==> (#[trigger] self.vertices@[i]).wf()
    }

    /// The straight chord polygon through the arc polygon's vertices.
    pub fn as_polygon(&self) -> (r: Polygon<Vec2>)
        requires
            self.awf(),
        ensures
            r.vertices@ == points_of(self.vertices@),
    {
        let n = self.vertices.len();
        let mut pts: Vec<Vec2> = Vec::new();
        let mut i: usize = 0;
        while i < n
            invariant
                n == self.vertices@.len(),
                0 <= i <= n,
                pts@ == points_of(self.vertices@).subrange(0, i as int),
            decreases n - i,
        {
            pts.push(self.vertices[i].point);
            proof {
                assert(pts@ =~= points_of(self.vertices@).subrange(0, (i + 1) as int));
            }
            i += 1;
        }
        proof {
            assert(pts@ =~= points_of(self.vertices@));
        }
        Polygon::new(pts)
    }

    /// The whole disk as a two-vertex arc polygon: two antipodal points,
    /// each carrying the radius as sagitta, forming two half-circle arcs.
    pub fn from_circle(circle: &Circle) -> (r: ArcPolygon)
        requires
            circle.wf(),
            circle.radius >= 0,
        ensures
            r.vertices@.len() == 2,
            r.vertices@[0] == (ArcVertex {
                point: Vec2 { x: circle.center.x, y: (circle.center.y - circle.radius) as i64 },
                sagitta: circle.radius,
            }),
            r.vertices@[1] == (ArcVertex {
                point: Vec2 { x: circle.center.x, y: (circle.center.y + circle.radius) as i64 },
                sagitta: circle.radius,
            }),
            r.awf(),
    {
        let mut v: Vec<ArcVertex> = Vec::new();
        v.push(
            ArcVertex {
                point: Vec2 { x: circle.center.x, y: circle.center.y - circle.radius },
                sagitta: circle.radius,
            },
        );
        v.push(
            ArcVertex {
                point: Vec2 { x: circle.center.x, y: circle.center.y + circle.radius },
                sagitta: circle.radius,
            },
        );
        Polygon::new(v)
    }

    /// Twice the boundary's wrapping contribution around the point.
    pub fn winding_number_2(&self, point: Vec2) -> (r: i32)
        requires
            self.awf(),
            point.wf(),
        ensures
            r == arc_winding_spec(self.vertices@, point),
    {
        let chord = self.as_polygon();
        proof {
            assert forall|i: int| 0 <= i < chord.vertices@.len() implies (
            #[trigger] chord.vertices@[i]).in_range(800_000_000) by {
                assert(chord.vertices@[i] == points_of(self.vertices@)[i]);
                assert(points_of(self.vertices@)[i] == self.vertices@[i].point);
                assert(self.vertices@[i].wf());
            }
            crate::polygon::lemma_winding_bound(
                points_of(self.vertices@),
                point,
                self.vertices@.len() as int,
            );
        }
        let base = crate::polygon::winding_of_points(&chord.vertices, point);
        let n = self.vertices.len();
        let mut w: i64 = 2 * (base as i64);
        let mut i: usize = 0;
        while i < n
            invariant
                n == self.vertices@.len(),
                n <= MAX_VERTICES,
                self.awf(),
                point.wf(),
                0 <= i <= n,
                w == 2 * winding_sum(points_of(self.vertices@), point, n as int) + seg_wind_sum(
                    self.vertices@,
                    point,
                    i as int,
                ),
                -(4 * n as int) <= w <= 4 * n as int,
                -(2 * n as int) <= 2 * winding_sum(points_of(self.vertices@), point, n as int)
                    <= 2 * n as int,
            decreases n - i,
        {
            let a = self.vertices[i];
            let b = if i + 1 < n {
                self.vertices[i + 1]
            } else {
                self.vertices[0]
            };
            let seg = DiskSegment(Arc { points: (a.point, b.point), sagitta: a.sagitta });
            let c = seg.winding_number_2(point);
            w += c as i64;
            proof {
                lemma_seg_wind_bound(self.vertices@, point, (i + 1) as int);
            }
            i += 1;
        }
        w as i32
    }

    /// The point is inside the arc polygon: the boundary wraps around it
    /// a positive number of times.
    pub fn contains(&self, point: Vec2) -> (r: bool)
        requires
            self.awf(),
            point.wf(),
        ensures
            r == (arc_winding_spec(self.vertices@, point) > 0),
    {
        self.winding_number_2(point) > 0
    }

    /// The moment of the arc polygon: the chord polygon's moment merged
    /// with every edge segment's moment.
    pub fn moment(&self) -> (r: Moment)
        requires
            self.awf(),
        ensures
            r == arc_moment_spec(self.vertices@),
            r.wf(),
    {
        let chord = self.as_polygon();
        proof {
            assert forall|i: int| 0 <= i < chord.vertices@.len() implies (
            #[trigger] chord.vertices@[i]).in_range(800_000_000) by {
                assert(chord.vertices@[i] == points_of(self.vertices@)[i]);
                assert(points_of(self.vertices@)[i] == self.vertices@[i].point);
                assert(self.vertices@[i].wf());
            }
        }
        let mut m = crate::polygon::moment_of_points(&chord.vertices);
        let n = self.vertices.len();
        let mut i: usize = 0;
        while i < n
            invariant
                n == self.vertices@.len(),
                self.awf(),
                0 <= i <= n,
                m == seg_moment_fold(
                    self.vertices@,
                    crate::polygon::poly_moment_spec(points_of(self.vertices@)),
                    i as int,
                ),
                m.wf(),
            decreases n - i,
        {
            let a = self.vertices[i];
            let b = if i + 1 < n {
                self.vertices[i + 1]
            } else {
                self.vertices[0]
            };
            let seg = DiskSegment(Arc { points: (a.point, b.point), sagitta: a.sagitta });
            let sm = seg.moment();
            m = m.merge(sm);
            i += 1;
        }
        m
    }
}

/// All chord vertices of an arc-vertex sequence are wf when the arc
/// polygon is: the chord polygon of a wf arc polygon is generally wider
/// than the point range, but clip results stay within it.
///
/// The sagitta of the arc closing a gap on the disk boundary from `x`
/// back to `y`: the radius minus the signed distance of the disk's center
/// from the chord `x -> y` (positive when the center lies left of it),
/// clamped into the arc range.  A degenerate chord gets a zero sagitta.
pub open spec fn gap_sag_spec(d: Disk, x: Vec2, y: Vec2) -> int {
    let dv = dvec(x, y);
    let l2 = dv.0 * dv.0 + dv.1 * dv.1;
    if l2 < 1 {
        0
    } else {
        let sd = rdiv(tcross(dv, dvec(x, d.center)), sqrt_of(l2));
        d.radius - clampr(sd, -600_000_000, 600_000_000)
    }
}

/// The exit point where the directed edge `(p, v)` leaves the disk: the
/// second boundary crossing along the edge, or the touch point of a
/// tangent edge; where rounding leaves no crossing, the inside endpoint.
pub open spec fn exit_spec(d: Disk, p: Vec2, v: Vec2) -> Vec2 {
    let c = Circle { center: d.center, radius: d.radius };
    if circle_line_case(c, Line(p, v)) == 2 {
        crate::circle::circle_line_points(c, Line(p, v)).1
    } else if circle_line_case(c, Line(p, v)) == 1 {
        let t = crate::circle::circle_line_tangent(c, Line(p, v));
        Vec2 { x: t.0 as i64, y: t.1 as i64 }
    } else {
        p
    }
}

/// The entry point where the directed edge `(p, v)` enters the disk.
pub open spec fn entry_spec(d: Disk, p: Vec2, v: Vec2) -> Vec2 {
    let c = Circle { center: d.center, radius: d.radius };
    if circle_line_case(c, Line(p, v)) == 2 {
        crate::circle::circle_line_points(c, Line(p, v)).0
    } else if circle_line_case(c, Line(p, v)) == 1 {
        let t = crate::circle::circle_line_tangent(c, Line(p, v));
        Vec2 { x: t.0 as i64, y: t.1 as i64 }
    } else {
        v
    }
}

/// One step of the disk-clipping walk: the emitted arc vertices together
/// with the pending exit point and the first entry point.
pub open spec fn dwalk(s: Seq<Vec2>, d: Disk, k: int) -> (Seq<ArcVertex>, Option<Vec2>, Option<
    Vec2,
>)
    decreases k,
{
    if k <= 0 {
        (Seq::empty(), None, None)
    } else {
        let st = dwalk(s, d, k - 1);
        let acc = st.0;
        let pend = st.1;
        let first = st.2;
        let p = s[k - 1];
        let v = nxt(s, k - 1);
        let pin = circle_winding_spec(d.center, d.radius as int, p) > 0;
        let vin = circle_winding_spec(d.center, d.radius as int, v) > 0;
        if pin && vin {
            (acc + seq![ArcVertex { point: p, sagitta: 0 }], pend, first)
        } else if pin && !vin {
            (acc + seq![ArcVertex { point: p, sagitta: 0 }], Some(exit_spec(d, p, v)), first)
        } else if !pin && vin {
            let e = entry_spec(d, p, v);
            match pend {
                Some(le) => (
                    acc + seq![
                        ArcVertex { point: le, sagitta: gap_sag_spec(d, le, e) as i64 },
                        ArcVertex { point: e, sagitta: 0 },
                    ],
                    None,
                    first,
                ),
                None => (
                    acc + seq![ArcVertex { point: e, sagitta: 0 }],
                    None,
                    if first is None {
                        Some(e)
                    } else {
                        first
                    },
                ),
            }
        } else {
            let c = Circle { center: d.center, radius: d.radius };
            let hits = c.line_hits_spec(Line(p, v));
            let seg = LineSegment(p, v);
            if circle_line_case(c, Line(p, v)) >= 1 && on_segment_spec(seg, hits.0)
                && on_segment_spec(seg, hits.1) {
                match pend {
                    Some(le) => (
                        acc + seq![
                            ArcVertex { point: le, sagitta: gap_sag_spec(d, le, hits.0) as i64 },
                            ArcVertex { point: hits.0, sagitta: 0 },
                        ],
                        Some(hits.1),
                        first,
                    ),
                    None => (
                        acc + seq![ArcVertex { point: hits.0, sagitta: 0 }],
                        Some(hits.1),
                        if first is None {
                            Some(hits.0)
                        } else {
                            first
                        },
                    ),
                }
            } else {
                (acc, pend, first)
            }
        }
    }
}

/// The first `i` arc vertices with consecutive duplicate points removed.
pub open spec fn dedup_arc_upto(s: Seq<ArcVertex>, i: int) -> Seq<ArcVertex>
    decreases i,
{
    if i <= 0 {
        Seq::empty()
    } else {
        dedup_arc_upto(s, i - 1) + if s[i - 1].point != nxt(s, i - 1).point {
            seq![s[i - 1]]
        } else {
            Seq::empty()
        }
    }
}

/// What clipping a polygon against a disk returns: the walk's emissions
/// closed by the wrap-around arc and deduplicated; a polygon that
/// surrounds the disk without touching it yields the whole disk, and one
/// that misses it yields nothing.
pub open spec fn disk_clip_spec(s: Seq<Vec2>, d: Disk) -> Option<Seq<ArcVertex>> {
    let st = dwalk(s, d, s.len() as int);
    let full = st.0 + (match (st.1, st.2) {
        (Some(le), Some(fe)) => seq![
            ArcVertex { point: le, sagitta: gap_sag_spec(d, le, fe) as i64 },
        ],
        _ => Seq::empty(),
    });
    let dd = dedup_arc_upto(full, full.len() as int);
    if dd.len() == 0 {
        if s.len() > 0 && winding_sum(s, d.center, s.len() as int) > 0 {
            Some(
                seq![
                    ArcVertex {
                        point: Vec2 { x: d.center.x, y: (d.center.y - d.radius) as i64 },
                        sagitta: d.radius,
                    },
                    ArcVertex {
                        point: Vec2 { x: d.center.x, y: (d.center.y + d.radius) as i64 },
                        sagitta: d.radius,
                    },
                ],
            )
        } else {
            None
        }
    } else {
        Some(dd)
    }
}

/// The sagitta of the boundary arc closing a gap from `x` back to `y`.
fn gap_sag(d: &Disk, x: Vec2, y: Vec2) -> (r: i64)
    requires
        d.wf(),
        x.in_range(700_000_000),
        y.in_range(700_000_000),
    ensures
        r == gap_sag_spec(*d, x, y),
        -700_000_000 <= r <= 700_000_000,
{
    let dvx = (y.x - x.x) as i128;
    let dvy = (y.y - x.y) as i128;
    proof {
        crate::num::lemma_mul_abs_le(dvx as int, dvx as int, 1_400_000_000, 1_400_000_000);
        crate::num::lemma_mul_abs_le(dvy as int, dvy as int, 1_400_000_000, 1_400_000_000);
        assert(dvx as int * (dvx as int) >= 0) by (nonlinear_arith);
        assert(dvy as int * (dvy as int) >= 0) by (nonlinear_arith);
    }
    let l2 = dvx * dvx + dvy * dvy;
    if l2 < 1 {
        return 0;
    }
    let cx = (d.center.x - x.x) as i128;
    let cy = (d.center.y - x.y) as i128;
    proof {
        crate::num::lemma_mul_abs_le(dvx as int, cy as int, 1_400_000_000, 800_000_000);
        crate::num::lemma_mul_abs_le(dvy as int, cx as int, 1_400_000_000, 800_000_000);
        crate::num::lemma_sqrt_of(l2 as int);
        crate::num::lemma_sqrt_le(l2 as int, 2_000_000_000);
        assert(2_000_000_000int * 2_000_000_000int == 4_000_000_000_000_000_000int)
            by (nonlinear_arith);
    }
    let cross = dvx * cy - dvy * cx;
    let len = crate::num::isqrt_i128(l2);
    proof {
        crate::num::lemma_sqrt_mono(1, l2 as int);
        assert(sqrt_of(1) == 1);
        crate::num::lemma_rdiv_abs_le(cross as int, len as int, 2_300_000_000_000_000_000);
        assert(2_300_000_000_000_000_000int * (len as int) >= 2_300_000_000_000_000_000int)
            by (nonlinear_arith)
            requires
                len as int >= 1,
        ;
    }
    let sd = crate::num::rdiv_i128(cross, len);
    let sdc: i64 = if sd < -600_000_000 {
        -600_000_000
    } else if sd > 600_000_000 {
        600_000_000
    } else {
        sd as i64
    };
    d.radius - sdc
}

impl IntersectTo<Disk, ArcPolygon> for Polygon<Vec2> {
    open spec fn compatible_to(&self, other: &Disk) -> bool {
        &&& self.wf()
        &&& self.vertices@.len() < crate::clip::CLIP_VERTICES
        &&& other.wf()
        &&& other.radius >= 0
    }

    /// Clip the polygon against the disk: inside vertices become
    /// zero-sagitta arc vertices, boundary crossings are inserted, and the
    /// portions of the walk outside the disk are stitched into arcs that
    /// follow the disk's boundary.
    #[verifier::rlimit(100)]
    fn intersect_to(&self, other: &Disk) -> (r: Option<ArcPolygon>)
        ensures
            match r {
                None => disk_clip_spec(self.vertices@, *other) is None,
                Some(p) => {
                    &&& disk_clip_spec(self.vertices@, *other) == Some(p.vertices@)
                    &&& p.awf()
                },
            },
    {
        let n = self.vertices.len();
        let circle = Circle { center: other.center, radius: other.radius };
        let mut acc: Vec<ArcVertex> = Vec::new();
        let mut pend: Option<Vec2> = None;
        let mut first: Option<Vec2> = None;
        let mut k: usize = 0;
        while k < n
            invariant
                n == self.vertices@.len(),
                self.wf(),
                other.wf(),
                other.radius >= 0,
                circle == (Circle { center: other.center, radius: other.radius }),
                0 <= k <= n,
                (acc@, pend, first) == dwalk(self.vertices@, *other, k as int),
                acc@.len() <= 2 * k,
                forall|i: int| 0 <= i < acc@.len() ==> (#[trigger] acc@[i]).wf(),
                match pend {
                    Some(q) => q.in_range(700_000_000),
                    None => true,
                },
                match first {
                    Some(q) => q.in_range(700_000_000),
                    None => true,
                },
            decreases n - k,
        {
            let p = self.vertices[k];
            let v = if k + 1 < n {
                self.vertices[k + 1]
            } else {
                self.vertices[0]
            };
            let pin = other.contains(p);
            let vin = other.contains(v);
            if pin && vin {
                acc.push(ArcVertex { point: p, sagitta: 0 });
            } else if pin && !vin {
                acc.push(ArcVertex { point: p, sagitta: 0 });
                let e = match circle.intersect(&Line(p, v)) {
                    Some((_, q1)) => q1,
                    None => p,
                };
                pend = Some(e);
            } else if !pin && vin {
                let e = match circle.intersect(&Line(p, v)) {
                    Some((q0, _)) => q0,
                    None => v,
                };
                match pend {
                    Some(le) => {
                        acc.push(ArcVertex { point: le, sagitta: gap_sag(other, le, e) });
                        acc.push(ArcVertex { point: e, sagitta: 0 });
                        pend = None;
                    },
                    None => {
                        acc.push(ArcVertex { point: e, sagitta: 0 });
                        if first.is_none() {
                            first = Some(e);
                        }
                    },
                }
            } else {
                match circle.intersect(&LineSegment(p, v)) {
                    Some((Some(q0), Some(q1))) => {
                        match pend {
                            Some(le) => {
                                acc.push(
                                    ArcVertex { point: le, sagitta: gap_sag(other, le, q0) },
                                );
                                acc.push(ArcVertex { point: q0, sagitta: 0 });
                                pend = Some(q1);
                            },
                            None => {
                                acc.push(ArcVertex { point: q0, sagitta: 0 });
                                pend = Some(q1);
                                if first.is_none() {
                                    first = Some(q0);
                                }
                            },
                        }
                    },
                    _ => {},
                }
            }
            proof {
                let st = dwalk(self.vertices@, *other, (k + 1) as int);
                assert(acc@ =~= st.0);
                assert(pend == st.1);
                assert(first == st.2);
            }
            k += 1;
        }
        // close the wrap-around gap on the disk boundary
        let ghost walked = dwalk(self.vertices@, *other, n as int);
        match (pend, first) {
            (Some(le), Some(fe)) => {
                acc.push(ArcVertex { point: le, sagitta: gap_sag(other, le, fe) });
            },
            _ => {},
        }
        proof {
            let closing = match (walked.1, walked.2) {
                (Some(le), Some(fe)) => seq![
                    ArcVertex { point: le, sagitta: gap_sag_spec(*other, le, fe) as i64 },
                ],
                _ => Seq::empty(),
            };
            assert(acc@ =~= walked.0 + closing);
        }
        // remove consecutive duplicate points
        let m = acc.len();
        let ghost full = acc@;
        let mut dd: Vec<ArcVertex> = Vec::new();
        let mut i: usize = 0;
        while i < m
            invariant
                full == acc@,
                m == full.len(),
                0 <= i <= m,
                dd@ == dedup_arc_upto(full, i as int),
                dd@.len() <= i,
                forall|j: int| 0 <= j < full.len() ==> (#[trigger] full[j]).wf(),
                forall|j: int| 0 <= j < dd@.len() ==> (#[trigger] dd@[j]).wf(),
            decreases m - i,
        {
            let succ = if i + 1 < m {
                acc[i + 1]
            } else {
                acc[0]
            };
            let cur = acc[i];
            if !(cur.point.x == succ.point.x && cur.point.y == succ.point.y) {
                dd.push(cur);
            }
            i += 1;
        }
        if dd.len() == 0 {
            proof {
                assert forall|i: int| 0 <= i < self.vertices@.len() implies (
                #[trigger] self.vertices@[i]).in_range(800_000_000) by {
                    assert(self.vertices@[i].wf());
                }
            }
            if n > 0 && crate::polygon::winding_of_points(&self.vertices, other.center) > 0 {
                let w = ArcPolygon::from_circle(&circle);
                proof {
                    let spec_w = disk_clip_spec(self.vertices@, *other);
                    assert(w.vertices@ =~= spec_w.unwrap());
                }
                Some(w)
            } else {
                None
            }
        } else {
            proof {
                lemma_dedup_arc_len(full, full.len() as int);
            }
            Some(Polygon::new(dd))
        }
    }
}

/// The deduplicated prefix is no longer than the prefix.
proof fn lemma_dedup_arc_len(s: Seq<ArcVertex>, i: int)
    requires
        0 <= i <= s.len(),
    ensures
        dedup_arc_upto(s, i).len() <= i,
    decreases i,
{
    if i > 0 {
        lemma_dedup_arc_len(s, i - 1);
    }
}

} // verus!
