//! Polygon clipping: Sutherland–Hodgman against a half-plane, and against
//! another polygon by folding over that polygon's edge half-planes.

use crate::line::{seg_line_spec, Line, LineSegment};
use crate::num::{absi, clampr, maxi, mini, rdiv, SCALE};
use crate::plane::{edge_of, from_edge_spec, side_of, HalfPlane};
use crate::polygon::{nxt, Polygon};
use crate::vec2::Vec2;
use crate::{Intersect, IntersectTo};
use vstd::prelude::*;

verus! {

/// Largest number of input vertices a single clip accepts: half the
/// polygon capacity, since a clip emits at most two vertices per edge.
pub const CLIP_VERTICES: usize = 500_000;

/// Largest half-plane offset accepted for clipping: the boundary edge of
/// such a half-plane is itself a well-formed line.
pub const CLIP_OFFSET: i64 = 500_000_000;

/// The vertex before index `k` in cyclic order.
pub open spec fn prv<T>(s: Seq<T>, k: int) -> T {
    if k == 0 {
        s[s.len() - 1]
    } else {
        s[k - 1]
    }
}

/// The point where the directed edge `(prev, v)` meets the half-plane's
/// boundary: the segment-line intersection, clamped into the edge's
/// bounding box; where that intersection is degenerate, the endpoint
/// nearer the boundary.
pub open spec fn clip_point_spec(prev: Vec2, v: Vec2, hp: HalfPlane) -> Vec2 {
    match seg_line_spec(LineSegment(prev, v), edge_of(hp)) {
        Some(q) => Vec2 {
            x: clampr(q.0, mini(prev.x as int, v.x as int), maxi(prev.x as int, v.x as int)) as i64,
            y: clampr(q.1, mini(prev.y as int, v.y as int), maxi(prev.y as int, v.y as int)) as i64,
        },
        None => if absi(side_of(hp, prev)) <= absi(side_of(hp, v)) {
            prev
        } else {
            v
        },
    }
}

/// What the edge ending at vertex `k` emits into the clipped boundary.
pub open spec fn clip_emit(s: Seq<Vec2>, hp: HalfPlane, k: int) -> Seq<Vec2> {
    let p = prv(s, k);
    let v = s[k];
    let pin = side_of(hp, p) <= 0;
    let vin = side_of(hp, v) <= 0;
    if pin && vin {
        seq![v]
    } else if pin && !vin {
        seq![clip_point_spec(p, v, hp)]
    } else if !pin && vin {
        seq![clip_point_spec(p, v, hp), v]
    } else {
        Seq::empty()
    }
}

/// The emissions of the first `k` edges, concatenated.
pub open spec fn clip_upto(s: Seq<Vec2>, hp: HalfPlane, k: int) -> Seq<Vec2>
    decreases k,
{
    if k <= 0 {
        Seq::empty()
    } else {
        clip_upto(s, hp, k - 1) + clip_emit(s, hp, k - 1)
    }
}

/// The first `i` vertices with consecutive duplicates removed: a vertex is
/// kept when it differs from its cyclic successor.
pub open spec fn dedup_upto(s: Seq<Vec2>, i: int) -> Seq<Vec2>
    decreases i,
{
    if i <= 0 {
        Seq::empty()
    } else {
        dedup_upto(s, i - 1) + if s[i - 1] != nxt(s, i - 1) {
            seq![s[i - 1]]
        } else {
            Seq::empty()
        }
    }
}

/// What clipping a polygon against a half-plane returns: the walk's
/// emissions, deduplicated; absent when nothing remains inside.
pub open spec fn clip_plane_spec(s: Seq<Vec2>, hp: HalfPlane) -> Option<Seq<Vec2>> {
    let c = clip_upto(s, hp, s.len() as int);
    let d = dedup_upto(c, c.len() as int);
    if d.len() == 0 {
        None
    } else {
        Some(d)
    }
}

/// What clipping a polygon against the first `k` edge half-planes of a
/// convex polygon returns.  Degenerate edges are skipped; a step whose
/// input exceeds the clip capacity reports no intersection.
pub open spec fn clip_fold_spec(s: Seq<Vec2>, o: Seq<Vec2>, k: int) -> Option<Seq<Vec2>>
    decreases k,
{
    if k <= 0 {
        Some(s)
    } else {
        match clip_fold_spec(s, o, k - 1) {
            None => None,
            Some(cur) => if o[k - 1] == nxt(o, k - 1) {
                Some(cur)
            } else if cur.len() > CLIP_VERTICES {
                None
            } else {
                clip_plane_spec(cur, from_edge_spec(Line(o[k - 1], nxt(o, k - 1))))
            },
        }
    }
}

/// All points of a sequence are within `b` raw units of zero.
pub open spec fn all_in_range(s: Seq<Vec2>, b: int) -> bool {
    forall|i: int| 0 <= i < s.len() ==> (#[trigger] s[i]).in_range(b)
}

/// Clip a vertex list against a half-plane: the Sutherland–Hodgman walk.
fn clip_plane_vec(verts: &Vec<Vec2>, plane: &HalfPlane) -> (r: Option<Vec<Vec2>>)
    requires
        plane.wf(),
        -CLIP_OFFSET <= plane.offset <= CLIP_OFFSET,
        verts@.len() <= CLIP_VERTICES,
        all_in_range(verts@, crate::num::COORD_LIMIT as int),
    ensures
        match r {
            None => clip_plane_spec(verts@, *plane) is None,
            Some(out) => {
                &&& clip_plane_spec(verts@, *plane) == Some(out@)
                &&& out@.len() <= 2 * verts@.len()
                &&& all_in_range(out@, crate::num::COORD_LIMIT as int)
            },
        },
{
    let n = verts.len();
    let ghost s = verts@;
    if n == 0 {
        return None;
    }
    proof {
        lemma_edge_in_line_range(*plane);
    }
    let edge = plane.edge();
    let mut out: Vec<Vec2> = Vec::new();
    let mut prev = verts[n - 1];
    let mut prev_in = plane.side(prev) <= 0;
    let mut k: usize = 0;
    while k < n
        invariant
            s == verts@,
            n == s.len(),
            1 <= n <= CLIP_VERTICES,
            0 <= k <= n,
            all_in_range(s, crate::num::COORD_LIMIT as int),
            plane.wf(),
            -CLIP_OFFSET <= plane.offset <= CLIP_OFFSET,
            edge == edge_of(*plane),
            edge.wf(),
            prev == prv(s, k as int),
            prev_in == (side_of(*plane, prv(s, k as int)) <= 0),
            out@ == clip_upto(s, *plane, k as int),
            out@.len() <= 2 * k,
            all_in_range(out@, crate::num::COORD_LIMIT as int),
        decreases n - k,
    {
        let v = verts[k];
        let vin = plane.side(v) <= 0;
        if prev_in && vin {
            out.push(v);
        } else if prev_in && !vin {
            out.push(clip_point(prev, v, plane, &edge));
        } else if !prev_in && vin {
            out.push(clip_point(prev, v, plane, &edge));
            out.push(v);
        }
        proof {
            assert(out@ == clip_upto(s, *plane, k + 1 as int));
        }
        prev = v;
        prev_in = vin;
        k += 1;
    }
    // remove consecutive duplicates, including across the wrap-around
    let m = out.len();
    let mut dd: Vec<Vec2> = Vec::new();
    let ghost c = out@;
    let mut i: usize = 0;
    while i < m
        invariant
            c == out@,
            m == c.len(),
            0 <= i <= m,
            dd@ == dedup_upto(c, i as int),
            dd@.len() <= i,
            all_in_range(c, crate::num::COORD_LIMIT as int),
            all_in_range(dd@, crate::num::COORD_LIMIT as int),
        decreases m - i,
    {
        let succ = if i + 1 < m {
            out[i + 1]
        } else {
            out[0]
        };
        let cur = out[i];
        if !(cur.x == succ.x && cur.y == succ.y) {
            dd.push(cur);
        }
        i += 1;
    }
    if dd.len() == 0 {
        None
    } else {
        proof {
            lemma_dedup_len(c, c.len() as int);
        }
        Some(dd)
    }
}

/// The deduplicated prefix is no longer than the prefix.
proof fn lemma_dedup_len(s: Seq<Vec2>, i: int)
    requires
        0 <= i <= s.len(),
    ensures
        dedup_upto(s, i).len() <= i,
    decreases i,
{
    if i > 0 {
        lemma_dedup_len(s, i - 1);
    }
}

/// The boundary edge of a half-plane with a clip-range offset is a
/// well-formed line.
proof fn lemma_edge_in_line_range(hp: HalfPlane)
    requires
        hp.wf(),
        -CLIP_OFFSET <= hp.offset <= CLIP_OFFSET,
    ensures
        edge_of(hp).wf(),
        edge_of(hp).0.in_range(1_000_000_000),
{
    crate::num::lemma_mul_abs_le(
        hp.normal.x as int,
        hp.offset as int,
        2_000_000,
        CLIP_OFFSET as int,
    );
    crate::num::lemma_mul_abs_le(
        hp.normal.y as int,
        hp.offset as int,
        2_000_000,
        CLIP_OFFSET as int,
    );
    crate::num::lemma_rdiv_abs_le(hp.normal.x * hp.offset, SCALE as int, 1_000_000_000);
    crate::num::lemma_rdiv_abs_le(hp.normal.y * hp.offset, SCALE as int, 1_000_000_000);
    assert(1_000_000_000int * (SCALE as int) == 2_000_000int * (CLIP_OFFSET as int))
        by (nonlinear_arith);
}

/// One boundary crossing of the clip walk.
fn clip_point(prev: Vec2, v: Vec2, plane: &HalfPlane, edge: &Line) -> (r: Vec2)
    requires
        prev.wf(),
        v.wf(),
        plane.wf(),
        *edge == edge_of(*plane),
        edge.wf(),
    ensures
        r == clip_point_spec(prev, v, *plane),
        r.wf(),
{
    let seg = LineSegment(prev, v);
    match seg.intersect(edge) {
        Some(q) => {
            let lox = if prev.x < v.x {
                prev.x
            } else {
                v.x
            };
            let hix = if prev.x < v.x {
                v.x
            } else {
                prev.x
            };
            let loy = if prev.y < v.y {
                prev.y
            } else {
                v.y
            };
            let hiy = if prev.y < v.y {
                v.y
            } else {
                prev.y
            };
            let x = if q.x < lox {
                lox
            } else if q.x > hix {
                hix
            } else {
                q.x
            };
            let y = if q.y < loy {
                loy
            } else if q.y > hiy {
                hiy
            } else {
                q.y
            };
            Vec2 { x, y }
        },
        None => {
            let sp = plane.side(prev);
            let sv = plane.side(v);
            let ap = if sp < 0 {
                -sp
            } else {
                sp
            };
            let av = if sv < 0 {
                -sv
            } else {
                sv
            };
            if ap <= av {
                prev
            } else {
                v
            }
        },
    }
}

impl IntersectTo<HalfPlane, Polygon<Vec2>> for Polygon<Vec2> {
    open spec fn compatible_to(&self, other: &HalfPlane) -> bool {
        &&& self.wf()
        &&& self.vertices@.len() <= CLIP_VERTICES
        &&& other.wf()
        &&& -CLIP_OFFSET <= other.offset <= CLIP_OFFSET
    }

    /// Clip the polygon against the half-plane by the Sutherland–Hodgman
    /// walk: inside vertices are kept, boundary crossings are inserted,
    /// and consecutive duplicates are removed; nothing remains when the
    /// polygon lies outside.
    fn intersect_to(&self, other: &HalfPlane) -> (r: Option<Polygon<Vec2>>)
        ensures
            match r {
                None => clip_plane_spec(self.vertices@, *other) is None,
                Some(p) => {
                    &&& clip_plane_spec(self.vertices@, *other) == Some(p.vertices@)
                    &&& p.wf()
                    &&& p.vertices@.len() <= 2 * self.vertices@.len()
                },
            },
    {
        match clip_plane_vec(&self.vertices, other) {
            None => None,
            Some(out) => Some(Polygon::new(out)),
        }
    }
}

impl IntersectTo<Polygon<Vec2>, Polygon<Vec2>> for HalfPlane {
    open spec fn compatible_to(&self, other: &Polygon<Vec2>) -> bool {
        &&& other.wf()
        &&& other.vertices@.len() <= CLIP_VERTICES
        &&& self.wf()
        &&& -CLIP_OFFSET <= self.offset <= CLIP_OFFSET
    }

    /// Delegates to the polygon-against-half-plane walk.
    fn intersect_to(&self, other: &Polygon<Vec2>) -> (r: Option<Polygon<Vec2>>)
        ensures
            match r {
                None => clip_plane_spec(other.vertices@, *self) is None,
                Some(p) => {
                    &&& clip_plane_spec(other.vertices@, *self) == Some(p.vertices@)
                    &&& p.wf()
                },
            },
    {
        other.intersect_to(self)
    }
}

impl IntersectTo<Polygon<Vec2>, Polygon<Vec2>> for Polygon<Vec2> {
    open spec fn compatible_to(&self, other: &Polygon<Vec2>) -> bool {
        &&& self.wf()
        &&& self.vertices@.len() <= CLIP_VERTICES
        &&& other.wf()
    }

    /// Sutherland–Hodgman clipping of this polygon against every edge
    /// half-plane of the other (assumed convex) polygon, stopping as soon
    /// as a step empties the result.
    fn intersect_to(&self, other: &Polygon<Vec2>) -> (r: Option<Polygon<Vec2>>)
        ensures
            match r {
                None => clip_fold_spec(
                    self.vertices@,
                    other.vertices@,
                    other.vertices@.len() as int,
                ) is None,
                Some(p) => {
                    &&& clip_fold_spec(
                        self.vertices@,
                        other.vertices@,
                        other.vertices@.len() as int,
                    ) == Some(p.vertices@)
                    &&& p.wf()
                },
            },
    {
        let m = other.vertices.len();
        let mut cur: Vec<Vec2> = copy_points(&self.vertices);
        let mut k: usize = 0;
        while k < m
            invariant
                m == other.vertices@.len(),
                other.wf(),
                0 <= k <= m,
                clip_fold_spec(self.vertices@, other.vertices@, k as int) == Some(cur@),
                all_in_range(cur@, crate::num::COORD_LIMIT as int),
                cur@.len() <= 2 * (CLIP_VERTICES as int),
            decreases m - k,
        {
            let a = other.vertices[k];
            let b = if k + 1 < m {
                other.vertices[k + 1]
            } else {
                other.vertices[0]
            };
            if !(a.x == b.x && a.y == b.y) {
                if cur.len() > CLIP_VERTICES {
                    proof {
                        assert(clip_fold_spec(
                            self.vertices@,
                            other.vertices@,
                            k + 1 as int,
                        ) is None);
                        lemma_fold_none(self.vertices@, other.vertices@, k + 1 as int, m as int);
                    }
                    return None;
                }
                let line = Line(a, b);
                let plane = HalfPlane::from_edge(&line);
                match clip_plane_vec(&cur, &plane) {
                    None => {
                        proof {
                            lemma_fold_none(
                                self.vertices@,
                                other.vertices@,
                                k + 1 as int,
                                m as int,
                            );
                        }
                        return None;
                    },
                    Some(next) => {
                        cur = next;
                    },
                }
            }
            k += 1;
        }
        Some(Polygon::new(cur))
    }
}

/// A fresh copy of a vertex list.
fn copy_points(v: &Vec<Vec2>) -> (r: Vec<Vec2>)
    ensures
        r@ == v@,
{
    let mut r: Vec<Vec2> = Vec::new();
    let mut i: usize = 0;
    while i < v.len()
        invariant
            0 <= i <= v@.len(),
            r@ == v@.subrange(0, i as int),
        decreases v@.len() - i,
    {
        r.push(v[i]);
        proof {
            assert(r@ =~= v@.subrange(0, (i + 1) as int));
        }
        i += 1;
    }
    proof {
        assert(r@ =~= v@);
    }
    r
}

/// Once a fold step reports no intersection, the whole fold does.
proof fn lemma_fold_none(s: Seq<Vec2>, o: Seq<Vec2>, k: int, m: int)
    requires
        0 <= k <= m,
        clip_fold_spec(s, o, k) is None,
    ensures
        clip_fold_spec(s, o, m) is None,
    decreases m - k,
{
    if k < m {
        lemma_fold_none(s, o, k + 1, m);
    }
}

} // verus!
