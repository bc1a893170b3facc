//! The kernel's general laws, stated and proved over the same
//! specifications that the operations' contracts use.

use crate::arc::{seg_moment_spec, ArcVertex};
use crate::arcpoly::{dedup_arc_upto, disk_clip_spec, dwalk};
use crate::circle::{circle_winding_spec, Disk};
use crate::arcpoly::{arc_moment_spec, edge_seg, points_of, seg_moment_fold};
use crate::clip::{clip_emit, clip_plane_spec, clip_upto, dedup_upto, prv};
use crate::moment::{Moment, AREA_LIMIT};
use crate::line::{near_point_spec, param_in01, seg_seg_spec, LineSegment};
use crate::num::{absi, rdiv, EPS2, SCALE};
use crate::vec2::{dvec, tcross};
use crate::plane::{side_of, HalfPlane};
use crate::polygon::{nxt, poly_moment_spec};
use crate::vec2::Vec2;
use vstd::prelude::*;

verus! {

/// Merging moments is commutative: the summed area and the area-weighted
/// centroid do not depend on the order of the operands.
pub proof fn lemma_merge_commutative(a: Moment, b: Moment)
    ensures
        a.merge_spec(b) == b.merge_spec(a),
{
}

/// The sum of the areas of the first `i` edge segments of an arc polygon.
pub open spec fn seg_area_sum(s: Seq<crate::arc::ArcVertex>, i: int) -> int
    decreases i,
{
    if i <= 0 {
        0
    } else {
        seg_area_sum(s, i - 1) + seg_moment_spec(edge_seg(s, i - 1)).area
    }
}

/// A rounded quotient of a nonnegative dividend is nonnegative.
proof fn lemma_rdiv_nonneg(n: int, d: int)
    requires
        n >= 0,
        d >= 1,
    ensures
        rdiv(n, d) >= 0,
{
    crate::num::lemma_rdiv_err(n, d);
    let q = rdiv(n, d);
    if q < 0 {
        assert(q * d <= -d) by (nonlinear_arith)
            requires
                q <= -1,
                d >= 1,
        ;
        assert(false);
    }
}

/// Every disk segment's specified area is nonnegative.
proof fn lemma_seg_area_nonneg(s: Seq<crate::arc::ArcVertex>, i: int)
    ensures
        seg_moment_spec(edge_seg(s, i)).area >= 0,
{
}

/// Prefix sums of segment areas are nonnegative.
proof fn lemma_seg_area_sum_nonneg(s: Seq<crate::arc::ArcVertex>, j: int)
    ensures
        0 <= seg_area_sum(s, j),
    decreases j,
{
    if j > 0 {
        lemma_seg_area_sum_nonneg(s, j - 1);
        lemma_seg_area_nonneg(s, j - 1);
    }
}

/// Prefix sums of segment areas are monotone in the prefix length.
proof fn lemma_seg_area_sum_mono(s: Seq<crate::arc::ArcVertex>, i: int, j: int)
    requires
        0 <= i <= j,
    ensures
        seg_area_sum(s, i) <= seg_area_sum(s, j),
    decreases j,
{
    if i < j {
        lemma_seg_area_sum_mono(s, i, j - 1);
        lemma_seg_area_nonneg(s, j - 1);
    }
}

/// Moment additivity of the arc-polygon decomposition: as long as the
/// total stays within the representable area range, the arc polygon's
/// area is exactly the chord polygon's area plus the sum of its edge
/// segments' areas.  The centroid is the area-weighted combination of the
/// same parts by the construction of `Moment::merge_spec`.
pub proof fn lemma_arc_moment_area_additive(s: Seq<crate::arc::ArcVertex>)
    requires
        poly_moment_spec(points_of(s)).area + seg_area_sum(s, s.len() as int) <= AREA_LIMIT,
        s.len() <= crate::polygon::MAX_VERTICES,
        forall|i: int| 0 <= i < s.len() ==> (#[trigger] s[i]).wf(),
    ensures
        arc_moment_spec(s).area == poly_moment_spec(points_of(s)).area + seg_area_sum(
            s,
            s.len() as int,
        ),
{
    assert forall|i: int| 0 <= i < points_of(s).len() implies (#[trigger] points_of(s)[i]).in_range(
        800_000_000,
    ) by {
        assert(points_of(s)[i] == s[i].point);
        assert(s[i].wf());
    }
    lemma_poly_area_nonneg(points_of(s));
    lemma_fold_area(s, poly_moment_spec(points_of(s)), s.len() as int, s.len() as int);
}

/// The shoelace sum of an in-range prefix is bounded.
proof fn lemma_shoelace_sum_bound(s: Seq<Vec2>, i: int)
    requires
        0 <= i <= s.len(),
        forall|k: int| 0 <= k < s.len() ==> (#[trigger] s[k]).in_range(800_000_000),
    ensures
        -1_300_000_000_000_000_000 * i <= crate::polygon::shoelace_sum(s, i)
            <= 1_300_000_000_000_000_000 * i,
    decreases i,
{
    if i > 0 {
        lemma_shoelace_sum_bound(s, i - 1);
        let a = s[i - 1];
        let b = nxt(s, i - 1);
        crate::num::lemma_mul_abs_le(a.x as int, b.y as int, 800_000_000, 800_000_000);
        crate::num::lemma_mul_abs_le(a.y as int, b.x as int, 800_000_000, 800_000_000);
    }
}

/// A straight polygon of in-range vertices has a nonnegative specified
/// area.
pub proof fn lemma_poly_area_nonneg(s: Seq<Vec2>)
    requires
        s.len() <= crate::polygon::MAX_VERTICES,
        forall|k: int| 0 <= k < s.len() ==> (#[trigger] s[k]).in_range(800_000_000),
    ensures
        poly_moment_spec(s).area >= 0,
{
    let n = s.len() as int;
    lemma_shoelace_sum_bound(s, n);
    let a2 = absi(crate::polygon::shoelace_sum(s, n));
    lemma_rdiv_nonneg(a2, 2 * SCALE);
    assert(1_300_000_000_000_000_000int * n <= 1_300_000_000_000_000_000_000_000int)
        by (nonlinear_arith)
        requires
            0 <= n <= 1_000_000,
    ;
    crate::num::lemma_rdiv_abs_le(a2, 2 * SCALE, 650_000_000_000_000_000);
    assert(650_000_000_000_000_000int * (2 * SCALE as int)
        == 1_300_000_000_000_000_000_000_000int) by (nonlinear_arith);
}

/// The fold of segment merges adds areas exactly while the running total
/// stays in range; a vanished total is reported as zero.
proof fn lemma_fold_area(s: Seq<crate::arc::ArcVertex>, base: Moment, i: int, n: int)
    requires
        0 <= i <= n,
        base.area >= 0,
        base.area + seg_area_sum(s, n) <= AREA_LIMIT,
    ensures
        seg_moment_fold(s, base, i).area == base.area + seg_area_sum(s, i),
    decreases i,
{
    lemma_seg_area_sum_nonneg(s, i);
    if i > 0 {
        lemma_fold_area(s, base, i - 1, n);
        lemma_seg_area_nonneg(s, i - 1);
        lemma_seg_area_sum_nonneg(s, i - 1);
        lemma_seg_area_sum_mono(s, i, n);
        let prev = seg_moment_fold(s, base, i - 1);
        let m = seg_moment_spec(edge_seg(s, i - 1));
        assert(prev.area + m.area <= AREA_LIMIT);
        assert(prev.area + m.area >= 0);
    }
}

/// Idempotence of half-plane clipping: a polygon whose vertices all lie
/// inside the half-plane, with no repeated consecutive vertices, is
/// returned unchanged.
pub proof fn lemma_clip_inside_identity(s: Seq<Vec2>, hp: HalfPlane)
    requires
        s.len() >= 1,
        forall|i: int| 0 <= i < s.len() ==> side_of(hp, #[trigger] s[i]) <= 0,
        forall|i: int| 0 <= i < s.len() ==> #[trigger] s[i] != nxt(s, i),
    ensures
        clip_plane_spec(s, hp) == Some(s),
{
    lemma_clip_inside_upto(s, hp, s.len() as int);
    let c = clip_upto(s, hp, s.len() as int);
    assert(c =~= s);
    lemma_dedup_distinct(s, s.len() as int);
    let d = dedup_upto(s, s.len() as int);
    assert(d =~= s);
}

/// With every vertex inside, the clip walk emits exactly the vertices.
proof fn lemma_clip_inside_upto(s: Seq<Vec2>, hp: HalfPlane, k: int)
    requires
        0 <= k <= s.len(),
        s.len() >= 1,
        forall|i: int| 0 <= i < s.len() ==> side_of(hp, #[trigger] s[i]) <= 0,
    ensures
        clip_upto(s, hp, k) =~= s.subrange(0, k),
    decreases k,
{
    if k > 0 {
        lemma_clip_inside_upto(s, hp, k - 1);
        assert(side_of(hp, prv(s, k - 1)) <= 0);
        assert(clip_emit(s, hp, k - 1) =~= seq![s[k - 1]]);
        assert(clip_upto(s, hp, k) =~= s.subrange(0, k));
    }
}

/// Deduplication keeps every vertex of a sequence with no repeated
/// consecutive vertices.
proof fn lemma_dedup_distinct(s: Seq<Vec2>, i: int)
    requires
        0 <= i <= s.len(),
        forall|k: int| 0 <= k < s.len() ==> #[trigger] s[k] != nxt(s, k),
    ensures
        dedup_upto(s, i) =~= s.subrange(0, i),
    decreases i,
{
    if i > 0 {
        lemma_dedup_distinct(s, i - 1);
    }
}


/// Symmetry of segment intersection for transversal segments: when the
/// two directions are not parallel within tolerance, intersecting in
/// either order reports the same presence, and the two reported points
/// agree to within one raw unit per coordinate.  Collinear overlapping
/// segments are excluded: there each order may report a different
/// representative of the shared stretch.
pub proof fn lemma_seg_seg_symmetric(s: LineSegment, o: LineSegment)
    requires
        absi(tcross(dvec(s.0, s.1), dvec(o.0, o.1))) > EPS2 as int,
    ensures
        seg_seg_spec(s, o) is Some <==> seg_seg_spec(o, s) is Some,
        match (seg_seg_spec(s, o), seg_seg_spec(o, s)) {
            (Some(p), Some(q)) => absi(p.0 - q.0) <= 1 && absi(p.1 - q.1) <= 1,
            _ => true,
        },
{
    let r = dvec(s.0, s.1);
    let q = dvec(o.0, o.1);
    let pq = dvec(s.0, o.0);
    let den = tcross(r, q);
    let pqr = tcross(pq, r);
    let pqs = tcross(pq, q);
    // the reversed operands see the negated displacement and swapped roles
    assert(dvec(o.0, s.0) == (-pq.0, -pq.1));
    assert(tcross(q, r) == -den) by (nonlinear_arith)
        requires
            den == tcross(r, q),
            tcross(q, r) == q.0 * r.1 - q.1 * r.0,
            den == r.0 * q.1 - r.1 * q.0,
    ;
    assert(tcross((-pq.0, -pq.1), q) == -pqs) by (nonlinear_arith)
        requires
            pqs == pq.0 * q.1 - pq.1 * q.0,
            tcross((-pq.0, -pq.1), q) == (-pq.0) * q.1 - (-pq.1) * q.0,
    ;
    assert(tcross((-pq.0, -pq.1), r) == -pqr) by (nonlinear_arith)
        requires
            pqr == pq.0 * r.1 - pq.1 * r.0,
            tcross((-pq.0, -pq.1), r) == (-pq.0) * r.1 - (-pq.1) * r.0,
    ;
    let dd = absi(den);
    let nu = if den > 0 { pqs } else { -pqs };
    let nv = if den > 0 { pqr } else { -pqr };
    // both orders test the same two parameter conditions
    assert(seg_seg_spec(s, o) is Some <==> param_in01(nu, dd) && param_in01(nv, dd));
    assert(seg_seg_spec(o, s) is Some <==> param_in01(nv, dd) && param_in01(nu, dd));
    if param_in01(nu, dd) && param_in01(nv, dd) {
        let p = near_point_spec(s.0, s.1, nu, dd);
        let w = near_point_spec(o.0, o.1, nv, dd);
        assert(seg_seg_spec(s, o) == Some(p));
        assert(seg_seg_spec(o, s) == Some(w));
        // Cramer identity: the two rational crossing points coincide
        assert(r.0 * pqs - q.0 * pqr == den * pq.0) by (nonlinear_arith)
            requires
                den == r.0 * q.1 - r.1 * q.0,
                pqs == pq.0 * q.1 - pq.1 * q.0,
                pqr == pq.0 * r.1 - pq.1 * r.0,
        ;
        assert(r.1 * pqs - q.1 * pqr == den * pq.1) by (nonlinear_arith)
            requires
                den == r.0 * q.1 - r.1 * q.0,
                pqs == pq.0 * q.1 - pq.1 * q.0,
                pqr == pq.0 * r.1 - pq.1 * r.0,
        ;
        // with the sign normalized the shared denominator is dd
        assert(r.0 * nu - q.0 * nv == dd * pq.0) by (nonlinear_arith)
            requires
                (den > 0 ==> nu == pqs && nv == pqr && dd == den),
                (den <= 0 ==> nu == -pqs && nv == -pqr && dd == -den),
                r.0 * pqs - q.0 * pqr == den * pq.0,
        ;
        assert(r.1 * nu - q.1 * nv == dd * pq.1) by (nonlinear_arith)
            requires
                (den > 0 ==> nu == pqs && nv == pqr && dd == den),
                (den <= 0 ==> nu == -pqs && nv == -pqr && dd == -den),
                r.1 * pqs - q.1 * pqr == den * pq.1,
        ;
        lemma_rounded_shift(s.0.x as int, o.0.x as int, r.0 * nu, q.0 * nv, dd);
        lemma_rounded_shift(s.0.y as int, o.0.y as int, r.1 * nu, q.1 * nv, dd);
    }
}

/// Two coordinates built from one exact rational by rounding on either
/// side differ by at most one raw unit.
proof fn lemma_rounded_shift(ax: int, bx: int, na: int, nb: int, d: int)
    requires
        d >= 1,
        na - nb == d * (bx - ax),
    ensures
        absi((ax + rdiv(na, d)) - (bx + rdiv(nb, d))) <= 1,
{
    crate::num::lemma_rdiv_err(na, d);
    crate::num::lemma_rdiv_err(nb, d);
    let qa = rdiv(na, d);
    let qb = rdiv(nb, d);
    let delta = (ax + qa) - (bx + qb);
    assert(delta * d == qa * d - qb * d + (ax - bx) * d) by (nonlinear_arith)
        requires
            delta == ax + qa - bx - qb,
    ;
    assert((ax - bx) * d == nb - na) by (nonlinear_arith)
        requires
            na - nb == d * (bx - ax),
    ;
    assert(2 * (delta * d) <= 2 * d && -(2 * d) <= 2 * (delta * d));
    if delta >= 2 {
        assert(delta * d >= 2 * d) by (nonlinear_arith)
            requires
                delta >= 2,
                d >= 1,
        ;
        assert(false);
    }
    if delta <= -2 {
        assert(delta * d <= -(2 * d)) by (nonlinear_arith)
            requires
                delta <= -2,
                d >= 1,
        ;
        assert(false);
    }
}


/// Round trip of the boundary-edge construction: rebuilding a half-plane
/// from its own boundary edge reproduces the normal to within a few raw
/// units and the offset to within the normal's deviation from unit
/// length.  The half-plane's boundary must lie within the clip range and
/// its normal must be unit-scaled to within rounding.
pub proof fn lemma_from_edge_round_trip(hp: HalfPlane)
    requires
        hp.wf(),
        -500_000_000 <= hp.offset <= 500_000_000,
        1_000_000 * 1_000_000 - 2_000_000 <= crate::vec2::len2_of(hp.normal),
        crate::vec2::len2_of(hp.normal) <= 1_000_000 * 1_000_000 + 3_000_000,
    ensures
        absi(crate::plane::from_edge_spec(crate::plane::edge_of(hp)).normal.x - hp.normal.x) <= 3,
        absi(crate::plane::from_edge_spec(crate::plane::edge_of(hp)).normal.y - hp.normal.y) <= 3,
{
    let n = hp.normal;
    let e = crate::plane::edge_of(hp);
    crate::num::lemma_mul_abs_le(n.x as int, hp.offset as int, 2_000_000, 500_000_000);
    crate::num::lemma_mul_abs_le(n.y as int, hp.offset as int, 2_000_000, 500_000_000);
    crate::num::lemma_rdiv_abs_le(n.x * hp.offset, SCALE as int, 1_000_000_000);
    crate::num::lemma_rdiv_abs_le(n.y * hp.offset, SCALE as int, 1_000_000_000);
    assert(1_000_000_000int * (SCALE as int) == 2_000_000int * 500_000_000int)
        by (nonlinear_arith);
    // the edge direction is exactly the left perpendicular of the normal
    assert(dvec(e.0, e.1) == (-(n.y as int), n.x as int));
    let v = dvec(e.0, e.1);
    let l2 = crate::plane::tlen2(v);
    assert(l2 == n.y * n.y + n.x * n.x) by (nonlinear_arith)
        requires
            v == (-(n.y as int), n.x as int),
            l2 == v.0 * v.0 + v.1 * v.1,
    ;
    assert(l2 == crate::vec2::len2_of(n));
    let len = crate::num::sqrt_of(l2);
    // the edge length is the normal's length: within two units of SCALE
    assert((1_000_000 - 2) * (1_000_000 - 2) <= 1_000_000 * 1_000_000 - 2_000_000)
        by (nonlinear_arith);
    assert(1_000_000 * 1_000_000 + 3_000_000 < (1_000_000 + 2) * (1_000_000 + 2))
        by (nonlinear_arith);
    crate::num::lemma_sqrt_of(l2);
    crate::num::lemma_sqrt_le(l2, 1_000_002int);
    if len < 1_000_000 - 2 {
        crate::num::lemma_sqrt_mono((1_000_000 - 2) * (1_000_000 - 2), l2);
        crate::num::lemma_sqrt_square(1_000_000 - 2);
        assert(false);
    }
    // each rebuilt normal component is the old one to within three units
    let nx2 = rdiv(v.1 * SCALE, len);
    let ny2 = rdiv(-v.0 * SCALE, len);
    assert(v.1 == n.x && -v.0 == n.y);
    assert(n.x * n.x >= 0) by (nonlinear_arith);
    assert(n.y * n.y >= 0) by (nonlinear_arith);
    crate::num::lemma_sqrt_square(n.x as int);
    crate::num::lemma_sqrt_square(n.y as int);
    crate::num::lemma_sqrt_mono(n.x * n.x, l2);
    crate::num::lemma_sqrt_mono(n.y * n.y, l2);
    lemma_normalize_near(n.x as int, len);
    lemma_normalize_near(n.y as int, len);
    assert(nx2 == rdiv(n.x * SCALE, len));
    assert(ny2 == rdiv(n.y * SCALE, len));
    let hp2 = crate::plane::from_edge_spec(e);
    assert(hp2.normal.x == nx2 as i64 && hp2.normal.y == ny2 as i64);
}

/// Normalizing a component of a near-unit vector moves it by at most
/// three raw units.
proof fn lemma_normalize_near(c: int, len: int)
    requires
        1_000_000 - 2 <= len <= 1_000_000 + 2,
        -(1_000_000 + 2) <= c <= 1_000_000 + 2,
    ensures
        absi(rdiv(c * SCALE, len) - c) <= 3,
{
    crate::num::lemma_rdiv_err(c * SCALE, len);
    let q = rdiv(c * SCALE, len);
    let delta = q - c;
    // 2 |q len - c SCALE| <= len, and |c| |SCALE - len| <= 2 (SCALE + 2)
    assert(2 * (q * len) - 2 * (c * SCALE) <= len && -(len) <= 2 * (q * len) - 2 * (c * SCALE));
    assert(2 * (q * len) == 2 * (delta * len) + 2 * (c * len)) by (nonlinear_arith)
        requires
            q == delta + c,
    ;
    assert(-(2 * (1_000_000 + 2)) <= c * (SCALE - len) <= 2 * (1_000_000 + 2))
        by (nonlinear_arith)
        requires
            -(1_000_000 + 2) <= c <= 1_000_000 + 2,
            -2 <= SCALE - len <= 2,
    ;
    assert(2 * (c * SCALE) - 2 * (c * len) == 2 * (c * (SCALE - len))) by (nonlinear_arith);
    // so 2 |delta| len <= len + 4 (SCALE + 2), hence |delta| <= 3
    if delta >= 4 {
        assert(2 * (delta * len) >= 8 * len) by (nonlinear_arith)
            requires
                delta >= 4,
                len >= 1,
        ;
        assert(false);
    }
    if delta <= -4 {
        assert(2 * (delta * len) <= -(8 * len)) by (nonlinear_arith)
            requires
                delta <= -4,
                len >= 1,
        ;
        assert(false);
    }
}


/// Idempotence of disk clipping: a polygon whose vertices all lie inside
/// the disk, with no repeated consecutive vertices, comes back as the
/// same boundary with straight (zero-sagitta) arc edges.
pub proof fn lemma_disk_clip_inside(s: Seq<Vec2>, d: Disk)
    requires
        s.len() >= 1,
        forall|i: int|
            0 <= i < s.len() ==> circle_winding_spec(d.center, d.radius as int, #[trigger] s[i])
                > 0,
        forall|i: int| 0 <= i < s.len() ==> #[trigger] s[i] != nxt(s, i),
    ensures
        disk_clip_spec(s, d) == Some(
            s.map_values(|p: Vec2| ArcVertex { point: p, sagitta: 0 }),
        ),
{
    let m = s.map_values(|p: Vec2| ArcVertex { point: p, sagitta: 0 });
    lemma_dwalk_inside(s, d, s.len() as int);
    let st = dwalk(s, d, s.len() as int);
    assert(st.0 =~= m);
    assert(st.0 + Seq::<ArcVertex>::empty() =~= m);
    assert forall|k: int| 0 <= k < m.len() implies #[trigger] m[k].point != crate::polygon::nxt(
        m,
        k,
    ).point by {
        assert(m[k].point == s[k]);
        assert(crate::polygon::nxt(m, k) == if k + 1 < m.len() {
            m[k + 1]
        } else {
            m[0]
        });
        assert(crate::polygon::nxt(m, k).point == nxt(s, k));
    }
    lemma_dedup_arc_distinct(m, m.len() as int);
    assert(dedup_arc_upto(m, m.len() as int) =~= m);
}

/// With every vertex inside the disk, the clip walk emits each vertex as
/// a straight arc vertex and carries no pending boundary state.
proof fn lemma_dwalk_inside(s: Seq<Vec2>, d: Disk, k: int)
    requires
        0 <= k <= s.len(),
        s.len() >= 1,
        forall|i: int|
            0 <= i < s.len() ==> circle_winding_spec(d.center, d.radius as int, #[trigger] s[i])
                > 0,
    ensures
        dwalk(s, d, k).0 =~= s.subrange(0, k).map_values(
            |p: Vec2| ArcVertex { point: p, sagitta: 0 },
        ),
        dwalk(s, d, k).1 is None,
        dwalk(s, d, k).2 is None,
    decreases k,
{
    if k > 0 {
        lemma_dwalk_inside(s, d, k - 1);
        assert(circle_winding_spec(d.center, d.radius as int, s[k - 1]) > 0);
        assert(circle_winding_spec(d.center, d.radius as int, nxt(s, k - 1)) > 0);
        assert(dwalk(s, d, k).0 =~= dwalk(s, d, k - 1).0 + seq![
            ArcVertex { point: s[k - 1], sagitta: 0 },
        ]);
    }
}

/// Deduplication keeps every vertex of an arc-vertex sequence with no
/// repeated consecutive points.
proof fn lemma_dedup_arc_distinct(s: Seq<ArcVertex>, i: int)
    requires
        0 <= i <= s.len(),
        forall|k: int|
            0 <= k < s.len() ==> #[trigger] s[k].point != crate::polygon::nxt(s, k).point,
    ensures
        dedup_arc_upto(s, i) =~= s.subrange(0, i),
    decreases i,
{
    if i > 0 {
        lemma_dedup_arc_distinct(s, i - 1);
    }
}

} // verus!
