//! Polygons: an ordered, cyclic sequence of vertices, the last connecting
//! back to the first.  Straight polygons carry bare points; arc polygons
//! carry points paired with the sagitta of the arc to the next vertex.

use crate::arc::ArcVertex;
use crate::line::LineSegment;
use crate::moment::Moment;
use crate::num::{absi, clampi, mini, maxi, rdiv, EPS, SCALE};
use crate::vec2::{dvec, tcross, Vec2};
use vstd::prelude::*;

verus! {

/// Largest number of vertices a well-formed polygon may carry.
pub const MAX_VERTICES: usize = 1_000_000;

/// A polygon defined by a cyclic sequence of vertices.
#[derive(Clone, Debug, PartialEq, Eq)]
pub struct Polygon<T> {
    /// The vertices, in boundary order.
    pub vertices: Vec<T>,
}

/// A polygon whose edges are circular arcs.
pub type ArcPolygon = Polygon<ArcVertex>;

impl<T> Polygon<T> {
    /// Create a polygon from a sequence of vertices.
    pub fn new(vertices: Vec<T>) -> (r: Self)
        ensures
            r.vertices@ == vertices@,
    {
        Polygon { vertices }
    }

    /// The vertices of the polygon, in boundary order.
    pub fn vertices(&self) -> (r: &Vec<T>)
        ensures
            r@ == self.vertices@,
    {
        &self.vertices
    }

    /// The polygon has no vertices.
    pub fn is_empty(&self) -> (r: bool)
        ensures
            r == (self.vertices@.len() == 0),
    {
        self.vertices.len() == 0
    }

    /// The number of vertices.
    pub fn len(&self) -> (r: usize)
        ensures
            r == self.vertices@.len(),
    {
        self.vertices.len()
    }
}

/// The vertex after index `i` in cyclic order.
pub open spec fn nxt<T>(s: Seq<T>, i: int) -> T {
    if i + 1 < s.len() {
        s[i + 1]
    } else {
        s[0]
    }
}

/// The winding contribution of the directed edge `(a, b)` with respect to
/// the horizontal ray from `p` toward positive x: `1` for an upward
/// crossing left of the edge, `-1` for a downward crossing right of it.
pub open spec fn wind_at(a: Vec2, b: Vec2, p: Vec2) -> int {
    if a.y <= p.y {
        if b.y > p.y && tcross(dvec(a, b), dvec(a, p)) > 0 {
            1
        } else {
            0
        }
    } else {
        if b.y <= p.y && tcross(dvec(a, b), dvec(a, p)) < 0 {
            -1
        } else {
            0
        }
    }
}

/// Sum of the winding contributions of the first `i` edges.
pub open spec fn winding_sum(s: Seq<Vec2>, p: Vec2, i: int) -> int
    decreases i,
{
    if i <= 0 {
        0
    } else {
        winding_sum(s, p, i - 1) + wind_at(s[i - 1], nxt(s, i - 1), p)
    }
}

/// Shoelace cross product of edge `i`.
pub open spec fn shoelace_at(s: Seq<Vec2>, i: int) -> int {
    s[i].x * nxt(s, i).y - s[i].y * nxt(s, i).x
}

/// Sum of the shoelace cross products of the first `i` edges.
pub open spec fn shoelace_sum(s: Seq<Vec2>, i: int) -> int
    decreases i,
{
    if i <= 0 {
        0
    } else {
        shoelace_sum(s, i - 1) + shoelace_at(s, i - 1)
    }
}

/// Sum of the shoelace-weighted x coordinates of the first `i` edges.
pub open spec fn cmom_x_sum(s: Seq<Vec2>, i: int) -> int
    decreases i,
{
    if i <= 0 {
        0
    } else {
        cmom_x_sum(s, i - 1) + (s[i - 1].x + nxt(s, i - 1).x) * shoelace_at(s, i - 1)
    }
}

/// Sum of the shoelace-weighted y coordinates of the first `i` edges.
pub open spec fn cmom_y_sum(s: Seq<Vec2>, i: int) -> int
    decreases i,
{
    if i <= 0 {
        0
    } else {
        cmom_y_sum(s, i - 1) + (s[i - 1].y + nxt(s, i - 1).y) * shoelace_at(s, i - 1)
    }
}

/// What a straight polygon's moment is: the shoelace area, with the
/// centroid of the shoelace first moments, clamped into the representable
/// centroid range; a polygon of vanishing area has the zero centroid.
pub open spec fn poly_moment_spec(s: Seq<Vec2>) -> Moment {
    let n = s.len() as int;
    let area = rdiv(absi(shoelace_sum(s, n)), 2 * SCALE);
    if area < EPS as int {
        Moment { area: area as i64, centroid: Vec2 { x: 0, y: 0 } }
    } else {
        Moment {
            area: area as i64,
            centroid: Vec2 {
                x: clampi(
                    rdiv(cmom_x_sum(s, n), 6 * area * SCALE),
                    crate::moment::CENTROID_LIMIT as int,
                ) as i64,
                y: clampi(
                    rdiv(cmom_y_sum(s, n), 6 * area * SCALE),
                    crate::moment::CENTROID_LIMIT as int,
                ) as i64,
            },
        }
    }
}

/// The cross product of the two edge directions meeting at the window
/// starting at vertex `i`: positive for a left turn, negative for a right
/// turn.
pub open spec fn turn_at(s: Seq<Vec2>, i: int) -> int {
    let a = s[i];
    let b = nxt(s, i);
    let c = nxt(s, if i + 1 < s.len() { i + 1 } else { 0 });
    tcross(dvec(a, b), dvec(b, c))
}

/// A polygon is convex when no two of its turns have opposite signs.
/// Polygons with fewer than three vertices are trivially convex.
pub open spec fn convex_spec(s: Seq<Vec2>) -> bool {
    s.len() < 3 || !(exists|i: int, j: int|
        0 <= i < s.len() && 0 <= j < s.len() && turn_at(s, i) > 0 && turn_at(s, j) < 0)
}

impl Polygon<Vec2> {
    /// All vertices within the coordinate range, and not more of them than
    /// the kernel supports.
    pub open spec fn wf(self) -> bool {
        &&& self.vertices@.len() <= MAX_VERTICES
        &&& forall|i: int| 0 <= i < self.vertices@.len() ==> (#[trigger] self.vertices@[i]).wf()
    }

    /// The edges of the polygon: consecutive vertices connected in order,
    /// the last vertex connecting back to the first.
    pub fn edges(&self) -> (r: Vec<LineSegment>)
        requires
            self.wf(),
        ensures
            r@.len() == self.vertices@.len(),
            forall|i: int|
                0 <= i < r@.len() ==> r@[i] == LineSegment(
                    self.vertices@[i],
                    nxt(self.vertices@, i),
                ),
    {
        let n = self.vertices.len();
        let mut r: Vec<LineSegment> = Vec::new();
        let mut i: usize = 0;
        while i < n
            invariant
                n == self.vertices@.len(),
                0 <= i <= n,
                r@.len() == i,
                forall|k: int|
                    0 <= k < i ==> r@[k] == LineSegment(self.vertices@[k], nxt(self.vertices@, k)),
            decreases n - i,
        {
            let next = if i + 1 < n {
                self.vertices[i + 1]
            } else {
                self.vertices[0]
            };
            r.push(LineSegment(self.vertices[i], next));
            i += 1;
        }
        r
    }

    /// The number of times the boundary wraps around the point: each edge
    /// crossing the rightward horizontal ray through the point counts
    /// `1` upward, `-1` downward.
    pub fn winding_number_2(&self, point: Vec2) -> (r: i32)
        requires
            self.wf(),
            point.wf(),
        ensures
            r == winding_sum(self.vertices@, point, self.vertices@.len() as int),
    {
        proof {
            assert forall|i: int| 0 <= i < self.vertices@.len() implies (
            #[trigger] self.vertices@[i]).in_range(800_000_000) by {
                assert(self.vertices@[i].wf());
            }
        }
        winding_of_points(&self.vertices, point)
    }
}

/// The winding sum of a prefix is bounded by its length.
pub proof fn lemma_winding_bound(s: Seq<Vec2>, p: Vec2, i: int)
    requires
        0 <= i,
    ensures
        -i <= winding_sum(s, p, i) <= i,
    decreases i,
{
    if i > 0 {
        lemma_winding_bound(s, p, i - 1);
    }
}

/// The winding number of a cyclic point sequence around a point.
pub(crate) fn winding_of_points(s: &Vec<Vec2>, point: Vec2) -> (r: i32)
    requires
        s@.len() <= MAX_VERTICES,
        forall|i: int| 0 <= i < s@.len() ==> (#[trigger] s@[i]).in_range(800_000_000),
        point.wf(),
    ensures
        r == winding_sum(s@, point, s@.len() as int),
        -(s@.len() as int) <= r <= s@.len() as int,
{
    {
        let n = s.len();
        let mut w: i64 = 0;
        let mut i: usize = 0;
        while i < n
            invariant
                n == s@.len(),
                n <= MAX_VERTICES,
                0 <= i <= n,
                w == winding_sum(s@, point, i as int),
                -(i as int) <= w <= i as int,
                forall|k: int| 0 <= k < n ==> (#[trigger] s@[k]).in_range(800_000_000),
                point.wf(),
            decreases n - i,
        {
            let a = s[i];
            let b = if i + 1 < n {
                s[i + 1]
            } else {
                s[0]
            };
            proof {
                crate::line::lemma_small_products(
                    (b.x - a.x) as int,
                    (b.y - a.y) as int,
                    (point.x - a.x) as int,
                    (point.y - a.y) as int,
                    0,
                    0,
                );
            }
            let cross = ((b.x - a.x) as i128) * ((point.y - a.y) as i128) - ((b.y - a.y) as i128)
                * ((point.x - a.x) as i128);
            if a.y <= point.y {
                if b.y > point.y && cross > 0 {
                    w += 1;
                }
            } else {
                if b.y <= point.y && cross < 0 {
                    w -= 1;
                }
            }
            i += 1;
        }
        w as i32
    }
}

impl Polygon<Vec2> {
    /// The point is inside the polygon: the boundary wraps around it a
    /// positive number of times.
    pub fn contains(&self, point: Vec2) -> (r: bool)
        requires
            self.wf(),
            point.wf(),
        ensures
            r == (winding_sum(self.vertices@, point, self.vertices@.len() as int) > 0),
    {
        self.winding_number_2(point) > 0
    }

    /// Shoelace moment of the polygon: area and centroid.
    pub fn moment(&self) -> (r: Moment)
        requires
            self.wf(),
        ensures
            r == poly_moment_spec(self.vertices@),
            r.wf(),
    {
        proof {
            assert forall|i: int| 0 <= i < self.vertices@.len() implies (
            #[trigger] self.vertices@[i]).in_range(800_000_000) by {
                assert(self.vertices@[i].wf());
            }
        }
        moment_of_points(&self.vertices)
    }
}

/// The shoelace moment of a cyclic point sequence.
pub(crate) fn moment_of_points(s: &Vec<Vec2>) -> (r: Moment)
    requires
        s@.len() <= MAX_VERTICES,
        forall|i: int| 0 <= i < s@.len() ==> (#[trigger] s@[i]).in_range(800_000_000),
    ensures
        r == poly_moment_spec(s@),
        r.wf(),
    {
        let n = s.len();
        let mut sum: i128 = 0;
        let mut cmx: i128 = 0;
        let mut cmy: i128 = 0;
        let mut i: usize = 0;
        while i < n
            invariant
                n == s@.len(),
                n <= MAX_VERTICES,
                0 <= i <= n,
                sum == shoelace_sum(s@, i as int),
                cmx == cmom_x_sum(s@, i as int),
                cmy == cmom_y_sum(s@, i as int),
                -1_300_000_000_000_000_000 * (i as int) <= sum <= 1_300_000_000_000_000_000 * (
                i as int),
                -2_100_000_000_000_000_000_000_000_000 * (i as int) <= cmx
                    <= 2_100_000_000_000_000_000_000_000_000 * (i as int),
                -2_100_000_000_000_000_000_000_000_000 * (i as int) <= cmy
                    <= 2_100_000_000_000_000_000_000_000_000 * (i as int),
                forall|k: int| 0 <= k < n ==> (#[trigger] s@[k]).in_range(800_000_000),
            decreases n - i,
        {
            let a = s[i];
            let b = if i + 1 < n {
                s[i + 1]
            } else {
                s[0]
            };
            proof {
                lemma_shoelace_bounds(a.x as int, a.y as int, b.x as int, b.y as int, i as int);
            }
            let cross = (a.x as i128) * (b.y as i128) - (a.y as i128) * (b.x as i128);
            sum += cross;
            cmx += ((a.x + b.x) as i128) * cross;
            cmy += ((a.y + b.y) as i128) * cross;
            i += 1;
        }
        let abs_sum: i128 = if sum < 0 {
            -sum
        } else {
            sum
        };
        proof {
            crate::num::lemma_rdiv_abs_le(
                abs_sum as int,
                2 * SCALE as int,
                650_000_000_000_000_000,
            );
            assert(650_000_000_000_000_000int * (2 * SCALE as int) == 1_300_000_000_000_000_000int
                * 1_000_000) by (nonlinear_arith);
            assert(1_300_000_000_000_000_000int * (n as int) <= 1_300_000_000_000_000_000int
                * 1_000_000) by (nonlinear_arith)
                requires
                    0 <= n <= 1_000_000,
            ;
        }
        let area = crate::num::rdiv_i128(abs_sum, 2 * SCALE as i128) as i64;
        if area < EPS {
            Moment { area, centroid: Vec2 { x: 0, y: 0 } }
        } else {
            let den: i128 = 6 * (area as i128) * (SCALE as i128);
            proof {
                crate::num::lemma_mul_abs_le(
                    6 * (area as int),
                    SCALE as int,
                    3_900_000_000_000_000_000,
                    1_000_000,
                );
            }
            let cx = clamp_i128(crate::num::rdiv_i128(cmx, den));
            let cy = clamp_i128(crate::num::rdiv_i128(cmy, den));
            Moment { area, centroid: Vec2 { x: cx, y: cy } }
        }
    }

impl Polygon<Vec2> {
    /// Whether the polygon is convex: no two turns of its boundary have
    /// opposite signs.
    pub fn is_convex(&self) -> (r: bool)
        requires
            self.wf(),
        ensures
            r == convex_spec(self.vertices@),
    {
        let s = &self.vertices;
        let n = s.len();
        if n < 3 {
            return true;
        }
        let mut sign: i32 = 0;
        let mut i: usize = 0;
        while i < n
            invariant
                s@ == self.vertices@,
                n == s@.len(),
                3 <= n <= MAX_VERTICES,
                0 <= i <= n,
                sign == 0 ==> forall|k: int| 0 <= k < i ==> turn_at(s@, k) == 0,
                sign == 1 ==> (exists|k: int| 0 <= k < i && turn_at(s@, k) > 0) && (forall|k: int|
                    0 <= k < i ==> turn_at(s@, k) >= 0),
                sign == -1 ==> (exists|k: int| 0 <= k < i && turn_at(s@, k) < 0) && (forall|k: int|
                    0 <= k < i ==> turn_at(s@, k) <= 0),
                sign == 0 || sign == 1 || sign == -1,
                forall|k: int| 0 <= k < n ==> (#[trigger] s@[k]).wf(),
            decreases n - i,
        {
            let a = s[i];
            let b = if i + 1 < n {
                s[i + 1]
            } else {
                s[0]
            };
            let c = if i + 2 < n {
                s[i + 2]
            } else if i + 1 < n {
                s[0]
            } else {
                s[1]
            };
            proof {
                crate::line::lemma_small_products(
                    (b.x - a.x) as int,
                    (b.y - a.y) as int,
                    (c.x - b.x) as int,
                    (c.y - b.y) as int,
                    0,
                    0,
                );
                assert(c == nxt(s@, if (i as int) + 1 < n as int {
                    (i as int) + 1
                } else {
                    0int
                }));
            }
            let cross = ((b.x - a.x) as i128) * ((c.y - b.y) as i128) - ((b.y - a.y) as i128) * ((
            c.x - b.x) as i128);
            if sign == 0 {
                if cross > 0 {
                    sign = 1;
                } else if cross < 0 {
                    sign = -1;
                }
            } else if sign == 1 {
                if cross < 0 {
                    proof {
                        assert(turn_at(s@, i as int) < 0);
                        let k = choose|k: int| 0 <= k < i && turn_at(s@, k) > 0;
                        assert(0 <= k < n as int && turn_at(s@, k) > 0);
                        assert(!convex_spec(self.vertices@));
                    }
                    return false;
                }
            } else {
                if cross > 0 {
                    proof {
                        assert(turn_at(s@, i as int) > 0);
                        let k = choose|k: int| 0 <= k < i && turn_at(s@, k) < 0;
                        assert(0 <= k < n as int && turn_at(s@, k) < 0);
                        assert(!convex_spec(self.vertices@));
                    }
                    return false;
                }
            }
            i += 1;
        }
        true
    }
}

/// Clamp a raw quantity into the representable centroid range.
fn clamp_i128(x: i128) -> (r: i64)
    ensures
        r == clampi(x as int, crate::moment::CENTROID_LIMIT as int),
{
    if x > crate::moment::CENTROID_LIMIT as i128 {
        crate::moment::CENTROID_LIMIT
    } else if x < -(crate::moment::CENTROID_LIMIT as i128) {
        -crate::moment::CENTROID_LIMIT
    } else {
        x as i64
    }
}

/// Shoelace step bounds: one edge's cross product and weighted sums stay
/// within their per-step envelopes.
proof fn lemma_shoelace_bounds(ax: int, ay: int, bx: int, by: int, i: int)
    requires
        -800_000_000 <= ax <= 800_000_000,
        -800_000_000 <= ay <= 800_000_000,
        -800_000_000 <= bx <= 800_000_000,
        -800_000_000 <= by <= 800_000_000,
        i >= 0,
    ensures
        -640_000_000_000_000_000 <= ax * by <= 640_000_000_000_000_000,
        -640_000_000_000_000_000 <= ay * bx <= 640_000_000_000_000_000,
        -2_100_000_000_000_000_000_000_000_000 <= (ax + bx) * (ax * by - ay * bx)
            <= 2_100_000_000_000_000_000_000_000_000,
        -2_100_000_000_000_000_000_000_000_000 <= (ay + by) * (ax * by - ay * bx)
            <= 2_100_000_000_000_000_000_000_000_000,
{
    crate::num::lemma_mul_abs_le(ax, by, 800_000_000, 800_000_000);
    crate::num::lemma_mul_abs_le(ay, bx, 800_000_000, 800_000_000);
    crate::num::lemma_mul_abs_le(
        ax + bx,
        ax * by - ay * bx,
        1_600_000_000,
        1_280_000_000_000_000_000,
    );
    crate::num::lemma_mul_abs_le(
        ay + by,
        ax * by - ay * bx,
        1_600_000_000,
        1_280_000_000_000_000_000,
    );
}

} // verus!
