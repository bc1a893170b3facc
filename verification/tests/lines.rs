//! Line, segment and half-plane behaviour, in raw units (one coordinate
//! unit is 1_000_000 raw units).

use geom2::{HalfPlane, Intersect, Line, LineSegment, Vec2};

fn r(x: f64) -> i64 {
    (x * 1_000_000.0).round() as i64
}

fn v(x: f64, y: f64) -> Vec2 {
    Vec2::new(r(x), r(y))
}

fn close(p: Vec2, x: f64, y: f64, tol: i64) -> bool {
    (p.x - r(x)).abs() <= tol && (p.y - r(y)).abs() <= tol
}

#[test]
fn line_line_intersection() {
    let l1 = Line(v(0.0, 0.0), v(2.0, 0.0));
    let l2 = Line(v(1.0, -1.0), v(1.0, 1.0));
    let result = l1.intersect(&l2);
    assert!(result.is_some());
    assert!(close(result.unwrap(), 1.0, 0.0, 1));

    let l1 = Line(v(0.0, 0.0), v(2.0, 2.0));
    let l2 = Line(v(2.0, 0.0), v(0.0, 2.0));
    let result = l1.intersect(&l2);
    assert!(result.is_some());
    assert!(close(result.unwrap(), 1.0, 1.0, 1));
}

#[test]
fn line_line_parallel() {
    let l1 = Line(v(0.0, 0.0), v(1.0, 1.0));
    let l2 = Line(v(0.0, 1.0), v(1.0, 2.0));
    assert!(l1.intersect(&l2).is_none());

    let l1 = Line(v(1.0, 0.0), v(1.0, 10.0));
    let l2 = Line(v(2.0, 0.0), v(2.0, 10.0));
    assert!(l1.intersect(&l2).is_none());
}

#[test]
fn line_line_coincident() {
    let l1 = Line(v(0.0, 0.0), v(2.0, 2.0));
    let l2 = Line(v(-1.0, -1.0), v(3.0, 3.0));
    let result = l1.intersect(&l2);
    assert!(result.is_some());
    assert!(l1.is_near(result.unwrap()));

    let l1 = Line(v(0.0, 0.0), v(2.0, 2.0));
    let l2 = Line(v(3.0, 3.0), v(1.0, 1.0));
    let result = l1.intersect(&l2);
    assert!(result.is_some());
    assert!(l1.is_near(result.unwrap()));
}

#[test]
fn line_line_degenerate() {
    // a degenerate line is a point; it meets another line when it lies on it
    let l1 = Line(v(1.0, 1.0), v(1.0, 1.0));
    let l2 = Line(v(0.0, 0.0), v(2.0, 2.0));
    let result = l1.intersect(&l2);
    assert!(result.is_some());
    assert!(close(result.unwrap(), 1.0, 1.0, 1));

    let l1 = Line(v(0.0, 0.0), v(2.0, 2.0));
    let l2 = Line(v(1.0, 1.0), v(1.0, 1.0));
    let result = l1.intersect(&l2);
    assert!(result.is_some());
    assert!(close(result.unwrap(), 1.0, 1.0, 1));

    let l1 = Line(v(1.0, 1.0), v(1.0, 1.0));
    let l2 = Line(v(1.0, 1.0), v(1.0, 1.0));
    let result = l1.intersect(&l2);
    assert!(result.is_some());
    assert!(close(result.unwrap(), 1.0, 1.0, 1));

    let l1 = Line(v(0.0, 0.0), v(0.0, 0.0));
    let l2 = Line(v(1.0, 1.0), v(1.0, 1.0));
    assert!(l1.intersect(&l2).is_none());
}

#[test]
fn line_segment_intersection() {
    let seg = LineSegment(v(-1.0, 0.0), v(3.0, 0.0));
    let line = Line(v(1.0, -1.0), v(1.0, 1.0));
    let result = seg.intersect(&line);
    assert!(result.is_some());
    assert!(close(result.unwrap(), 1.0, 0.0, 1));

    let seg = LineSegment(v(0.0, 0.0), v(2.0, 2.0));
    let line = Line(v(2.0, 0.0), v(0.0, 2.0));
    let result = seg.intersect(&line);
    assert!(result.is_some());
    assert!(close(result.unwrap(), 1.0, 1.0, 1));

    let seg = LineSegment(v(0.0, 0.0), v(1.0, 1.0));
    let line = Line(v(2.0, 0.0), v(3.0, -1.0));
    let result = seg.intersect(&line);
    assert!(result.is_some());
    assert!(close(result.unwrap(), 1.0, 1.0, 1));
}

#[test]
fn line_segment_no_intersection() {
    let seg = LineSegment(v(0.0, 0.0), v(0.5, 0.5));
    let line = Line(v(2.0, 0.0), v(0.0, 2.0));
    assert!(seg.intersect(&line).is_none());

    let seg = LineSegment(v(2.0, 2.0), v(3.0, 3.0));
    let line = Line(v(0.0, 0.0), v(10.0, 0.0));
    assert!(seg.intersect(&line).is_none());
}

#[test]
fn line_segment_parallel() {
    let seg = LineSegment(v(0.0, 1.0), v(2.0, 1.0));
    let line = Line(v(0.0, 0.0), v(2.0, 0.0));
    assert!(seg.intersect(&line).is_none());

    // a segment coincident with the line reports its midpoint
    let seg = LineSegment(v(0.0, 0.0), v(2.0, 2.0));
    let line = Line(v(-1.0, -1.0), v(3.0, 3.0));
    let result = seg.intersect(&line);
    assert!(result.is_some());
    assert!(close(result.unwrap(), 1.0, 1.0, 1));
}

#[test]
fn line_segment_degenerate() {
    let seg = LineSegment(v(1.0, 1.0), v(1.0, 1.0));
    let line = Line(v(0.0, 0.0), v(2.0, 2.0));
    let result = seg.intersect(&line);
    assert!(result.is_some());
    assert!(close(result.unwrap(), 1.0, 1.0, 1));

    let seg = LineSegment(v(0.0, 1.0), v(0.0, 1.0));
    let line = Line(v(0.0, 0.0), v(2.0, 2.0));
    assert!(seg.intersect(&line).is_none());

    let seg = LineSegment(v(0.0, 0.0), v(2.0, 2.0));
    let line = Line(v(1.0, 1.0), v(1.0, 1.0));
    let result = seg.intersect(&line);
    assert!(result.is_some());
    assert!(close(result.unwrap(), 1.0, 1.0, 1));

    let seg = LineSegment(v(1.0, 1.0), v(1.0, 1.0));
    let line = Line(v(1.0, 1.0), v(1.0, 1.0));
    let result = seg.intersect(&line);
    assert!(result.is_some());
    assert!(close(result.unwrap(), 1.0, 1.0, 1));
}

#[test]
fn line_segment_commutative() {
    let line = Line(v(0.0, 0.0), v(2.0, 2.0));
    let seg = LineSegment(v(0.0, 2.0), v(2.0, 0.0));

    let result1 = line.intersect(&seg);
    let result2 = seg.intersect(&line);

    assert!(result1.is_some());
    assert!(result2.is_some());
    assert_eq!(result1.unwrap(), result2.unwrap());
    assert!(close(result1.unwrap(), 1.0, 1.0, 1));
}

#[test]
fn segment_segment_intersection() {
    let s1 = LineSegment(v(0.0, 0.0), v(2.0, 2.0));
    let s2 = LineSegment(v(0.0, 2.0), v(2.0, 0.0));
    let result = s1.intersect(&s2);
    assert!(result.is_some());
    assert!(close(result.unwrap(), 1.0, 1.0, 1));

    let s1 = LineSegment(v(0.0, 0.0), v(1.0, 1.0));
    let s2 = LineSegment(v(1.0, 1.0), v(2.0, 0.0));
    let result = s1.intersect(&s2);
    assert!(result.is_some());
    assert!(close(result.unwrap(), 1.0, 1.0, 1));

    let s1 = LineSegment(v(0.0, 0.0), v(1.0, 0.0));
    let s2 = LineSegment(v(1.0, 0.0), v(1.0, 1.0));
    let result = s1.intersect(&s2);
    assert!(result.is_some());
    assert!(close(result.unwrap(), 1.0, 0.0, 1));
}

#[test]
fn segment_segment_no_intersection() {
    let s1 = LineSegment(v(0.0, 0.0), v(1.0, 0.0));
    let s2 = LineSegment(v(2.0, 0.0), v(3.0, 0.0));
    assert!(s1.intersect(&s2).is_none());

    let s1 = LineSegment(v(0.0, 0.0), v(1.0, 1.0));
    let s2 = LineSegment(v(2.0, 2.0), v(3.0, 3.0));
    assert!(s1.intersect(&s2).is_none());
}

#[test]
fn segment_segment_parallel() {
    let s1 = LineSegment(v(0.0, 0.0), v(2.0, 0.0));
    let s2 = LineSegment(v(0.0, 1.0), v(2.0, 1.0));
    assert!(s1.intersect(&s2).is_none());

    let s1 = LineSegment(v(0.0, 0.0), v(1.0, 0.0));
    let s2 = LineSegment(v(2.0, 0.0), v(3.0, 0.0));
    assert!(s1.intersect(&s2).is_none());
}

#[test]
fn segment_segment_collinear_overlap() {
    let s1 = LineSegment(v(0.0, 0.0), v(3.0, 0.0));
    let s2 = LineSegment(v(1.0, 0.0), v(2.0, 0.0));
    let result = s1.intersect(&s2);
    assert!(result.is_some());
    assert!(close(result.unwrap(), 1.5, 0.0, 1));

    let s1 = LineSegment(v(0.0, 0.0), v(2.0, 0.0));
    let s2 = LineSegment(v(1.0, 0.0), v(3.0, 0.0));
    let result = s1.intersect(&s2);
    assert!(result.is_some());
    assert!(close(result.unwrap(), 1.5, 0.0, 1));

    let s1 = LineSegment(v(0.0, 0.0), v(1.0, 0.0));
    let s2 = LineSegment(v(1.0, 0.0), v(2.0, 0.0));
    let result = s1.intersect(&s2);
    assert!(result.is_some());
    assert!(close(result.unwrap(), 1.0, 0.0, 1));

    let s1 = LineSegment(v(0.0, 0.0), v(4.0, 0.0));
    let s2 = LineSegment(v(1.0, 0.0), v(3.0, 0.0));
    let result = s1.intersect(&s2);
    assert!(result.is_some());
    assert!(close(result.unwrap(), 2.0, 0.0, 1));
}

#[test]
fn segment_segment_degenerate() {
    let s1 = LineSegment(v(1.0, 1.0), v(1.0, 1.0));
    let s2 = LineSegment(v(0.0, 2.0), v(2.0, 0.0));
    let result = s1.intersect(&s2);
    assert!(result.is_some());
    assert!(close(result.unwrap(), 1.0, 1.0, 1));

    let s1 = LineSegment(v(0.0, 0.0), v(0.0, 0.0));
    let s2 = LineSegment(v(1.0, 1.0), v(2.0, 2.0));
    assert!(s1.intersect(&s2).is_none());

    let s1 = LineSegment(v(0.0, 0.0), v(2.0, 2.0));
    let s2 = LineSegment(v(1.0, 1.0), v(1.0, 1.0));
    let result = s1.intersect(&s2);
    assert!(result.is_some());
    assert!(close(result.unwrap(), 1.0, 1.0, 1));

    let s1 = LineSegment(v(1.0, 1.0), v(1.0, 1.0));
    let s2 = LineSegment(v(1.0, 1.0), v(1.0, 1.0));
    let result = s1.intersect(&s2);
    assert!(result.is_some());
    assert!(close(result.unwrap(), 1.0, 1.0, 1));

    let s1 = LineSegment(v(0.0, 0.0), v(0.0, 0.0));
    let s2 = LineSegment(v(1.0, 1.0), v(1.0, 1.0));
    assert!(s1.intersect(&s2).is_none());
}

#[test]
fn segment_segment_horizontal_vertical() {
    let horiz = LineSegment(v(0.0, 2.0), v(5.0, 2.0));
    let vert = LineSegment(v(3.0, 0.0), v(3.0, 5.0));
    let result = horiz.intersect(&vert);
    assert!(result.is_some());
    assert!(close(result.unwrap(), 3.0, 2.0, 1));

    let horiz = LineSegment(v(0.0, 0.0), v(5.0, 0.0));
    let vert = LineSegment(v(2.0, -1.0), v(2.0, 1.0));
    let result = horiz.intersect(&vert);
    assert!(result.is_some());
    assert!(close(result.unwrap(), 2.0, 0.0, 1));
}

#[test]
fn line_contains() {
    let seg = LineSegment(v(0.0, 0.0), v(2.0, 0.0));

    assert!(seg.is_near(v(0.0, 0.0)));
    assert!(seg.is_near(v(2.0, 0.0)));
    assert!(seg.is_near(v(1.0, 0.0)));
    assert!(!seg.is_near(v(3.0, 0.0)));
    assert!(!seg.is_near(v(1.0, 1.0)));

    let seg = LineSegment(v(0.0, 0.0), v(2.0, 2.0));
    assert!(seg.is_near(v(1.0, 1.0)));
    assert!(!seg.is_near(v(1.0, 1.1)));
}

#[test]
fn contains_degenerate() {
    let seg = LineSegment(v(1.0, 1.0), v(1.0, 1.0));
    assert!(seg.is_near(v(1.0, 1.0)));
    assert!(!seg.is_near(v(1.0, 1.1)));
}

#[test]
fn is_degenerate() {
    let line = Line(v(0.0, 0.0), v(1.0, 0.0));
    assert!(!line.is_degenerate());

    let line = Line(v(0.0, 0.0), v(0.0, 0.0));
    assert!(line.is_degenerate());

    let seg = LineSegment(v(0.0, 0.0), v(1.0, 0.0));
    assert!(!seg.is_degenerate());

    let seg = LineSegment(v(0.0, 0.0), v(0.0, 0.0));
    assert!(seg.is_degenerate());
}

#[test]
fn intersection_symmetry() {
    let segments = [
        LineSegment(v(0.0, 0.0), v(2.0, 2.0)),
        LineSegment(v(0.0, 2.0), v(2.0, 0.0)),
        LineSegment(v(1.0, 0.0), v(1.0, 3.0)),
        LineSegment(v(-1.0, -1.0), v(3.0, 3.0)),
    ];

    for i in 0..segments.len() {
        for j in 0..segments.len() {
            let a = &segments[i];
            let b = &segments[j];
            let result1 = a.intersect(b);
            let result2 = b.intersect(a);

            match (result1, result2) {
                (Some(p1), Some(p2)) => {
                    assert!((p1.x - p2.x).abs() <= 1 && (p1.y - p2.y).abs() <= 1);
                }
                (None, None) => (),
                _ => panic!("intersection not symmetric between {} and {}", i, j),
            }
        }
    }
}

#[test]
fn plane_is_inside() {
    let plane = HalfPlane::from_edge(&Line(v(0.0, 1.0), v(1.0, 0.0)));

    assert!(!plane.contains(v(0.0, 0.0)));
    assert!(plane.contains(v(1.0, 1.0)));
}

#[test]
fn from_normal() {
    let point = v(2.0, 3.0);
    let normal = v(1.0, 0.0);

    let plane = HalfPlane::from_normal(point, normal);

    assert_eq!(plane.distance(point), 0);

    let outside_point = v(3.0, 3.0);
    assert!(!plane.contains(outside_point));
    assert!(plane.distance(outside_point) > 0);

    let inside_point = v(1.0, 3.0);
    assert!(plane.contains(inside_point));
    assert!(plane.distance(inside_point) < 0);
}

#[test]
fn from_edge() {
    // horizontal edge: walking it leaves the inside on the left, above
    let plane = HalfPlane::from_edge(&Line(v(0.0, 0.0), v(1.0, 0.0)));
    assert!(plane.contains(v(0.5, 1.0)));
    assert!(!plane.contains(v(0.5, -1.0)));

    // vertical edge: the left side is negative x
    let plane = HalfPlane::from_edge(&Line(v(0.0, 0.0), v(0.0, 1.0)));
    assert!(plane.contains(v(-1.0, 0.5)));
    assert!(!plane.contains(v(1.0, 0.5)));
}

#[test]
fn distance() {
    let plane = HalfPlane { normal: v(0.0, 1.0), offset: r(2.0) };

    assert_eq!(plane.distance(v(10.0, 2.0)), 0);
    assert_eq!(plane.distance(v(10.0, 3.0)), r(1.0));
    assert_eq!(plane.distance(v(10.0, 1.0)), r(-1.0));

    // a rotated normal: a boundary point has zero distance, and moving
    // along or against the normal changes it by the step length
    let sq = r(0.5f64.sqrt());
    let normal = Vec2::new(sq, sq);
    let point_on_boundary = v(2.0, 2.0);
    let plane = HalfPlane::from_normal(point_on_boundary, normal);

    assert!(plane.distance(point_on_boundary).abs() <= 1);

    let outside_point = Vec2::new(point_on_boundary.x + 2 * sq, point_on_boundary.y + 2 * sq);
    assert!(!plane.contains(outside_point));
    assert!((plane.distance(outside_point) - r(2.0)).abs() <= 3);

    let inside_point = Vec2::new(point_on_boundary.x - 2 * sq, point_on_boundary.y - 2 * sq);
    assert!(plane.contains(inside_point));
    assert!((plane.distance(inside_point) + r(2.0)).abs() <= 3);
}

#[test]
fn plane_boundary_point() {
    let plane = HalfPlane { normal: v(0.8, 0.6), offset: r(-5.0) };

    let boundary_point = plane.boundary_point();
    assert!(plane.distance(boundary_point).abs() <= 1);
}

#[test]
fn edge() {
    let plane = HalfPlane { normal: v(0.0, 1.0), offset: r(-3.0) };

    let line = plane.edge();

    assert!(plane.distance(line.0).abs() <= 1);

    let dx = line.1.x - line.0.x;
    let dy = line.1.y - line.0.y;
    let dot = dx as i128 * plane.normal.x as i128 + dy as i128 * plane.normal.y as i128;
    assert_eq!(dot, 0);

    assert!(plane.distance(line.1).abs() <= 1);
}

#[test]
fn round_trip_from_edge() {
    // rebuilding a half-plane from its own boundary edge reproduces it
    let plane = HalfPlane { normal: v(0.6, 0.8), offset: r(1.25) };
    let again = HalfPlane::from_edge(&plane.edge());
    assert!((again.normal.x - plane.normal.x).abs() <= 3);
    assert!((again.normal.y - plane.normal.y).abs() <= 3);
    assert!((again.offset - plane.offset).abs() <= 3);
}
