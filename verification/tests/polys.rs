//! Polygon behaviour: winding, moments, convexity, clipping against
//! half-planes, polygons and disks, and the arc-polygon decomposition.

use geom2::{
    ArcPolygon, ArcVertex, Circle, Disk, HalfPlane, Intersect, IntersectTo, Polygon, Vec2,
};

fn r(x: f64) -> i64 {
    (x * 1_000_000.0).round() as i64
}

fn v(x: f64, y: f64) -> Vec2 {
    Vec2::new(r(x), r(y))
}

fn poly(pts: &[(f64, f64)]) -> Polygon<Vec2> {
    Polygon::new(pts.iter().map(|&(x, y)| v(x, y)).collect())
}

#[test]
fn line_square_clump() {
    let square = poly(&[(0.0, 0.0), (3.0, 0.0), (3.0, 2.0), (0.0, 2.0)]);
    let m = square.moment();
    assert_eq!(m.area, r(6.0));
    assert_eq!(m.centroid, v(1.5, 1.0));
}

#[test]
fn line_is_inside() {
    let triangle = poly(&[(0.0, 0.0), (2.0, 0.0), (1.0, 2.0)]);

    assert!(triangle.contains(v(1.0, 0.5)));
    assert!(triangle.contains(v(0.5, 0.5)));
    assert!(triangle.contains(v(1.5, 0.5)));

    assert!(!triangle.contains(v(3.0, 3.0)));
    assert!(!triangle.contains(v(-1.0, -1.0)));

    let concave = poly(&[
        (0.0, 0.0),
        (2.0, 0.0),
        (2.0, 2.0),
        (1.0, 2.0),
        (1.0, 1.0),
        (0.0, 1.0),
    ]);

    assert!(!concave.contains(v(0.5, 1.5)));
    assert!(concave.contains(v(1.5, 0.5)));
}

#[test]
fn line_is_convex() {
    let triangle = poly(&[(0.0, 0.0), (2.0, 0.0), (1.0, 2.0)]);
    assert!(triangle.is_convex());

    let square = poly(&[(0.0, 0.0), (2.0, 0.0), (2.0, 2.0), (0.0, 2.0)]);
    assert!(square.is_convex());

    let concave = poly(&[
        (0.0, 0.0),
        (3.0, 0.0),
        (3.0, 2.0),
        (1.0, 2.0),
        (1.0, 1.0),
        (0.0, 1.0),
    ]);
    assert!(!concave.is_convex());

    let empty = poly(&[]);
    assert!(empty.is_convex());

    let point = poly(&[(0.0, 0.0)]);
    assert!(point.is_convex());

    let line = poly(&[(0.0, 0.0), (1.0, 1.0)]);
    assert!(line.is_convex());
}

#[test]
fn line_intersect_plane() {
    let square = poly(&[(0.0, 0.0), (2.0, 0.0), (2.0, 2.0), (0.0, 2.0)]);

    // clip against the vertical boundary at x = 1, inside x <= 1
    let plane = HalfPlane::from_normal(v(1.0, 0.0), v(1.0, 0.0));
    let clipped = square.intersect_to(&plane).unwrap();

    let expected = poly(&[(0.0, 0.0), (1.0, 0.0), (1.0, 2.0), (0.0, 2.0)]);
    assert_eq!(clipped, expected);
}

#[test]
fn line_intersect_polygon() {
    let square1 = poly(&[(0.0, 0.0), (2.0, 0.0), (2.0, 2.0), (0.0, 2.0)]);
    let square2 = poly(&[(1.0, 1.0), (3.0, 1.0), (3.0, 3.0), (1.0, 3.0)]);

    let intersection = square1.intersect_to(&square2).unwrap();
    let got = intersection.vertices();
    let want = [v(1.0, 1.0), v(2.0, 1.0), v(2.0, 2.0), v(1.0, 2.0)];
    assert_eq!(got.len(), want.len());
    for w in want.iter() {
        assert!(
            got.iter().any(|g| (g.x - w.x).abs() <= 1 && (g.y - w.y).abs() <= 1),
            "missing vertex {:?}",
            w
        );
    }
}

#[test]
fn clip_fully_inside_is_identity() {
    // clipping a polygon already inside the half-plane returns it unchanged
    let square = poly(&[(0.0, 0.0), (2.0, 0.0), (2.0, 2.0), (0.0, 2.0)]);
    let plane = HalfPlane::from_normal(v(5.0, 0.0), v(1.0, 0.0));
    let clipped = square.intersect_to(&plane).unwrap();
    assert_eq!(clipped, square);
}

#[test]
fn clip_fully_outside_is_empty() {
    let square = poly(&[(0.0, 0.0), (2.0, 0.0), (2.0, 2.0), (0.0, 2.0)]);
    let plane = HalfPlane::from_normal(v(-1.0, 0.0), v(1.0, 0.0));
    assert!(square.intersect_to(&plane).is_none());
}

#[test]
fn moment_segments() {
    // a disk decomposed into two half-circle arcs has the disk's moment
    let disk = Circle { center: v(2.345, 3.456), radius: r(1.234) }.fill();
    let circle = disk.edge();

    let arc_poly = ArcPolygon::from_circle(&circle);
    let m = arc_poly.moment();
    let d = disk.moment();

    assert!((m.area - d.area).abs() <= 50);
    assert!((m.centroid.x - d.centroid.x).abs() <= 50);
    assert!((m.centroid.y - d.centroid.y).abs() <= 50);
}

#[test]
fn moment_arc_triangle() {
    // a disk decomposed into an inscribed triangle and three equal arcs
    let cx = 2.345;
    let cy = 3.456;
    let rad = 1.234;
    let disk = Circle { center: v(cx, cy), radius: r(rad) }.fill();

    let third = 2.0 * std::f64::consts::PI / 3.0;
    let mut verts: Vec<ArcVertex> = Vec::new();
    for k in 0..3u32 {
        let ang = third * (k as f64);
        verts.push(ArcVertex {
            point: v(cx + rad * ang.cos(), cy + rad * ang.sin()),
            sagitta: r(0.5 * rad),
        });
    }
    let arc_poly: ArcPolygon = Polygon::new(verts);

    let m = arc_poly.moment();
    let d = disk.moment();
    assert!((m.area - d.area).abs() <= 200);
    assert!((m.centroid.x - d.centroid.x).abs() <= 200);
    assert!((m.centroid.y - d.centroid.y).abs() <= 200);
}

#[test]
fn arc_polygon_winding_matches_containment() {
    let circle = Circle { center: v(0.0, 0.0), radius: r(1.0) };
    let arc_poly = ArcPolygon::from_circle(&circle);
    let inside = v(0.3, 0.2);
    let outside = v(1.5, 0.0);
    assert_eq!(arc_poly.contains(inside), arc_poly.winding_number_2(inside) > 0);
    assert!(arc_poly.contains(inside));
    assert_eq!(arc_poly.contains(outside), arc_poly.winding_number_2(outside) > 0);
    assert!(!arc_poly.contains(outside));
}

#[test]
fn intersect_polygon_circle_inside() {
    // a triangle surrounding the disk clips to the whole disk
    let cx = 2.345;
    let cy = 3.456;
    let rad = 1.234;
    let disk = Disk::new(v(cx, cy), r(rad));

    let third = 2.0 * std::f64::consts::PI / 3.0;
    let mut pts: Vec<Vec2> = Vec::new();
    for k in 0..3u32 {
        let ang = third * (k as f64);
        pts.push(v(cx + 2.0 * rad * ang.cos(), cy + 2.0 * rad * ang.sin()));
    }
    let triangle: Polygon<Vec2> = Polygon::new(pts);

    let intersection = triangle.intersect_to(&disk).unwrap();
    let m = intersection.moment();
    let d = disk.moment();
    assert!((m.area - d.area).abs() <= 100);
    assert!((m.centroid.x - d.centroid.x).abs() <= 100);
    assert!((m.centroid.y - d.centroid.y).abs() <= 100);
}

#[test]
fn intersect_polygon_circle_sector() {
    // a square over one quadrant clips the unit disk to a quarter
    let disk = Disk::new(v(0.0, 0.0), r(1.0));
    let square = poly(&[(0.0, 0.0), (2.0, 0.0), (2.0, 2.0), (0.0, 2.0)]);

    let intersection = square.intersect_to(&disk).unwrap();
    let area = intersection.moment().area;
    let expected = r(std::f64::consts::PI / 4.0);
    assert!((area - expected).abs() <= 200, "got {} want {}", area, expected);
}

#[test]
fn intersect_polygon_circle_stripe() {
    // a horizontal stripe through the unit disk leaves two arcs and two
    // straight edges
    let disk = Disk::new(v(0.0, 0.0), r(1.0));
    let stripe = poly(&[(-2.0, -0.5), (2.0, -0.5), (2.0, 0.5), (-2.0, 0.5)]);

    let intersection = stripe.intersect_to(&disk).unwrap();
    assert_eq!(intersection.len(), 4);
    let area = intersection.moment().area;
    let expected = r(std::f64::consts::PI / 3.0 + 3.0f64.sqrt() / 2.0);
    assert!((area - expected).abs() <= 200, "got {} want {}", area, expected);
}

#[test]
fn clip_disk_polygon_inside() {
    // a polygon entirely inside the disk comes back unchanged, with
    // zero-sagitta arcs
    let disk = Disk::new(v(0.0, 0.0), r(10.0));
    let square = poly(&[(0.0, 0.0), (2.0, 0.0), (2.0, 2.0), (0.0, 2.0)]);
    let clipped = square.intersect_to(&disk).unwrap();
    assert_eq!(clipped.len(), 4);
    for (i, av) in clipped.vertices().iter().enumerate() {
        assert_eq!(av.point, square.vertices()[i]);
        assert_eq!(av.sagitta, 0);
    }
}

#[test]
fn clip_disk_no_contact() {
    let disk = Disk::new(v(10.0, 10.0), r(1.0));
    let square = poly(&[(0.0, 0.0), (2.0, 0.0), (2.0, 2.0), (0.0, 2.0)]);
    assert!(square.intersect_to(&disk).is_none());
}

#[test]
fn two_disk_lens_scenario() {
    // disks of radius 2 at (0,0) and (3,0): the lens chord is at x = 1.5
    let disk1 = Disk::new(v(0.0, 0.0), r(2.0));
    let disk2 = Disk::new(v(3.0, 0.0), r(2.0));
    match disk1.intersect(&disk2) {
        Some(geom2::DiskOverlap::Lens(lens)) => {
            let vs = lens.vertices();
            assert_eq!(vs.len(), 2);
            assert!((vs[0].point.x - r(1.5)).abs() <= 1);
            assert!((vs[1].point.x - r(1.5)).abs() <= 1);
            let h = r((4.0f64 - 2.25).sqrt());
            assert!((vs[0].point.y.abs() - h).abs() <= 2);
            assert!((vs[1].point.y.abs() - h).abs() <= 2);
            assert_eq!(vs[0].sagitta, vs[1].sagitta);
            assert!(vs[0].sagitta > 0);
        }
        _ => panic!("expected a lens"),
    }
}

#[test]
fn tangent_disk_scenario() {
    // unit disks at (0,0) and (2,0): a degenerate lens at (1,0)
    let disk1 = Disk::new(v(0.0, 0.0), r(1.0));
    let disk2 = Disk::new(v(2.0, 0.0), r(1.0));
    match disk1.intersect(&disk2) {
        Some(geom2::DiskOverlap::Lens(lens)) => {
            let vs = lens.vertices();
            assert_eq!(vs.len(), 2);
            assert_eq!(vs[0].point, v(1.0, 0.0));
            assert_eq!(vs[1].point, v(1.0, 0.0));
            assert_eq!(vs[0].sagitta, 0);
            assert_eq!(vs[1].sagitta, 0);
        }
        _ => panic!("expected a degenerate lens"),
    }
}

#[test]
fn polygon_accessors() {
    let square = poly(&[(0.0, 0.0), (1.0, 0.0), (1.0, 1.0), (0.0, 1.0)]);
    assert_eq!(square.len(), 4);
    assert!(!square.is_empty());
    assert!(poly(&[]).is_empty());
    let edges = square.edges();
    assert_eq!(edges.len(), 4);
    assert_eq!(edges[3], geom2::LineSegment(v(0.0, 1.0), v(0.0, 0.0)));
}

#[test]
fn arc_accessors() {
    let a = ArcVertex { point: v(0.0, 0.0), sagitta: r(0.5) };
    let b = ArcVertex { point: v(1.0, 0.0), sagitta: r(0.25) };
    let arc = geom2::Arc::from_vertices(&a, &b);
    assert_eq!(arc.points.0, a.point);
    assert_eq!(arc.points.1, b.point);
    assert_eq!(arc.sagitta, a.sagitta);
    let chord = arc.chord();
    assert_eq!(chord, geom2::LineSegment(a.point, b.point));

    let ap: ArcPolygon = Polygon::new(vec![a, b]);
    let straight = ap.as_polygon();
    assert_eq!(straight.vertices()[0], a.point);
    assert_eq!(straight.vertices()[1], b.point);
}
