//! Circle, disk and disk-segment behaviour: containment, moments and the
//! half-plane and disk intersections, in raw units.

use geom2::{
    Arc, Circle, Disk, DiskCut, DiskOverlap, DiskSegment, HalfPlane, Intersect, Moment, Vec2,
};

const R: f64 = 1.234;

fn r(x: f64) -> i64 {
    (x * 1_000_000.0).round() as i64
}

fn v(x: f64, y: f64) -> Vec2 {
    Vec2::new(r(x), r(y))
}

#[test]
fn circle_contains() {
    let disk = Disk::new(v(0.0, 0.0), r(1.0));

    assert!(disk.contains(disk.center));

    assert!(disk.contains(v(0.5, 0.0)));
    assert!(disk.contains(v(0.0, 0.5)));
    assert!(disk.contains(v(0.3, 0.4)));

    assert!(!disk.contains(v(1.5, 0.0)));
    assert!(!disk.contains(v(0.0, 1.5)));
    assert!(!disk.contains(v(0.9, 0.9)));
}

#[test]
fn intersect_half_plane_outside() {
    // boundary at x = 2, inside x >= 2: the unit disk at the origin is out
    let disk = Disk::new(v(0.0, 0.0), r(1.0));
    let half_plane = HalfPlane::from_normal(v(2.0, 0.0), v(-1.0, 0.0));
    assert!(disk.intersect(&half_plane).is_none());
}

#[test]
fn intersect_half_plane_inside() {
    // boundary at x = -2, inside x >= -2: the unit disk lies fully inside
    let disk = Disk::new(v(0.0, 0.0), r(1.0));
    let half_plane = HalfPlane::from_normal(v(-2.0, 0.0), v(-1.0, 0.0));
    match disk.intersect(&half_plane) {
        Some(DiskCut::Whole(returned_disk)) => {
            assert_eq!(returned_disk, disk);
        }
        _ => panic!("expected the disk to lie fully inside the half-plane"),
    }
}

#[test]
fn intersect_half_plane_intersecting() {
    // boundary at x = 0.5, inside x >= 0.5: the cap beyond it remains
    let disk = Disk::new(v(0.0, 0.0), r(1.0));
    let half_plane = HalfPlane::from_normal(v(0.5, 0.0), v(-1.0, 0.0));
    match disk.intersect(&half_plane) {
        Some(DiskCut::Segment(seg)) => {
            let arc = seg.0;
            assert!((arc.points.0.y + arc.points.1.y).abs() <= 2);
            assert!((arc.points.0.x - arc.points.1.x).abs() <= 2);
            let mid_x = (arc.points.0.x + arc.points.1.x) / 2;
            let mid_y = (arc.points.0.y + arc.points.1.y) / 2;
            assert!((mid_x - r(0.5)).abs() <= 2);
            assert!(mid_y.abs() <= 2);
            assert!((arc.sagitta - r(0.5)).abs() <= 2);
            let expected_h = r((1.0f64 - 0.25).sqrt());
            assert!(((arc.points.1.y - arc.points.0.y).abs() / 2 - expected_h).abs() <= 2);
        }
        _ => panic!("expected the disk to meet the half-plane in a segment"),
    }
}

#[test]
fn intersect_half_plane_tangent() {
    // boundary at x = 1, inside x >= 1: the disk only touches the boundary
    let disk = Disk::new(v(0.0, 0.0), r(1.0));
    let half_plane = HalfPlane::from_normal(v(1.0, 0.0), v(-1.0, 0.0));
    match disk.intersect(&half_plane) {
        Some(DiskCut::Segment(seg)) => {
            let arc = seg.0;
            assert!((arc.points.0.x - arc.points.1.x).abs() <= 2);
            assert!((arc.points.0.y - arc.points.1.y).abs() <= 2);
            assert!(arc.sagitta.abs() <= 2);
        }
        _ => panic!("expected the tangent cut to produce a degenerate segment"),
    }
}

#[test]
fn intersect_half_plane_negative_apothem() {
    // boundary at x = -1, inside x >= -1: the center is inside, the cut
    // leaves more than half the disk
    let disk = Disk::new(v(0.0, 0.0), r(2.0));
    let half_plane = HalfPlane::from_normal(v(-1.0, 0.0), v(-1.0, 0.0));
    match disk.intersect(&half_plane) {
        Some(DiskCut::Segment(seg)) => {
            let arc = seg.0;
            assert!((arc.points.0.y + arc.points.1.y).abs() <= 2);
            assert!((arc.points.0.x - arc.points.1.x).abs() <= 2);
            let mid_x = (arc.points.0.x + arc.points.1.x) / 2;
            assert!((mid_x - r(-1.0)).abs() <= 2);
            assert!((arc.sagitta - r(3.0)).abs() <= 2);
            let expected_h = r(3.0f64.sqrt());
            assert!(((arc.points.1.y - arc.points.0.y).abs() / 2 - expected_h).abs() <= 2);
        }
        _ => panic!("expected the disk to meet the half-plane in a segment"),
    }
}

#[test]
fn intersect_disk_no_intersection() {
    let disk1 = Disk::new(v(0.0, 0.0), r(1.0));
    let disk2 = Disk::new(v(3.0, 0.0), r(1.0));
    assert!(disk1.intersect(&disk2).is_none());
    assert!(disk2.intersect(&disk1).is_none());
}

#[test]
fn intersect_disk_inside() {
    let disk1 = Disk::new(v(0.0, 0.0), r(2.0));
    let disk2 = Disk::new(v(0.5, 0.0), r(1.0));
    match disk1.intersect(&disk2) {
        Some(DiskOverlap::Whole(smaller_disk)) => {
            assert_eq!(smaller_disk, disk2);
        }
        _ => panic!("expected the smaller disk inside the larger one"),
    }

    match disk2.intersect(&disk1) {
        Some(DiskOverlap::Whole(smaller_disk)) => {
            assert_eq!(smaller_disk, disk2);
        }
        _ => panic!("expected the same result with the operands swapped"),
    }
}

#[test]
fn intersect_disk_intersecting() {
    let disk1 = Disk::new(v(0.0, 0.0), r(2.0));
    let disk2 = Disk::new(v(3.0, 0.0), r(2.0));
    match disk1.intersect(&disk2) {
        Some(DiskOverlap::Lens(polygon)) => {
            let vertices = polygon.vertices();
            assert_eq!(vertices.len(), 2);

            let v0 = vertices[0];
            let v1 = vertices[1];

            assert!((v0.point.y + v1.point.y).abs() <= 2);
            assert!((v0.point.x - v1.point.x).abs() <= 2);
            assert!((v0.point.x - r(1.5)).abs() <= 2);

            let expected_y = r((4.0f64 - 2.25).sqrt());
            assert!((v0.point.y.abs() - expected_y).abs() <= 2);

            assert!((v0.sagitta - v1.sagitta).abs() <= 2);
            assert!(v0.sagitta > 0);
        }
        _ => panic!("expected the disks to overlap in a lens"),
    }

    match disk2.intersect(&disk1) {
        Some(DiskOverlap::Lens(polygon)) => {
            assert_eq!(polygon.vertices().len(), 2);
        }
        _ => panic!("expected the same case with the operands swapped"),
    }
}

#[test]
fn intersect_disk_tangent() {
    // tangent disks: a degenerate two-vertex lens at the touch point
    let disk1 = Disk::new(v(0.0, 0.0), r(1.0));
    let disk2 = Disk::new(v(2.0, 0.0), r(1.0));
    match disk1.intersect(&disk2) {
        Some(DiskOverlap::Lens(polygon)) => {
            let vertices = polygon.vertices();
            assert_eq!(vertices.len(), 2);

            let v0 = vertices[0];
            let v1 = vertices[1];
            assert!((v0.point.x - v1.point.x).abs() <= 2);
            assert!((v0.point.y - v1.point.y).abs() <= 2);
            assert!((v0.point.x - r(1.0)).abs() <= 2);
            assert!(v0.point.y.abs() <= 2);

            assert!(v0.sagitta.abs() <= 2);
            assert!(v1.sagitta.abs() <= 2);
        }
        _ => panic!("expected a degenerate lens at the touch point"),
    }
}

#[test]
fn intersect_disk_concentric() {
    let disk1 = Disk::new(v(0.0, 0.0), r(2.0));
    let disk2 = Disk::new(v(0.0, 0.0), r(1.0));
    match disk1.intersect(&disk2) {
        Some(DiskOverlap::Whole(smaller_disk)) => {
            assert_eq!(smaller_disk, disk2);
        }
        _ => panic!("expected the smaller concentric disk"),
    }
}

#[test]
fn intersect_disk_negative_apothem() {
    // the chord lies on the far side of the smaller disk's center
    let disk1 = Disk::new(v(0.0, 0.0), r(1.0));
    let disk2 = Disk::new(v(1.5, 0.0), r(2.0));
    let result = disk1.intersect(&disk2);
    match &result {
        Some(DiskOverlap::Lens(polygon)) => {
            let vertices = polygon.vertices();
            assert_eq!(vertices.len(), 2);

            let v0 = vertices[0];
            let v1 = vertices[1];

            assert!((v0.point.y + v1.point.y).abs() <= 2);

            let expected_mid = r(-0.25);
            let actual_mid = (v0.point.x + v1.point.x) / 2;
            assert!((actual_mid - expected_mid).abs() <= 2);

            let expected_h = r((1.0f64 - 0.0625).sqrt());
            assert!(((v1.point.y - v0.point.y).abs() / 2 - expected_h).abs() <= 2);

            assert!((v0.sagitta - r(1.25)).abs() <= 2);
            assert!((v1.sagitta - r(0.25)).abs() <= 2);

            assert!((v0.point.x - r(-0.25)).abs() <= 2);
            assert!((v1.point.x - r(-0.25)).abs() <= 2);
            assert!((v0.point.y + expected_h).abs() <= 2);
            assert!((v1.point.y - expected_h).abs() <= 2);
        }
        _ => panic!("expected the disks to overlap in a lens"),
    }

    // swapping the operands yields the same region: equal moments
    match (disk2.intersect(&disk1), result) {
        (Some(DiskOverlap::Lens(p2)), Some(DiskOverlap::Lens(p1))) => {
            let m1 = p1.moment();
            let m2 = p2.moment();
            assert!((m1.area - m2.area).abs() <= 50);
            assert!((m1.centroid.x - m2.centroid.x).abs() <= 50);
            assert!((m1.centroid.y - m2.centroid.y).abs() <= 50);
        }
        _ => panic!("expected the same case with the operands swapped"),
    }
}

#[test]
fn arc_empty_segment() {
    let Moment { area, centroid } = DiskSegment(Arc {
        points: (v(0.0, 0.0), v(0.0, 0.0)),
        sagitta: 0,
    })
    .moment();

    assert_eq!(area, 0);
    assert_eq!(centroid, Vec2::new(0, 0));
}

#[test]
fn arc_full_segment() {
    // a zero chord with sagitta 2R closes into the whole disk
    let Moment { area, centroid } = DiskSegment(Arc {
        points: (v(0.0, 0.0), v(0.0, 0.0)),
        sagitta: r(2.0 * R),
    })
    .moment();

    let expected = r(std::f64::consts::PI * R * R);
    assert!((area - expected).abs() <= 3);
    assert!(centroid.x.abs() <= 3);
    assert!((centroid.y - r(R)).abs() <= 3);
}

#[test]
fn arc_half_segment() {
    let area = DiskSegment(Arc {
        points: (v(R, 0.0), v(-R, 0.0)),
        sagitta: r(R),
    })
    .moment()
    .area;
    let expected = r(std::f64::consts::PI * R * R / 2.0);
    assert!((area - expected).abs() <= 5);
}

#[test]
fn arc_segment_contains() {
    let segment = DiskSegment(Arc {
        points: (v(4.0, 1.0), v(1.0, 1.0)),
        sagitta: r(4.0),
    });

    assert!(!segment.contains(v(2.5, 5.01)));
    assert!(segment.contains(v(2.5, 4.99)));

    assert!(segment.contains(v(2.5, 1.01)));
    assert!(!segment.contains(v(2.5, 0.99)));
}

#[test]
fn arc_numerical_segment() {
    // sweep a unit circle's segments and compare against a numerically
    // integrated reference
    let f = |x: f64| 2.0 * (1.0 - (1.0 - x).powi(2)).sqrt();

    let mut x: f64 = 0.0;
    let dx: f64 = 1e-5;

    let (mut area, mut moment) = (0.0f64, 0.0f64);

    let check_step = 1e-2;
    let mut last_check = 0.0;
    while x < 2.0 {
        let d_area = 0.5 * (f(x) + f(x + dx)) * dx;
        area += d_area;
        moment += d_area * (x + 0.5 * dx);
        if x >= last_check + check_step {
            last_check = x;
            let y = (1.0 - (1.0 - x).powi(2)).sqrt();
            let ref_segment = DiskSegment(Arc {
                points: (v(x, y), v(x, -y)),
                sagitta: r(x),
            });
            let m = ref_segment.moment();
            assert!((m.area - r(area)).abs() <= 200, "area at {}", x);
            assert!((m.centroid.x - r(moment / area)).abs() <= 400, "centroid at {}", x);
            assert!(m.centroid.y.abs() <= 400);
        }
        x += dx;
    }
}

#[test]
fn disk_area_exactness() {
    // the area of a disk of radius 1.234 is pi r^2 to within one millionth
    let disk = Disk::new(v(0.0, 0.0), r(R));
    let area = disk.moment().area;
    let expected = r(std::f64::consts::PI * R * R);
    assert!((area - expected).abs() <= 1);
    assert_eq!(disk.moment().centroid, v(0.0, 0.0));
}

#[test]
fn circle_fill_and_edge() {
    let circle = Circle { center: v(1.0, 2.0), radius: r(0.5) };
    let disk = circle.fill();
    assert_eq!(disk.center, circle.center);
    assert_eq!(disk.radius, circle.radius);
    let back = disk.edge();
    assert_eq!(back.center, circle.center);
    assert_eq!(back.radius, circle.radius);
    assert!(circle.contains(v(1.2, 2.2)));
    assert!(!circle.contains(v(2.0, 2.0)));
}

#[test]
fn circle_line_crossings() {
    // a horizontal line through a unit circle: crossings ordered along it
    let circle = Circle { center: v(0.5, 0.0), radius: r(1.0) };
    let line = geom2::Line(v(0.0, 0.0), v(1.0, 0.0));
    match circle.intersect(&line) {
        Some((p0, p1)) => {
            assert!((p0.x - r(-0.5)).abs() <= 2 && p0.y.abs() <= 2);
            assert!((p1.x - r(1.5)).abs() <= 2 && p1.y.abs() <= 2);
        }
        None => panic!("expected two crossings"),
    }

    // the same crossings through a bounded segment: only those on it
    let seg = geom2::LineSegment(v(0.0, 0.0), v(2.0, 0.0));
    match circle.intersect(&seg) {
        Some((o0, o1)) => {
            assert!(o0.is_none());
            let p1 = o1.unwrap();
            assert!((p1.x - r(1.5)).abs() <= 2 && p1.y.abs() <= 2);
        }
        None => panic!("expected the carrying line to cross"),
    }
}

#[test]
fn moment_merge() {
    let moment1 = Moment { area: r(10.0), centroid: v(1.0, 2.0) };
    let moment2 = Moment { area: r(20.0), centroid: v(3.0, 4.0) };

    let merged = moment1.merge(moment2);

    assert_eq!(merged.area, r(30.0));

    // weighted average of the centroids
    let ex = (1.0 * 10.0 + 3.0 * 20.0) / 30.0;
    let ey = (2.0 * 10.0 + 4.0 * 20.0) / 30.0;
    assert!((merged.centroid.x - r(ex)).abs() <= 1);
    assert!((merged.centroid.y - r(ey)).abs() <= 1);

    let zero_moment = Moment { area: 0, centroid: v(100.0, 200.0) };
    let merged_with_zero = moment1.merge(zero_moment);
    assert_eq!(merged_with_zero.area, moment1.area);
    assert_eq!(merged_with_zero.centroid, moment1.centroid);

    let zero_moment2 = Moment { area: 0, centroid: v(300.0, 400.0) };
    let zero_merged = zero_moment.merge(zero_moment2);
    assert_eq!(zero_merged.area, 0);
    assert_eq!(zero_merged.centroid, Vec2::new(0, 0));
}

#[test]
fn moment_merge_commutative() {
    let a = Moment { area: r(3.5), centroid: v(1.0, -2.0) };
    let b = Moment { area: r(1.5), centroid: v(-4.0, 5.0) };
    assert_eq!(a.merge(b), b.merge(a));
}
