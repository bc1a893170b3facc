//! A 2D computational-geometry kernel over fixed-point coordinates:
//! lines, segments, circles, disks, circular-arc segments, half-planes and
//! polygons, with point containment by winding number, geometric moments
//! (area and centroid) and pairwise intersection, all under a single
//! tolerance of one raw unit.
//!
//! Coordinates are integers counting raw units, `num::SCALE` of them to one
//! coordinate unit; every operation states its result exactly over that
//! integer model.

use vstd::prelude::*;

pub mod arc;
pub mod arcpoly;
pub mod circle;
pub mod clip;
pub mod laws;
pub mod line;
pub mod moment;
pub mod num;
pub mod plane;
pub mod polygon;
pub mod trig;
pub mod vec2;

pub use crate::arc::{Arc, ArcVertex, DiskSegment};
pub use crate::circle::{Circle, Disk, DiskCut, DiskOverlap};
pub use crate::line::{Line, LineSegment};
pub use crate::moment::Moment;
pub use crate::num::{COORD_LIMIT, EPS, SCALE};
pub use crate::plane::HalfPlane;
pub use crate::polygon::{ArcPolygon, Polygon};
pub use crate::vec2::Vec2;

verus! {

/// Intersection of two figures.
pub trait Intersect<T> {
    type Output;

    /// Both operands are within the kernel's coordinate range.
    spec fn compatible(&self, other: &T) -> bool;

    fn intersect(&self, other: &T) -> (r: Option<Self::Output>)
        requires
            self.compatible(other),
    ;
}

/// Intersection of two figures where the resulting figure type is chosen
/// by the caller.
pub trait IntersectTo<T, U> {
    /// Both operands are within the kernel's coordinate range.
    spec fn compatible_to(&self, other: &T) -> bool;

    fn intersect_to(&self, other: &T) -> (r: Option<U>)
        requires
            self.compatible_to(other),
    ;
}

impl<U: Intersect<V, Output = W>, V, W> IntersectTo<V, W> for U {
    open spec fn compatible_to(&self, other: &V) -> bool {
        self.compatible(other)
    }

    fn intersect_to(&self, other: &V) -> (r: Option<W>) {
        self.intersect(other)
    }
}

} // verus!
