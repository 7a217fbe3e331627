//! The capability every renderable shape offers: read access to its point
//! cloud and to its centroid.

use vstd::prelude::*;

use crate::color::{color_within, Color};
use crate::fx::{vec3_within, Vec3, FX_ONE};

verus! {

/// Largest raw coordinate magnitude a well-formed point sample may hold;
/// small enough that the per-frame transform pipeline cannot overflow.
pub const SAMPLE_LIMIT: i64 = 0x20_0000_0000;

/// A point sample: position, color, and outward face normal. The normal is at
/// most a unit vector, componentwise.
pub open spec fn sample_ok(s: (Vec3, Color, Vec3)) -> bool {
    vec3_within(s.0, SAMPLE_LIMIT as int) && color_within(s.1, SAMPLE_LIMIT as int) && vec3_within(
        s.2,
        FX_ONE as int,
    )
}

/// All samples of a point cloud are within bounds.
pub open spec fn samples_ok(s: Seq<(Vec3, Color, Vec3)>) -> bool {
    forall|i: int| 0 <= i < s.len() ==> #[trigger] sample_ok(s[i])
}

/// Uniform read access to a shape's point cloud and centroid, so the
/// compositor is shape-agnostic.
pub trait Drawable: Sized {
    /// Well-formedness: what the renderer relies on of a shape.
    spec fn wf(&self) -> bool;

    /// The point samples this shape draws, in draw order.
    spec fn points_spec(&self) -> Seq<(Vec3, Color, Vec3)>;

    /// The centroid this shape reports.
    spec fn origin_spec(&self) -> Vec3;

    /// The shape's point samples, in draw order.
    fn get_points(&self) -> (pts: &Vec<(Vec3, Color, Vec3)>)
        requires
            self.wf(),
        ensures
            pts@ == self.points_spec(),
            samples_ok(pts@),
    ;

    /// The shape's centroid.
    fn get_origin(&self) -> (o: Vec3)
        requires
            self.wf(),
        ensures
            o == self.origin_spec(),
    ;
}

} // verus!
