//! The box surface generator.
//!
//! A box is described by its center, a per-axis scale, and a uniform color.
//! Its point cloud holds the eight corners first (top corners carry the `Up`
//! normal, bottom corners `Down`), then a dense fill of each of the six faces
//! in a fixed order, every sample tagged with the face's fixed outward normal.
//! Y grows downward, as on a raster.

use vstd::prelude::*;

use crate::color::{color_within, Color};
use crate::drawable::{sample_ok, samples_ok, Drawable, SAMPLE_LIMIT};
use crate::drawutil::{
    fill_horizontal, fill_horizontal_seq, fill_vertical, fill_vertical_seq,
    lemma_fill_horizontal_seq_bounded, lemma_fill_vertical_seq_bounded, pick_min,
};
use crate::fx::{
    fx_mul_spec, lemma_round_half_away_bound, round_half_away, vec3_within, Fx, Vec3, FX_HALF,
    FX_ONE,
};

verus! {

/// Largest raw coordinate magnitude accepted for a box's center and scale;
/// keeps every sample of the generated surface within `SAMPLE_LIMIT`.
pub const BOX_LIMIT: i64 = 0x10_0000_0000;

/// The six faces of a box.
#[derive(Clone, Copy, PartialEq, Eq, Structural)]
pub enum BoxFace {
    Up,
    Down,
    Left,
    Right,
    Front,
    Back,
}

/// The fixed unit outward normal of a face, in unrotated local space.
/// Y grows downward, so `Up` points toward negative Y.
pub open spec fn face_normal_spec(f: BoxFace) -> Vec3 {
    match f {
        BoxFace::Up => Vec3 { x: Fx { raw: 0 }, y: Fx { raw: (-FX_ONE) as i64 }, z: Fx { raw: 0 } },
        BoxFace::Down => Vec3 { x: Fx { raw: 0 }, y: Fx { raw: FX_ONE }, z: Fx { raw: 0 } },
        BoxFace::Left => Vec3 {
            x: Fx { raw: (-FX_ONE) as i64 },
            y: Fx { raw: 0 },
            z: Fx { raw: 0 },
        },
        BoxFace::Right => Vec3 { x: Fx { raw: FX_ONE }, y: Fx { raw: 0 }, z: Fx { raw: 0 } },
        BoxFace::Front => Vec3 {
            x: Fx { raw: 0 },
            y: Fx { raw: 0 },
            z: Fx { raw: (-FX_ONE) as i64 },
        },
        BoxFace::Back => Vec3 { x: Fx { raw: 0 }, y: Fx { raw: 0 }, z: Fx { raw: FX_ONE } },
    }
}

/// The fixed unit outward normal of a face.
pub fn face_normal(f: BoxFace) -> (n: Vec3)
    ensures
        n == face_normal_spec(f),
{
    match f {
        BoxFace::Up => Vec3 { x: Fx { raw: 0 }, y: Fx { raw: -FX_ONE }, z: Fx { raw: 0 } },
        BoxFace::Down => Vec3 { x: Fx { raw: 0 }, y: Fx { raw: FX_ONE }, z: Fx { raw: 0 } },
        BoxFace::Left => Vec3 { x: Fx { raw: -FX_ONE }, y: Fx { raw: 0 }, z: Fx { raw: 0 } },
        BoxFace::Right => Vec3 { x: Fx { raw: FX_ONE }, y: Fx { raw: 0 }, z: Fx { raw: 0 } },
        BoxFace::Front => Vec3 { x: Fx { raw: 0 }, y: Fx { raw: 0 }, z: Fx { raw: -FX_ONE } },
        BoxFace::Back => Vec3 { x: Fx { raw: 0 }, y: Fx { raw: 0 }, z: Fx { raw: FX_ONE } },
    }
}

/// The signed offset of a corner from the center along one axis: half the
/// scale, toward the high side if `hi`.
pub open spec fn half_off(hi: bool, s: int) -> int {
    if hi {
        fx_mul_spec(FX_HALF as int, s)
    } else {
        -fx_mul_spec(FX_HALF as int, s)
    }
}

/// One corner of the box: the unit-cube corner selected by the three flags,
/// recentered, scaled, and translated.
pub open spec fn corner_spec(pos: Vec3, scale: Vec3, hx: bool, hy: bool, hz: bool) -> Vec3 {
    Vec3 {
        x: Fx { raw: (pos.x.raw + half_off(hx, scale.x.raw as int)) as i64 },
        y: Fx { raw: (pos.y.raw + half_off(hy, scale.y.raw as int)) as i64 },
        z: Fx { raw: (pos.z.raw + half_off(hz, scale.z.raw as int)) as i64 },
    }
}

/// A fill's points tagged with a face normal.
pub open spec fn with_normal(s: Seq<(Vec3, Color)>, n: Vec3) -> Seq<(Vec3, Color, Vec3)> {
    s.map_values(|pc: (Vec3, Color)| (pc.0, pc.1, n))
}

/// The eight corners in draw order: top front-left, top front-right, top
/// back-left, top back-right, then the same four on the bottom. Top corners
/// carry the `Up` normal, bottom corners `Down`.
pub open spec fn corners_spec(pos: Vec3, scale: Vec3, color: Color) -> Seq<(Vec3, Color, Vec3)> {
    seq![
        (corner_spec(pos, scale, false, false, false), color, face_normal_spec(BoxFace::Up)),
        (corner_spec(pos, scale, true, false, false), color, face_normal_spec(BoxFace::Up)),
        (corner_spec(pos, scale, false, false, true), color, face_normal_spec(BoxFace::Up)),
        (corner_spec(pos, scale, true, false, true), color, face_normal_spec(BoxFace::Up)),
        (corner_spec(pos, scale, false, true, false), color, face_normal_spec(BoxFace::Down)),
        (corner_spec(pos, scale, true, true, false), color, face_normal_spec(BoxFace::Down)),
        (corner_spec(pos, scale, false, true, true), color, face_normal_spec(BoxFace::Down)),
        (corner_spec(pos, scale, true, true, true), color, face_normal_spec(BoxFace::Down)),
    ]
}

/// The full point cloud of a box: the eight corners, then the six face fills
/// in a fixed order (down, front, back, left, right, up).
pub open spec fn box_points_spec(pos: Vec3, scale: Vec3, color: Color) -> Seq<(Vec3, Color, Vec3)> {
    let tfl = corner_spec(pos, scale, false, false, false);
    let tfr = corner_spec(pos, scale, true, false, false);
    let tbl = corner_spec(pos, scale, false, false, true);
    let tbr = corner_spec(pos, scale, true, false, true);
    let bfl = corner_spec(pos, scale, false, true, false);
    let bfr = corner_spec(pos, scale, true, true, false);
    let bbl = corner_spec(pos, scale, false, true, true);
    let bbr = corner_spec(pos, scale, true, true, true);
    corners_spec(pos, scale, color) + with_normal(
        fill_horizontal_seq(bbr, bfl, color),
        face_normal_spec(BoxFace::Down),
    ) + with_normal(fill_vertical_seq(tfl, bfr, color), face_normal_spec(BoxFace::Front))
        + with_normal(fill_vertical_seq(tbl, bbr, color), face_normal_spec(BoxFace::Back))
        + with_normal(fill_vertical_seq(tfl, bbl, color), face_normal_spec(BoxFace::Left))
        + with_normal(fill_vertical_seq(tfr, bbr, color), face_normal_spec(BoxFace::Right))
        + with_normal(fill_horizontal_seq(tbr, tfl, color), face_normal_spec(BoxFace::Up))
}

/// The average of the first eight sample positions (fewer if the cloud is
/// shorter), divided by eight regardless; the zero vector for an empty cloud.
pub open spec fn centroid8(pts: Seq<(Vec3, Color, Vec3)>) -> Vec3 {
    if pts.len() == 0 {
        Vec3 { x: Fx { raw: 0 }, y: Fx { raw: 0 }, z: Fx { raw: 0 } }
    } else {
        let k = pick_min(8, pts.len() as int);
        Vec3 {
            x: Fx { raw: round_half_away(sum_coord(pts, k, |v: Vec3| v.x.raw as int), 8) as i64 },
            y: Fx { raw: round_half_away(sum_coord(pts, k, |v: Vec3| v.y.raw as int), 8) as i64 },
            z: Fx { raw: round_half_away(sum_coord(pts, k, |v: Vec3| v.z.raw as int), 8) as i64 },
        }
    }
}

/// The sum of one coordinate over the first `k` sample positions.
pub open spec fn sum_coord(pts: Seq<(Vec3, Color, Vec3)>, k: int, f: spec_fn(Vec3) -> int) -> int
    decreases k,
{
    if k <= 0 {
        0
    } else {
        sum_coord(pts, k - 1, f) + f(pts[k - 1].0)
    }
}

/// A box shape: its point cloud, center, and scale. Built once; the renderer
/// only ever reads it.
pub struct BoxShape {
    pub points: Vec<(Vec3, Color, Vec3)>,
    pub pos: Vec3,
    pub scale: Vec3,
}

impl BoxShape {
    /// Generates the box's surface: eight corners, then the six face fills.
    pub fn new(pos: Vec3, scale: Vec3, color: Color) -> (s: BoxShape)
        requires
            vec3_within(pos, BOX_LIMIT as int),
            vec3_within(scale, BOX_LIMIT as int),
            color_within(color, SAMPLE_LIMIT as int),
        ensures
            s.points@ == box_points_spec(pos, scale, color),
            s.pos == pos,
            s.scale == scale,
            s.wf(),
    {
        proof {
            lemma_round_half_away_bound(
                FX_HALF as int * scale.x.raw as int,
                FX_ONE as int,
                FX_HALF as int * BOX_LIMIT as int,
            );
            lemma_round_half_away_bound(
                FX_HALF as int * scale.y.raw as int,
                FX_ONE as int,
                FX_HALF as int * BOX_LIMIT as int,
            );
            lemma_round_half_away_bound(
                FX_HALF as int * scale.z.raw as int,
                FX_ONE as int,
                FX_HALF as int * BOX_LIMIT as int,
            );
        }
        let half = Fx { raw: FX_HALF };
        let hx = half.mul(scale.x);
        let hy = half.mul(scale.y);
        let hz = half.mul(scale.z);
        let up = face_normal(BoxFace::Up);
        let down = face_normal(BoxFace::Down);
        let tfl = Vec3 { x: pos.x.sub(hx), y: pos.y.sub(hy), z: pos.z.sub(hz) };
        let tfr = Vec3 { x: pos.x.add(hx), y: pos.y.sub(hy), z: pos.z.sub(hz) };
        let tbl = Vec3 { x: pos.x.sub(hx), y: pos.y.sub(hy), z: pos.z.add(hz) };
        let tbr = Vec3 { x: pos.x.add(hx), y: pos.y.sub(hy), z: pos.z.add(hz) };
        let bfl = Vec3 { x: pos.x.sub(hx), y: pos.y.add(hy), z: pos.z.sub(hz) };
        let bfr = Vec3 { x: pos.x.add(hx), y: pos.y.add(hy), z: pos.z.sub(hz) };
        let bbl = Vec3 { x: pos.x.sub(hx), y: pos.y.add(hy), z: pos.z.add(hz) };
        let bbr = Vec3 { x: pos.x.add(hx), y: pos.y.add(hy), z: pos.z.add(hz) };
        let mut points: Vec<(Vec3, Color, Vec3)> = Vec::new();
        points.push((tfl, color, up));
        points.push((tfr, color, up));
        points.push((tbl, color, up));
        points.push((tbr, color, up));
        points.push((bfl, color, down));
        points.push((bfr, color, down));
        points.push((bbl, color, down));
        points.push((bbr, color, down));
        proof {
            assert(points@ =~= corners_spec(pos, scale, color));
        }
        let seg_down = fill_horizontal(bbr, bfl, color);
        push_with_normal(&mut points, &seg_down, down);
        let seg_front = fill_vertical(tfl, bfr, color);
        push_with_normal(&mut points, &seg_front, face_normal(BoxFace::Front));
        let seg_back = fill_vertical(tbl, bbr, color);
        push_with_normal(&mut points, &seg_back, face_normal(BoxFace::Back));
        let seg_left = fill_vertical(tfl, bbl, color);
        push_with_normal(&mut points, &seg_left, face_normal(BoxFace::Left));
        let seg_right = fill_vertical(tfr, bbr, color);
        push_with_normal(&mut points, &seg_right, face_normal(BoxFace::Right));
        let seg_up = fill_horizontal(tbr, tfl, color);
        push_with_normal(&mut points, &seg_up, up);
        proof {
            lemma_box_points_bounded(pos, scale, color);
        }
        BoxShape { points, pos, scale }
    }
}

/// Appends a fill's points to a point cloud, tagging each with a face normal.
fn push_with_normal(pts: &mut Vec<(Vec3, Color, Vec3)>, seg: &Vec<(Vec3, Color)>, normal: Vec3)
    ensures
        final(pts)@ == old(pts)@ + with_normal(seg@, normal),
{
    let mut j: usize = 0;
    while j < seg.len()
        invariant
            j <= seg@.len(),
            pts@ == old(pts)@ + with_normal(seg@.take(j as int), normal),
        decreases seg@.len() - j,
    {
        let (p, c) = seg[j];
        pts.push((p, c, normal));
        proof {
            assert(seg@.take(j + 1).map_values(|pc: (Vec3, Color)| (pc.0, pc.1, normal))
                =~= seg@.take(j as int).map_values(|pc: (Vec3, Color)| (pc.0, pc.1, normal)).push(
                (seg@[j as int].0, seg@[j as int].1, normal),
            ));
            assert(pts@ =~= old(pts)@ + with_normal(seg@.take(j + 1), normal));
        }
        j = j + 1;
    }
    proof {
        assert(seg@.take(seg@.len() as int) =~= seg@);
    }
}

/// Every sample of a generated box surface is within the renderer's bounds.
proof fn lemma_box_points_bounded(pos: Vec3, scale: Vec3, color: Color)
    requires
        vec3_within(pos, BOX_LIMIT as int),
        vec3_within(scale, BOX_LIMIT as int),
        color_within(color, SAMPLE_LIMIT as int),
    ensures
        samples_ok(box_points_spec(pos, scale, color)),
{
    lemma_round_half_away_bound(
        FX_HALF as int * scale.x.raw as int,
        FX_ONE as int,
        FX_HALF as int * BOX_LIMIT as int,
    );
    lemma_round_half_away_bound(
        FX_HALF as int * scale.y.raw as int,
        FX_ONE as int,
        FX_HALF as int * BOX_LIMIT as int,
    );
    lemma_round_half_away_bound(
        FX_HALF as int * scale.z.raw as int,
        FX_ONE as int,
        FX_HALF as int * BOX_LIMIT as int,
    );
    let m: int = 0x20_0000;
    let tfl = corner_spec(pos, scale, false, false, false);
    let tfr = corner_spec(pos, scale, true, false, false);
    let tbl = corner_spec(pos, scale, false, false, true);
    let tbr = corner_spec(pos, scale, true, false, true);
    let bfl = corner_spec(pos, scale, false, true, false);
    let bfr = corner_spec(pos, scale, true, true, false);
    let bbl = corner_spec(pos, scale, false, true, true);
    let bbr = corner_spec(pos, scale, true, true, true);
    lemma_fill_horizontal_seq_bounded(bbr, bfl, color, m);
    lemma_fill_vertical_seq_bounded(tfl, bfr, color, m);
    lemma_fill_vertical_seq_bounded(tbl, bbr, color, m);
    lemma_fill_vertical_seq_bounded(tfl, bbl, color, m);
    lemma_fill_vertical_seq_bounded(tfr, bbr, color, m);
    lemma_fill_horizontal_seq_bounded(tbr, tfl, color, m);
    let pts = box_points_spec(pos, scale, color);
    assert forall|i: int| 0 <= i < pts.len() implies #[trigger] sample_ok(pts[i]) by {
        let s0 = corners_spec(pos, scale, color);
        let s1 = s0 + with_normal(
            fill_horizontal_seq(bbr, bfl, color),
            face_normal_spec(BoxFace::Down),
        );
        let s2 = s1 + with_normal(fill_vertical_seq(tfl, bfr, color), face_normal_spec(BoxFace::Front));
        let s3 = s2 + with_normal(fill_vertical_seq(tbl, bbr, color), face_normal_spec(BoxFace::Back));
        let s4 = s3 + with_normal(fill_vertical_seq(tfl, bbl, color), face_normal_spec(BoxFace::Left));
        let s5 = s4 + with_normal(
            fill_vertical_seq(tfr, bbr, color),
            face_normal_spec(BoxFace::Right),
        );
        if i < s0.len() {
        } else if i < s1.len() {
            assert(pts[i] == with_normal(
                fill_horizontal_seq(bbr, bfl, color),
                face_normal_spec(BoxFace::Down),
            )[i - s0.len()]);
        } else if i < s2.len() {
            assert(pts[i] == with_normal(
                fill_vertical_seq(tfl, bfr, color),
                face_normal_spec(BoxFace::Front),
            )[i - s1.len()]);
        } else if i < s3.len() {
            assert(pts[i] == with_normal(
                fill_vertical_seq(tbl, bbr, color),
                face_normal_spec(BoxFace::Back),
            )[i - s2.len()]);
        } else if i < s4.len() {
            assert(pts[i] == with_normal(
                fill_vertical_seq(tfl, bbl, color),
                face_normal_spec(BoxFace::Left),
            )[i - s3.len()]);
        } else if i < s5.len() {
            assert(pts[i] == with_normal(
                fill_vertical_seq(tfr, bbr, color),
                face_normal_spec(BoxFace::Right),
            )[i - s4.len()]);
        } else {
            assert(pts[i] == with_normal(
                fill_horizontal_seq(tbr, tfl, color),
                face_normal_spec(BoxFace::Up),
            )[i - s5.len()]);
        }
    }
}

/// Rounds the quotient `v / 8` to the nearest integer, ties away from zero.
fn div_round8(v: i64) -> (r: i64)
    requires
        -0x4000_0000_0000_0000 <= v <= 0x4000_0000_0000_0000,
    ensures
        r == round_half_away(v as int, 8),
{
    if v >= 0 {
        (((v as u64) + 4) / 8) as i64
    } else {
        -(((((-v) as u64) + 4) / 8) as i64)
    }
}

impl Drawable for BoxShape {
    /// What the renderer relies on: every sample within bounds.
    open spec fn wf(&self) -> bool {
        samples_ok(self.points@)
    }

    open spec fn points_spec(&self) -> Seq<(Vec3, Color, Vec3)> {
        self.points@
    }

    /// The average of the first eight sample positions: the box's center.
    open spec fn origin_spec(&self) -> Vec3 {
        centroid8(self.points@)
    }

    fn get_points(&self) -> (pts: &Vec<(Vec3, Color, Vec3)>) {
        &self.points
    }

    fn get_origin(&self) -> (o: Vec3) {
        if self.points.len() == 0 {
            return Vec3 { x: Fx { raw: 0 }, y: Fx { raw: 0 }, z: Fx { raw: 0 } };
        }
        let mut sx: i64 = 0;
        let mut sy: i64 = 0;
        let mut sz: i64 = 0;
        let mut i: usize = 0;
        while i < 8 && i < self.points.len()
            invariant
                samples_ok(self.points@),
                i <= 8,
                i <= self.points@.len(),
                sx as int == sum_coord(self.points@, i as int, |v: Vec3| v.x.raw as int),
                sy as int == sum_coord(self.points@, i as int, |v: Vec3| v.y.raw as int),
                sz as int == sum_coord(self.points@, i as int, |v: Vec3| v.z.raw as int),
                -(i as int) * SAMPLE_LIMIT <= sx as int <= (i as int) * SAMPLE_LIMIT,
                -(i as int) * SAMPLE_LIMIT <= sy as int <= (i as int) * SAMPLE_LIMIT,
                -(i as int) * SAMPLE_LIMIT <= sz as int <= (i as int) * SAMPLE_LIMIT,
            decreases 8 - i,
        {
            assert(sample_ok(self.points@[i as int]));
            let (p, _, _) = self.points[i];
            sx = sx + p.x.raw;
            sy = sy + p.y.raw;
            sz = sz + p.z.raw;
            i = i + 1;
        }
        assert(i as int == pick_min(8, self.points@.len() as int));
        Vec3 { x: Fx { raw: div_round8(sx) }, y: Fx { raw: div_round8(sy) }, z: Fx { raw: div_round8(sz) } }
    }
}

/// The centroid of a generated box surface is exactly the center it was built
/// with, whatever the scale: the eight corners lie symmetrically around it.
pub proof fn lemma_origin_is_center(pos: Vec3, scale: Vec3, color: Color)
    requires
        vec3_within(pos, BOX_LIMIT as int),
        vec3_within(scale, BOX_LIMIT as int),
    ensures
        centroid8(box_points_spec(pos, scale, color)) == pos,
{
    let pts = box_points_spec(pos, scale, color);
    let s0 = corners_spec(pos, scale, color);
    assert(pts.len() >= 8);
    assert forall|i: int| 0 <= i < 8 implies pts[i] == s0[i] by {}
    let fxs = |v: Vec3| v.x.raw as int;
    let fys = |v: Vec3| v.y.raw as int;
    let fzs = |v: Vec3| v.z.raw as int;
    lemma_sum8(pts, fxs);
    lemma_sum8(pts, fys);
    lemma_sum8(pts, fzs);
    assert(sum_coord(pts, 8, fxs) == 8 * pos.x.raw);
    assert(sum_coord(pts, 8, fys) == 8 * pos.y.raw);
    assert(sum_coord(pts, 8, fzs) == 8 * pos.z.raw);
    lemma_round_eighth_exact(pos.x.raw as int);
    lemma_round_eighth_exact(pos.y.raw as int);
    lemma_round_eighth_exact(pos.z.raw as int);
}

/// Unfolds the coordinate sum over the first eight samples.
proof fn lemma_sum8(pts: Seq<(Vec3, Color, Vec3)>, f: spec_fn(Vec3) -> int)
    requires
        pts.len() >= 8,
    ensures
        sum_coord(pts, 8, f) == f(pts[0].0) + f(pts[1].0) + f(pts[2].0) + f(pts[3].0) + f(pts[4].0)
            + f(pts[5].0) + f(pts[6].0) + f(pts[7].0),
{
    assert(sum_coord(pts, 0, f) == 0);
    assert(sum_coord(pts, 1, f) == sum_coord(pts, 0, f) + f(pts[0].0));
    assert(sum_coord(pts, 2, f) == sum_coord(pts, 1, f) + f(pts[1].0));
    assert(sum_coord(pts, 3, f) == sum_coord(pts, 2, f) + f(pts[2].0));
    assert(sum_coord(pts, 4, f) == sum_coord(pts, 3, f) + f(pts[3].0));
    assert(sum_coord(pts, 5, f) == sum_coord(pts, 4, f) + f(pts[4].0));
    assert(sum_coord(pts, 6, f) == sum_coord(pts, 5, f) + f(pts[5].0));
    assert(sum_coord(pts, 7, f) == sum_coord(pts, 6, f) + f(pts[6].0));
    assert(sum_coord(pts, 8, f) == sum_coord(pts, 7, f) + f(pts[7].0));
}

/// An exact multiple of eight divides back to the factor, whatever its sign.
proof fn lemma_round_eighth_exact(p: int)
    ensures
        round_half_away(8 * p, 8) == p,
{
    if p >= 0 {
        vstd::arithmetic::div_mod::lemma_fundamental_div_mod_converse_div(8 * p + 4, 8, p, 4);
    } else {
        vstd::arithmetic::div_mod::lemma_fundamental_div_mod_converse_div(-(8 * p) + 4, 8, -p, 4);
    }
}

} // verus!
