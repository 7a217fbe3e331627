//! Rasterizer and box-generator behavior on concrete values.

use topdown::boxshape::{face_normal, BoxFace, BoxShape};
use topdown::drawable::Drawable;
use topdown::drawutil::{fill_vertical, lattice_line, set_line, LatticePoint};
use topdown::color::Color;
use topdown::fx::{Fx, Vec3, FX_ONE};

fn fxi(v: i64) -> Fx {
    Fx { raw: v * FX_ONE }
}

fn v3i(x: i64, y: i64, z: i64) -> Vec3 {
    Vec3 { x: fxi(x), y: fxi(y), z: fxi(z) }
}

fn v3raw(x: i64, y: i64, z: i64) -> Vec3 {
    Vec3 { x: Fx { raw: x }, y: Fx { raw: y }, z: Fx { raw: z } }
}

fn white() -> Color {
    Color::white()
}

#[test]
fn box_corners_are_center_plus_half_scale() {
    // center (0,0,0), scale (2,4,6): the eight corners are exactly (±1,±2,±3)
    let b = BoxShape::new(v3i(0, 0, 0), v3i(2, 4, 6), white());
    let pts = b.get_points();
    assert!(pts.len() >= 8);
    let expected = [
        (-1, -2, -3),
        (1, -2, -3),
        (-1, -2, 3),
        (1, -2, 3),
        (-1, 2, -3),
        (1, 2, -3),
        (-1, 2, 3),
        (1, 2, 3),
    ];
    for (i, (x, y, z)) in expected.iter().enumerate() {
        assert_eq!(pts[i].0, v3i(*x, *y, *z), "corner {}", i);
    }
    let up = face_normal(BoxFace::Up);
    let down = face_normal(BoxFace::Down);
    for i in 0..4 {
        assert_eq!(pts[i].2, up, "top corner {} normal", i);
    }
    for i in 4..8 {
        assert_eq!(pts[i].2, down, "bottom corner {} normal", i);
    }
}

#[test]
fn origin_equals_center_for_whole_center() {
    let b = BoxShape::new(v3i(3, -7, 11), v3i(5, 9, 13), white());
    assert_eq!(b.get_origin(), v3i(3, -7, 11));
}

#[test]
fn origin_equals_center_for_fractional_center_and_scale() {
    // neither the center nor the scale is a whole number of lattice units
    let pos = v3raw(100, -51, 25);
    let b = BoxShape::new(pos, v3raw(7, 9, 1111), white());
    assert_eq!(b.get_origin(), pos);
}

#[test]
fn degenerate_line_is_one_rounded_point() {
    // 1.2 rounds to 1, 3.4 to 3, -5.6 to -6
    let a = v3raw(78643, 222822, -367001);
    let pts = set_line(a, a, white());
    assert_eq!(pts.len(), 1);
    assert_eq!(pts[0].0, v3i(1, 3, -6));
    assert_eq!(pts[0].1, white());
}

#[test]
fn line_swapped_endpoints_is_reversed() {
    let a = v3i(0, 0, 0);
    let b = v3i(5, 3, -2);
    let fwd = set_line(a, b, white());
    let rev = set_line(b, a, white());
    assert_eq!(fwd.len(), rev.len());
    for i in 0..fwd.len() {
        assert_eq!(fwd[i].0, rev[fwd.len() - 1 - i].0);
        assert_eq!(fwd[i].1, rev[fwd.len() - 1 - i].1);
    }
}

#[test]
fn line_endpoints_included_and_steps_are_single_voxels() {
    let a = LatticePoint { x: 0, y: 0, z: 0 };
    let b = LatticePoint { x: 5, y: 3, z: -2 };
    let pts = lattice_line(a, b);
    assert_eq!(pts.len(), 6);
    assert_eq!(pts[0], a);
    assert_eq!(pts[5], b);
    for w in pts.windows(2) {
        let dx = (w[1].x - w[0].x).abs();
        let dy = (w[1].y - w[0].y).abs();
        let dz = (w[1].z - w[0].z).abs();
        assert!(dx <= 1 && dy <= 1 && dz <= 1);
        assert!(dx + dy + dz >= 1, "the walk never repeats a point");
    }
    // the dominant axis steps by one each time; the others follow the
    // rounded proportional offsets
    let expected = [
        (0, 0, 0),
        (1, 1, 0),
        (2, 1, -1),
        (3, 2, -1),
        (4, 2, -2),
        (5, 3, -2),
    ];
    for (i, (x, y, z)) in expected.iter().enumerate() {
        assert_eq!(pts[i], LatticePoint { x: *x, y: *y, z: *z });
    }
    // the lattice line is computed from the lexicographically smaller
    // endpoint, so the swapped call is exactly the reverse
    let back = lattice_line(b, a);
    for i in 0..6 {
        assert_eq!(back[i], pts[5 - i]);
    }
}

#[test]
fn fill_at_equal_y_reduces_to_the_line() {
    // endpoints share their y coordinate: the sweep is a single line
    let a = v3raw(19661, 2 * FX_ONE, 72090);
    let b = v3raw(308019, 2 * FX_ONE, -209715);
    let fill = fill_vertical(a, b, white());
    let line = set_line(a, b, white());
    assert_eq!(fill.len(), line.len());
    for i in 0..fill.len() {
        assert_eq!(fill[i].0, line[i].0);
        assert_eq!(fill[i].1, line[i].1);
    }
}

#[test]
fn zero_scale_box_collapses_to_one_lattice_point() {
    let b = BoxShape::new(v3i(2, 3, 1), v3i(0, 0, 0), white());
    let pts = b.get_points();
    // eight corners and one point per face fill
    assert_eq!(pts.len(), 14);
    for p in pts.iter() {
        assert_eq!(p.0, v3i(2, 3, 1));
    }
}

#[test]
fn box_face_fill_normals_follow_the_face_order() {
    let b = BoxShape::new(v3i(0, 0, 0), v3i(2, 2, 2), white());
    let pts = b.get_points();
    // fills follow the corners in the order down, front, back, left, right, up;
    // for scale 2 each face sweep is 3 lines of 3 points
    assert_eq!(pts.len(), 8 + 6 * 9);
    let faces = [
        BoxFace::Down,
        BoxFace::Front,
        BoxFace::Back,
        BoxFace::Left,
        BoxFace::Right,
        BoxFace::Up,
    ];
    for (f, face) in faces.iter().enumerate() {
        let n = face_normal(*face);
        for i in 0..9 {
            assert_eq!(pts[8 + f * 9 + i].2, n);
        }
    }
}
