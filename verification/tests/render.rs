//! Transform, shading, and full-frame compositing on concrete scenes.

use topdown::boxshape::BoxShape;
use topdown::color::Color;
use topdown::fx::{Fx, Vec3, FX_HALF, FX_ONE};
use topdown::world::{shading_ratio, Rotation, World, TIME_STEP};

fn fxi(v: i64) -> Fx {
    Fx { raw: v * FX_ONE }
}

fn v3i(x: i64, y: i64, z: i64) -> Vec3 {
    Vec3 { x: fxi(x), y: fxi(y), z: fxi(z) }
}

fn one() -> Fx {
    Fx { raw: FX_ONE }
}

fn pixel(buf: &[u8], width: usize, x: usize, y: usize) -> [u8; 4] {
    let i = 4 * (x + y * width);
    [buf[i], buf[i + 1], buf[i + 2], buf[i + 3]]
}

#[test]
fn rotations_by_angle_zero_are_exact_identities() {
    let w = World::new(10, 10, Rotation::zero());
    let p = Vec3 { x: Fx { raw: 12345 }, y: Fx { raw: -9876543 }, z: Fx { raw: 777 } };
    assert_eq!(w.rotateX(p, Rotation::zero()), p);
    assert_eq!(w.rotateY(p, Rotation::zero()), p);
    assert_eq!(w.rotateZ(p, Rotation::zero()), p);
}

#[test]
fn rotating_forward_and_back_returns_within_tolerance() {
    // sine and cosine of roughly 30 degrees, quantized to fixed point
    let r = Rotation::new(Fx { raw: 32768 }, Fx { raw: 56756 });
    let back = Rotation::new(Fx { raw: -32768 }, Fx { raw: 56756 });
    let w = World::new(10, 10, Rotation::zero());
    let p = v3i(100, 200, 300);
    let q = w.rotateX(w.rotateX(p, r), back);
    assert_eq!(q.x, p.x);
    assert!((q.y.raw - p.y.raw).abs() <= 87);
    assert!((q.z.raw - p.z.raw).abs() <= 87);
    let q2 = w.rotateY(w.rotateY(p, r), back);
    assert_eq!(q2.y, p.y);
    assert!((q2.x.raw - p.x.raw).abs() <= 87);
    assert!((q2.z.raw - p.z.raw).abs() <= 87);
}

#[test]
fn projection_is_orthographic() {
    let w = World::new(10, 10, Rotation::zero());
    let p = v3i(7, -3, 42);
    assert_eq!(w.project(p), p);
}

#[test]
fn shading_ratio_stays_in_unit_range() {
    let up = v3i(0, -1, 0);
    let down = v3i(0, 1, 0);
    let light = v3i(0, -1, 0);
    assert_eq!(shading_ratio(up, light, one()).raw, FX_ONE);
    assert_eq!(shading_ratio(down, light, one()).raw, 0);
    // negative intensity clamps to zero
    assert_eq!(shading_ratio(up, light, fxi(-3)).raw, 0);
    // oversized intensity clamps to one
    assert_eq!(shading_ratio(up, light, fxi(5)).raw, FX_ONE);
    // a skew light: dot of up with (-1/2, -1/2, 1) is 1/2
    let skew = Vec3 { x: Fx { raw: -FX_HALF }, y: Fx { raw: -FX_HALF }, z: one() };
    assert_eq!(shading_ratio(up, skew, one()).raw, FX_HALF);
    // the result is in range for any sign combination
    for &n in &[up, down, skew] {
        for &i in &[fxi(-7), fxi(0), one(), fxi(9)] {
            let r = shading_ratio(n, skew, i).raw;
            assert!(0 <= r && r <= FX_ONE);
        }
    }
}

#[test]
fn update_advances_the_clock_and_nothing_else() {
    let mut w = World::new(30, 20, Rotation::zero());
    w.update();
    assert_eq!(w.time.raw, TIME_STEP);
    w.update();
    assert_eq!(w.time.raw, 2 * TIME_STEP);
    assert_eq!(w.width, 30);
    assert_eq!(w.height, 20);
}

#[test]
fn bounds_allow_one_unit_of_slack_at_the_low_edge() {
    let w = World::new(30, 20, Rotation::zero());
    assert!(w.is_in_bounds(v3i(-1, 0, 0)));
    assert!(!w.is_in_bounds(Vec3 { x: Fx { raw: -FX_ONE - 1 }, y: fxi(0), z: fxi(0) }));
    assert!(w.is_in_bounds(v3i(30, 20, 0)));
    assert!(!w.is_in_bounds(v3i(31, 0, 0)));
    assert!(!w.is_in_bounds(v3i(0, 21, 0)));
}

#[test]
fn screen_and_grid_indices_are_row_major() {
    let w = World::new(30, 20, Rotation::zero());
    assert_eq!(w.grid_idx(2, 5), Some(2 + 5 * 30));
    assert_eq!(w.grid_idx(-1, 5), None);
    assert_eq!(w.grid_idx(30, 5), None);
    assert_eq!(w.grid_idx(2, 20), None);
    assert_eq!(w.screen_idx(2, 5), Some(4 * (2 + 5 * 30)));
    assert_eq!(w.screen_idx(29, 19), Some(4 * (29 + 19 * 30)));
    assert_eq!(w.screen_idx(2, -1), None);
}

#[test]
fn flat_shading_lights_the_up_face_and_darkens_the_down_face() {
    // a white box at the origin, lit straight from above, seen past the camera
    let world = World {
        objects: vec![BoxShape::new(v3i(0, 0, 0), v3i(10, 10, 10), Color::white())],
        light_dir: v3i(0, -1, 0),
        light_intensity: one(),
        rotation_x: Rotation::zero(),
        camera_pos: v3i(0, 0, -100),
        width: 30,
        height: 20,
        time: Fx { raw: 0 },
    };
    // the up-face normal matches the light exactly: full brightness; the
    // down-face normal opposes it: clamped to darkness
    assert_eq!(shading_ratio(v3i(0, -1, 0), world.light_dir, world.light_intensity).raw, FX_ONE);
    assert_eq!(shading_ratio(v3i(0, 1, 0), world.light_dir, world.light_intensity).raw, 0);
    let mut buf = vec![7u8; 30 * 20 * 4];
    world.draw(&mut buf, Rotation::zero());
    // a down-face pixel: shaded to black, fully opaque
    assert_eq!(pixel(&buf, 30, 2, 5), [0, 0, 0, 255]);
    // the up face (screen y = -5) is culled, and empty pixels stay cleared
    assert_eq!(pixel(&buf, 30, 20, 10), [0, 0, 0, 0]);
}

#[test]
fn deeper_point_wins_the_pixel_regardless_of_collection_order() {
    let near = BoxShape::new(v3i(2, 3, 1), v3i(0, 0, 0), Color::rgb(one(), fxi(0), fxi(0)));
    let far = BoxShape::new(v3i(2, 3, 5), v3i(0, 0, 0), Color::white());
    let mut worlds = Vec::new();
    worlds.push(World {
        objects: vec![
            BoxShape::new(v3i(2, 3, 1), v3i(0, 0, 0), Color::rgb(one(), fxi(0), fxi(0))),
            BoxShape::new(v3i(2, 3, 5), v3i(0, 0, 0), Color::white()),
        ],
        light_dir: v3i(0, -1, 0),
        light_intensity: one(),
        rotation_x: Rotation::zero(),
        camera_pos: v3i(0, 0, 0),
        width: 10,
        height: 10,
        time: Fx { raw: 0 },
    });
    worlds.push(World {
        objects: vec![far, near],
        light_dir: v3i(0, -1, 0),
        light_intensity: one(),
        rotation_x: Rotation::zero(),
        camera_pos: v3i(0, 0, 0),
        width: 10,
        height: 10,
        time: Fx { raw: 0 },
    });
    for world in worlds.iter() {
        let mut buf = vec![0u8; 10 * 10 * 4];
        world.draw(&mut buf, Rotation::zero());
        // both collapsed boxes land on pixel (2, 3); the one at depth 5 wins
        assert_eq!(pixel(&buf, 10, 2, 3), [255, 255, 255, 255]);
    }
}

#[test]
fn the_demonstration_scene_holds_a_cube_over_a_slab() {
    let world = World::new(300, 200, Rotation::new(Fx { raw: 44676 }, Fx { raw: 47957 }));
    assert_eq!(world.objects.len(), 2);
    assert_eq!(world.objects[0].pos, v3i(0, -10, 0));
    assert_eq!(world.objects[0].scale, v3i(10, 10, 10));
    assert_eq!(world.objects[1].pos, v3i(0, 0, 0));
    assert_eq!(world.objects[1].scale, Vec3 { x: fxi(500), y: one(), z: fxi(500) });
    assert_eq!(world.light_dir, Vec3 { x: Fx { raw: -FX_HALF }, y: Fx { raw: -FX_HALF }, z: one() });
    assert_eq!(world.light_intensity.raw, FX_ONE);
    assert_eq!(world.camera_pos, v3i(-150, -100, 0));
    assert_eq!(world.time.raw, 0);
    assert_eq!((world.width, world.height), (300, 200));
}

#[test]
fn a_small_scene_renders_an_opaque_image() {
    // a lone cube seen by an offset camera, drawn after one tick of yaw
    let world = World {
        objects: vec![BoxShape::new(v3i(0, 0, 0), v3i(8, 8, 8), Color::white())],
        light_dir: Vec3 { x: Fx { raw: -FX_HALF }, y: Fx { raw: -FX_HALF }, z: one() },
        light_intensity: one(),
        rotation_x: Rotation::new(Fx { raw: 44676 }, Fx { raw: 47957 }),
        camera_pos: v3i(-15, -10, 0),
        width: 30,
        height: 20,
        time: Fx { raw: TIME_STEP },
    };
    let mut buf = vec![0u8; 30 * 20 * 4];
    // yaw from the accumulated time: one tick is a very small angle, so its
    // sine is close to the raw time value and its cosine close to one
    world.draw(&mut buf, Rotation::new(Fx { raw: 2621 }, Fx { raw: 65484 }));
    // something was drawn: some pixel is opaque
    assert!(buf.chunks(4).any(|c| c[3] == 255));
}
