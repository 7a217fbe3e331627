//! The grid cell value type.

use topdown::cell::Cell;
use topdown::fx::{Fx, Vec3, FX_ONE};

#[test]
fn new_cell_is_opaque_black_at_its_position() {
    let pos = Vec3 { x: Fx { raw: FX_ONE }, y: Fx { raw: 2 * FX_ONE }, z: Fx { raw: -3 } };
    let c = Cell::new(pos);
    assert_eq!(c.pos, pos);
    assert_eq!(c.color, (0, 0, 0, 255));
}

#[test]
fn default_cell_sits_at_the_origin_fully_transparent() {
    let c = Cell::default();
    assert_eq!(c.pos, Vec3 { x: Fx { raw: 0 }, y: Fx { raw: 0 }, z: Fx { raw: 0 } });
    assert_eq!(c.color, (0, 0, 0, 0));
}
