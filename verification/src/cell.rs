//! A single colored grid cell.

use vstd::prelude::*;

use crate::fx::{Fx, Vec3};

verus! {

/// A cell: a position on the grid and an RGBA byte color.
#[derive(Clone, Copy, PartialEq, Debug)]
pub struct Cell {
    pub color: (u8, u8, u8, u8),
    pub pos: Vec3,
}

impl Cell {
    /// A fresh cell at `pos`, opaque black.
    pub fn new(pos: Vec3) -> (c: Cell)
        ensures
            c.pos == pos,
            c.color == (0u8, 0u8, 0u8, 255u8),
    {
        Cell { pos, color: (0, 0, 0, 255) }
    }
}

impl Default for Cell {
    /// A cell at the origin with the all-zero color.
    fn default() -> (c: Cell)
        ensures
            c.pos == (Vec3 { x: Fx { raw: 0 }, y: Fx { raw: 0 }, z: Fx { raw: 0 } }),
            c.color == (0u8, 0u8, 0u8, 0u8),
    {
        Cell {
            pos: Vec3 { x: Fx { raw: 0 }, y: Fx { raw: 0 }, z: Fx { raw: 0 } },
            color: (0, 0, 0, 0),
        }
    }
}

} // verus!
