//! A small software renderer for solid-looking oriented boxes.
//!
//! Geometry lives on a fixed-point lattice: every scalar is a [`fx::Fx`]
//! (a signed value with 16 fractional bits), so all of the arithmetic the
//! renderer performs is exact integer arithmetic with explicit rounding.
//! Boxes are generated as dense point clouds (`boxshape`), rasterized with a
//! discrete 3D line walker (`drawutil`), and composited into an RGBA byte
//! buffer by a painter's-algorithm pipeline (`world`).

pub mod boxshape;
pub mod cell;
pub mod color;
pub mod drawable;
pub mod drawutil;
pub mod fx;
pub mod world;

pub use color::Color;
pub use fx::Fx;
pub use fx::Vec3;
