//! Voxel models seen through oblique cameras: projection of a voxel body
//! to a sprite, and reconstruction of a voxel body from sprites.
//!
//! Everything here works on the integer lattice. Points between lattice
//! cells are written as whole numbers of a fixed subdivision of a cell, so
//! that rounding is decided exactly.

pub mod vector;
pub mod voxel;
pub mod raster;
pub mod rect;
pub mod camera;
pub mod ray;
pub mod body;
pub mod render;
pub mod focus;
pub mod reconstruct;
pub mod palette;
pub mod sprite;
