//! Hexagon-of-triangles tiling: tile states, the lattice of tiles, the
//! flip move that perturbs it, and the bookkeeping of a raster canvas.
//!
//! Plane geometry is done by the caller; this crate works on lattice keys.

pub mod canvas;
pub mod grid_hexagon;
pub mod hexagon;
pub mod hexagon_utils;
pub mod key;
pub mod lattice;
pub mod state;
