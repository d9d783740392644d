//! Simulation core of a chunked tile-world platformer: an infinite 2D tile
//! world materialized lazily one chunk at a time, coordinate-space
//! transforms, a conservative sampling collision query, and a sub-pixel
//! kinematic mover with one-way platform support.

use vstd::prelude::*;

pub mod codec;
pub mod collision;
pub mod grid;
pub mod physics;
pub mod position;
pub mod intmath;
pub mod tile;
pub mod tile_map;

verus! {

/// Width of the virtual screen, and so of one chunk, in pixels.
pub const VIRTUAL_WIDTH: i64 = 256;
/// Height of the virtual screen, and so of one chunk, in pixels.
pub const VIRTUAL_HEIGHT: i64 = 224;
/// Side of one square tile in pixels.
pub const TILE_SIZE: i64 = 16;
/// Tiles per chunk along x.
pub const CHUNK_TILES_X: i64 = 16;
/// Tiles per chunk along y.
pub const CHUNK_TILES_Y: i64 = 14;
/// Sub-pixel units per pixel: movement deltas and remainders are counted
/// in thousandths of a pixel.
pub const SUBPIXELS: i64 = 1000;

/// Bound on world coordinates accepted by the transforms; generous enough
/// for any reachable play position while keeping all pixel arithmetic far
/// from `i64` overflow.
pub open spec fn in_world_range(v: int) -> bool {
    -0x10_0000_0000 <= v <= 0x10_0000_0000
}

} // verus!
