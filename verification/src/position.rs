//! Coordinate spaces and the pure transforms between them. All coordinates
//! are whole pixels (world and screen space), whole tiles (tile space) or
//! whole chunks (chunk space); a chunk spans one virtual screen of pixels.

use vstd::prelude::*;
use crate::{in_world_range, TILE_SIZE, VIRTUAL_WIDTH, VIRTUAL_HEIGHT};
use crate::intmath::div_floor_i64;

verus! {

/// A 2D integer vector.
#[derive(Debug, Clone, Copy, PartialEq, Eq, Hash, Structural)]
pub struct Vec2i {
    pub x: i64,
    pub y: i64,
}

/// Shorthand constructor for [`Vec2i`].
pub fn v2(x: i64, y: i64) -> (r: Vec2i)
    ensures
        r == (Vec2i { x, y }),
{
    Vec2i { x, y }
}

impl Vec2i {
    /// The rectangle from the origin to this vector.
    pub fn rect_from_origin(self) -> (r: Rect)
        ensures
            r == (Rect { x: 0, y: 0, w: self.x, h: self.y }),
    {
        Rect { x: 0, y: 0, w: self.x, h: self.y }
    }
}

/// An axis-aligned rectangle: top-left corner and extent, in whole units.
/// It covers the half-open box `[x, x+w) x [y, y+h)`.
#[derive(Debug, Clone, Copy, PartialEq, Eq, Structural)]
pub struct Rect {
    pub x: i64,
    pub y: i64,
    pub w: i64,
    pub h: i64,
}

impl Rect {
    /// Build a rectangle from its top-left corner and its size.
    pub fn from_vecs(top_left: Vec2i, size: Vec2i) -> (r: Rect)
        ensures
            r == (Rect { x: top_left.x, y: top_left.y, w: size.x, h: size.y }),
    {
        Rect { x: top_left.x, y: top_left.y, w: size.x, h: size.y }
    }
}

/// Both components lie in the world coordinate range.
pub open spec fn vec_in_world_range(v: Vec2i) -> bool {
    in_world_range(v.x as int) && in_world_range(v.y as int)
}

/// Position of a chunk, in whole chunks.
#[derive(Debug, Clone, Copy, PartialEq, Eq, Hash, Structural)]
pub struct ChunkPos(pub Vec2i);

/// Position of a tile, in whole tiles.
#[derive(Debug, Clone, Copy, PartialEq, Eq, Structural)]
pub struct TilePos(pub Vec2i);

/// A point of the world, in pixels.
#[derive(Debug, Clone, Copy, PartialEq, Eq, Structural)]
pub struct WorldPos(pub Vec2i);

/// A point of the virtual screen, in pixels.
#[derive(Debug, Clone, Copy, PartialEq, Eq, Structural)]
pub struct ScreenPos(pub Vec2i);

/// The camera: its target is the world point shown at the centre of the
/// virtual screen.
#[derive(Debug, Clone, Copy, PartialEq, Eq, Structural)]
pub struct Camera {
    pub target: Vec2i,
}

/// World pixel to tile index, per axis: floor division by the tile size.
pub open spec fn spec_world_to_tile(w: int) -> int {
    w / (TILE_SIZE as int)
}

/// World pixel to chunk index along x: floor division by the chunk extent.
pub open spec fn spec_world_to_chunk_x(w: int) -> int {
    w / (VIRTUAL_WIDTH as int)
}

/// World pixel to chunk index along y.
pub open spec fn spec_world_to_chunk_y(w: int) -> int {
    w / (VIRTUAL_HEIGHT as int)
}

impl ScreenPos {
    /// The full virtual screen extent as a vector.
    pub fn screen() -> (r: ScreenPos)
        ensures
            r == (ScreenPos(Vec2i { x: VIRTUAL_WIDTH, y: VIRTUAL_HEIGHT })),
    {
        ScreenPos(Vec2i { x: VIRTUAL_WIDTH, y: VIRTUAL_HEIGHT })
    }

    /// The virtual screen as a rectangle anchored at the origin.
    pub fn screen_rect() -> (r: Rect)
        ensures
            r == (Rect { x: 0, y: 0, w: VIRTUAL_WIDTH, h: VIRTUAL_HEIGHT }),
    {
        Rect { x: 0, y: 0, w: VIRTUAL_WIDTH, h: VIRTUAL_HEIGHT }
    }

    /// Screen point to world point, given the camera: the camera target is
    /// the world point at the centre of the screen.
    pub fn to_world(self, camera: &Camera) -> (r: WorldPos)
        requires
            vec_in_world_range(self.0),
            vec_in_world_range(camera.target),
        ensures
            r.0.x == camera.target.x + self.0.x - VIRTUAL_WIDTH as int / 2,
            r.0.y == camera.target.y + self.0.y - VIRTUAL_HEIGHT as int / 2,
    {
        WorldPos(Vec2i {
            x: camera.target.x + self.0.x - VIRTUAL_WIDTH / 2,
            y: camera.target.y + self.0.y - VIRTUAL_HEIGHT / 2,
        })
    }

    /// Screen point straight to the tile it falls in.
    pub fn to_tile(self, camera: &Camera) -> (r: TilePos)
        requires
            vec_in_world_range(self.0),
            vec_in_world_range(camera.target),
            in_world_range(camera.target.x + self.0.x - VIRTUAL_WIDTH as int / 2),
            in_world_range(camera.target.y + self.0.y - VIRTUAL_HEIGHT as int / 2),
        ensures
            r.0.x == spec_world_to_tile(camera.target.x + self.0.x - VIRTUAL_WIDTH as int / 2),
            r.0.y == spec_world_to_tile(camera.target.y + self.0.y - VIRTUAL_HEIGHT as int / 2),
    {
        self.to_world(camera).to_tile()
    }
}

impl WorldPos {
    /// Round down to the nearest tile-aligned world position.
    pub fn snap(self) -> (r: WorldPos)
        requires
            vec_in_world_range(self.0),
        ensures
            r.0.x == spec_world_to_tile(self.0.x as int) * TILE_SIZE as int,
            r.0.y == spec_world_to_tile(self.0.y as int) * TILE_SIZE as int,
            r.0.x <= self.0.x < r.0.x + TILE_SIZE as int,
            r.0.y <= self.0.y < r.0.y + TILE_SIZE as int,
    {
        proof {
            vstd::arithmetic::div_mod::lemma_fundamental_div_mod(self.0.x as int, TILE_SIZE as int);
            vstd::arithmetic::div_mod::lemma_fundamental_div_mod(self.0.y as int, TILE_SIZE as int);
            vstd::arithmetic::div_mod::lemma_mod_bound(self.0.x as int, TILE_SIZE as int);
            vstd::arithmetic::div_mod::lemma_mod_bound(self.0.y as int, TILE_SIZE as int);
        }
        self.to_tile().to_world()
    }

    /// The tile this world point falls in.
    pub fn to_tile(self) -> (r: TilePos)
        requires
            vec_in_world_range(self.0),
        ensures
            r.0.x == spec_world_to_tile(self.0.x as int),
            r.0.y == spec_world_to_tile(self.0.y as int),
    {
        TilePos(Vec2i {
            x: div_floor_i64(self.0.x, TILE_SIZE),
            y: div_floor_i64(self.0.y, TILE_SIZE),
        })
    }

    /// The chunk this world point falls in: chunks tile the plane at the
    /// granularity of one virtual screen.
    pub fn to_chunk(self) -> (r: ChunkPos)
        requires
            vec_in_world_range(self.0),
        ensures
            r.0.x == spec_world_to_chunk_x(self.0.x as int),
            r.0.y == spec_world_to_chunk_y(self.0.y as int),
    {
        ChunkPos(Vec2i {
            x: div_floor_i64(self.0.x, VIRTUAL_WIDTH),
            y: div_floor_i64(self.0.y, VIRTUAL_HEIGHT),
        })
    }
}

impl TilePos {
    /// Tile index back to the world position of the tile's top-left pixel.
    pub fn to_world(self) -> (r: WorldPos)
        requires
            in_world_range(self.0.x as int * TILE_SIZE as int),
            in_world_range(self.0.y as int * TILE_SIZE as int),
        ensures
            r.0.x == self.0.x as int * TILE_SIZE as int,
            r.0.y == self.0.y as int * TILE_SIZE as int,
    {
        WorldPos(Vec2i { x: self.0.x * TILE_SIZE, y: self.0.y * TILE_SIZE })
    }
}

} // verus!
