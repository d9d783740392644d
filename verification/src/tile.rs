//! The tile catalog: a total, pure lookup from a stored tile identifier to
//! its derived definition. Only the identifier is ever stored per cell.

use vstd::prelude::*;
use crate::collision::CollisionResult;

verus! {

/// How a tile reacts to being broken. Durations are in milliseconds; the
/// catalog carries them as data only, no countdown is attached to them.
#[derive(Debug, Clone, Copy, PartialEq, Eq, Structural)]
pub enum Breakable {
    WithTime(u32),
    Instantly,
    Indestructable,
}

/// Collision class of a tile.
#[derive(Debug, Clone, Copy, PartialEq, Eq, Structural)]
pub enum TilePhysicality {
    Solid,
    JumpThrough,
    Empty,
}

/// Derived per-tile data; never stored per cell.
#[derive(Debug, Clone, Copy)]
pub struct Tile {
    pub sprite: Option<u32>,
    pub breakable: Breakable,
    pub name: &'static str,
    pub physicality: TilePhysicality,
}

/// Identifier of a tile kind, the only per-cell datum a chunk stores.
#[derive(Debug, Clone, Copy, PartialEq, Eq, Structural)]
pub enum TileId {
    Air,
    Dirt,
    WoodPlanks,
    WoodLog,
    GenericOre,
}

/// The catalog itself: every identifier has a definition, `Air` being the
/// fully transparent, non-solid, unbreakable one.
pub open spec fn spec_tile_def(id: TileId) -> Tile {
    match id {
        TileId::Air => (Tile {
            sprite: Option::None,
            breakable: Breakable::Indestructable,
            name: "Air",
            physicality: TilePhysicality::Empty,
        }),
        TileId::Dirt => (Tile {
            sprite: Option::Some(9),
            breakable: Breakable::WithTime(1000),
            name: "Dirt",
            physicality: TilePhysicality::Solid,
        }),
        TileId::WoodPlanks => (Tile {
            sprite: Option::Some(33),
            breakable: Breakable::WithTime(2000),
            name: "Wood",
            physicality: TilePhysicality::Solid,
        }),
        TileId::WoodLog => (Tile {
            sprite: Option::Some(34),
            breakable: Breakable::WithTime(2000),
            name: "Log",
            physicality: TilePhysicality::JumpThrough,
        }),
        TileId::GenericOre => (Tile {
            sprite: Option::Some(10),
            breakable: Breakable::WithTime(3000),
            name: "Ore",
            physicality: TilePhysicality::Solid,
        }),
    }
}

/// The collision class a tile identifier contributes to a query.
pub open spec fn spec_tile_collision(id: TileId) -> CollisionResult {
    match spec_tile_def(id).physicality {
        TilePhysicality::Solid => CollisionResult::Solid,
        TilePhysicality::JumpThrough => CollisionResult::JumpThrough,
        TilePhysicality::Empty => CollisionResult::Empty,
    }
}

impl TileId {
    /// Catalog lookup: total and pure.
    pub fn val(self) -> (t: Tile)
        ensures
            t == spec_tile_def(self),
    {
        match self {
            TileId::Air => Tile {
                sprite: None,
                breakable: Breakable::Indestructable,
                name: "Air",
                physicality: TilePhysicality::Empty,
            },
            TileId::Dirt => Tile {
                sprite: Some(9),
                breakable: Breakable::WithTime(1000),
                name: "Dirt",
                physicality: TilePhysicality::Solid,
            },
            TileId::WoodPlanks => Tile {
                sprite: Some(33),
                breakable: Breakable::WithTime(2000),
                name: "Wood",
                physicality: TilePhysicality::Solid,
            },
            TileId::WoodLog => Tile {
                sprite: Some(34),
                breakable: Breakable::WithTime(2000),
                name: "Log",
                physicality: TilePhysicality::JumpThrough,
            },
            TileId::GenericOre => Tile {
                sprite: Some(10),
                breakable: Breakable::WithTime(3000),
                name: "Ore",
                physicality: TilePhysicality::Solid,
            },
        }
    }
}

impl Tile {
    /// Map this tile's collision class to a query classification.
    pub fn collision_result(&self) -> (r: CollisionResult)
        ensures
            r == (match self.physicality {
                TilePhysicality::Solid => CollisionResult::Solid,
                TilePhysicality::JumpThrough => CollisionResult::JumpThrough,
                TilePhysicality::Empty => CollisionResult::Empty,
            }),
    {
        match self.physicality {
            TilePhysicality::Solid => CollisionResult::Solid,
            TilePhysicality::JumpThrough => CollisionResult::JumpThrough,
            TilePhysicality::Empty => CollisionResult::Empty,
        }
    }
}

} // verus!
