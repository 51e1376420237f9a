//! Per-cell tile data: floor classification, derived wall classification,
//! and spawn-point bookkeeping.

use vstd::prelude::*;
use crate::geometry::Point;

verus! {

/// The floor classification of a grid cell.
#[derive(Clone, Copy, Debug, PartialEq, Eq, Structural, Hash)]
pub enum TileType {
    Nothing,
    Exit,
    Dirt,
}

impl Default for TileType {
    fn default() -> (r: Self)
        ensures
            r == TileType::Nothing,
    {
        TileType::Nothing
    }
}

/// A tile is walkable when it is floor: `Dirt`, or the one `Exit` cell.
pub open spec fn is_floor(t: TileType) -> bool {
    t != TileType::Nothing
}

/// The wall classification of a cell, derived from the floor pattern of
/// its 3x3 neighbourhood.
#[derive(Clone, Copy, Debug, PartialEq, Eq, Structural, Hash)]
pub enum WallType {
    Nothing,
    North,
    South,
    East,
    EastInnerCorner,
    West,
    WestInnerCorner,
    Northeast,
    Northwest,
    Southeast,
    Southwest,
}

impl Default for WallType {
    fn default() -> (r: Self)
        ensures
            r == WallType::Nothing,
    {
        WallType::Nothing
    }
}

/// One cell of the level grid.
#[derive(Clone, Copy, Debug, PartialEq, Eq, Structural)]
pub struct LevelTile {
    pub position: Point,
    pub tile_type: TileType,
    pub wall_type: WallType,
    /// True iff the cell was chosen as an enemy spawn point.
    pub is_spawn_point: bool,
    /// Runtime occupancy flag, toggled by the consumer, never by generation.
    pub spawned: bool,
}

impl Default for LevelTile {
    fn default() -> (r: Self)
        ensures
            r == (LevelTile {
                position: Point { x: 0, y: 0 },
                tile_type: TileType::Nothing,
                wall_type: WallType::Nothing,
                is_spawn_point: false,
                spawned: false,
            }),
    {
        LevelTile {
            position: Point { x: 0, y: 0 },
            tile_type: TileType::Nothing,
            wall_type: WallType::Nothing,
            is_spawn_point: false,
            spawned: false,
        }
    }
}

} // verus!
