//! Wall classification.
//!
//! After the floor is carved, every cell is classified from the floor
//! pattern of its 3x3 neighbourhood: empty cells directly above floor
//! become north-facing walls, floor cells with an empty side become the
//! matching side wall or corner. The rules read tile types only, never
//! previously written wall types, so the classification of a cell is a
//! pure function of the tile grid (`classify_wall`), whatever order the
//! pass visits cells in.

use vstd::prelude::*;
use crate::level::Level;
use crate::tiles::TileType;
use crate::tiles::WallType;

verus! {

/// The wall class of a cell, from its own tile type and the tile types of
/// the five neighbours the rules inspect. `below` is the cell at `y - 1`,
/// which the sprite conventions of the grid call north.
pub open spec fn classify_wall(
    c: TileType,
    below: TileType,
    below_w: TileType,
    below_e: TileType,
    west: TileType,
    east: TileType,
) -> WallType {
    if c == TileType::Nothing {
        if below == TileType::Dirt {
            if below_w == TileType::Nothing {
                WallType::Northwest
            } else if below_e == TileType::Nothing {
                WallType::Northeast
            } else {
                WallType::North
            }
        } else {
            WallType::Nothing
        }
    } else {
        if west == TileType::Nothing {
            if below == TileType::Nothing {
                WallType::Southwest
            } else if below_w != TileType::Nothing {
                WallType::WestInnerCorner
            } else {
                WallType::West
            }
        } else if east == TileType::Nothing {
            if below == TileType::Nothing {
                WallType::Southeast
            } else if below_e != TileType::Nothing {
                WallType::EastInnerCorner
            } else {
                WallType::East
            }
        } else if below == TileType::Nothing {
            WallType::South
        } else {
            WallType::Nothing
        }
    }
}

/// The wall class of the cell (x, y) of a level's tile grid.
pub open spec fn wall_class_at(l: Level, x: int, y: int) -> WallType {
    classify_wall(
        l.tile_at(x, y),
        l.tile_at(x, y - 1),
        l.tile_at(x - 1, y - 1),
        l.tile_at(x + 1, y - 1),
        l.tile_at(x - 1, y),
        l.tile_at(x + 1, y),
    )
}

impl Level {
    /// Recompute the wall type of every cell from the tile grid.
    pub fn calculate_walls(&mut self)
        requires
            old(self).grid_wf(),
        ensures
            final(self).grid_wf(),
            final(self).width == old(self).width,
            final(self).height == old(self).height,
            final(self).rooms@ == old(self).rooms@,
            final(self).collision_shapes@ == old(self).collision_shapes@,
            final(self).player_start_position == old(self).player_start_position,
            final(self).exit_point == old(self).exit_point,
            forall|xx: int, yy: int| #[trigger] final(self).tile_at(xx, yy) == old(self).tile_at(
                xx,
                yy,
            ),
            forall|xx: int, yy: int| #[trigger] final(self).wall_at(xx, yy) == (if old(
                self,
            ).in_bounds(xx, yy) {
                wall_class_at(*old(self), xx, yy)
            } else {
                WallType::Nothing
            }),
            forall|xx: int, yy: int| #[trigger] final(self).spawn_at(xx, yy) == old(self).spawn_at(
                xx,
                yy,
            ),
            forall|xx: int, yy: int| #[trigger] final(self).spawned_at(xx, yy) == old(
                self,
            ).spawned_at(xx, yy),
    {
        let ghost pre = *self;
        let mut x: u32 = 0;
        while x < self.width
            invariant
                self.grid_wf(),
                0 <= x <= pre.width,
                self.width == pre.width,
                self.height == pre.height,
                self.rooms@ == pre.rooms@,
                self.collision_shapes@ == pre.collision_shapes@,
                self.player_start_position == pre.player_start_position,
                self.exit_point == pre.exit_point,
                forall|xx: int, yy: int| #[trigger] self.tile_at(xx, yy) == pre.tile_at(xx, yy),
                forall|xx: int, yy: int| #[trigger] self.wall_at(xx, yy) == (if 0 <= xx < x
                    && 0 <= yy < pre.height {
                    wall_class_at(pre, xx, yy)
                } else {
                    pre.wall_at(xx, yy)
                }),
                forall|xx: int, yy: int| #[trigger] self.spawn_at(xx, yy) == pre.spawn_at(xx, yy),
                forall|xx: int, yy: int| #[trigger] self.spawned_at(xx, yy) == pre.spawned_at(
                    xx,
                    yy,
                ),
            decreases pre.width - x,
        {
            let mut y: u32 = 0;
            while y < self.height
                invariant
                    self.grid_wf(),
                    0 <= x < pre.width,
                    0 <= y <= pre.height,
                    self.width == pre.width,
                    self.height == pre.height,
                    self.rooms@ == pre.rooms@,
                    self.collision_shapes@ == pre.collision_shapes@,
                    self.player_start_position == pre.player_start_position,
                    self.exit_point == pre.exit_point,
                    forall|xx: int, yy: int| #[trigger] self.tile_at(xx, yy) == pre.tile_at(
                        xx,
                        yy,
                    ),
                    forall|xx: int, yy: int| #[trigger] self.wall_at(xx, yy) == (if (0 <= xx < x
                        && 0 <= yy < pre.height) || (xx == x && 0 <= yy < y) {
                        wall_class_at(pre, xx, yy)
                    } else {
                        pre.wall_at(xx, yy)
                    }),
                    forall|xx: int, yy: int| #[trigger] self.spawn_at(xx, yy) == pre.spawn_at(
                        xx,
                        yy,
                    ),
                    forall|xx: int, yy: int| #[trigger] self.spawned_at(xx, yy) == pre.spawned_at(
                        xx,
                        yy,
                    ),
                decreases pre.height - y,
            {
                let xi = x as i32;
                let yi = y as i32;
                let c = self.tile_type(xi, yi);
                let below = self.tile_type(xi, yi - 1);
                let below_w = self.tile_type(xi - 1, yi - 1);
                let below_e = self.tile_type(xi + 1, yi - 1);
                let west = self.tile_type(xi - 1, yi);
                let east = self.tile_type(xi + 1, yi);
                let wt = if c == TileType::Nothing {
                    if below == TileType::Dirt {
                        if below_w == TileType::Nothing {
                            WallType::Northwest
                        } else if below_e == TileType::Nothing {
                            WallType::Northeast
                        } else {
                            WallType::North
                        }
                    } else {
                        WallType::Nothing
                    }
                } else {
                    if west == TileType::Nothing {
                        if below == TileType::Nothing {
                            WallType::Southwest
                        } else if below_w != TileType::Nothing {
                            WallType::WestInnerCorner
                        } else {
                            WallType::West
                        }
                    } else if east == TileType::Nothing {
                        if below == TileType::Nothing {
                            WallType::Southeast
                        } else if below_e != TileType::Nothing {
                            WallType::EastInnerCorner
                        } else {
                            WallType::East
                        }
                    } else if below == TileType::Nothing {
                        WallType::South
                    } else {
                        WallType::Nothing
                    }
                };
                proof {
                    assert(wt == wall_class_at(pre, x as int, y as int));
                }
                self.set_wall(x, y, wt);
                y = y + 1;
            }
            x = x + 1;
        }
    }
}

} // verus!
