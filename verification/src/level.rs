//! The level grid: a fixed-size 2D array of tiles together with the placed
//! rooms, the reduced collision rectangles, and the start and exit cells.
//!
//! All coordinate queries are total: reads outside `[0, width) x
//! [0, height)` return the default (`Nothing`) value, as the classifier and
//! the pathfinder probe neighbours across the grid edge freely.

use vstd::prelude::*;
use crate::geometry::Point;
use crate::geometry::Rect;
use crate::tiles::LevelTile;
use crate::tiles::TileType;
use crate::tiles::WallType;

verus! {

/// Upper bound on each grid dimension, keeping index arithmetic well
/// inside `usize` and 3x-scaled coordinates inside `i32`.
pub const MAX_DIM: u32 = 10000;

/// A generated dungeon level.
#[derive(Clone, Debug)]
pub struct Level {
    pub width: u32,
    pub height: u32,
    /// Column-major grid: the tile at (x, y) sits at index `x * height + y`.
    pub tiles: Vec<LevelTile>,
    /// The placed rooms.
    pub rooms: Vec<Rect>,
    /// Collision rectangles in 3x-upscaled coordinates.
    pub collision_shapes: Vec<Rect>,
    pub player_start_position: Point,
    pub exit_point: Point,
}

/// A blank tile recording its own coordinates.
pub open spec fn blank_tile(x: int, y: int) -> LevelTile {
    LevelTile {
        position: Point { x: x as i32, y: y as i32 },
        tile_type: TileType::Nothing,
        wall_type: WallType::Nothing,
        is_spawn_point: false,
        spawned: false,
    }
}

impl Level {
    /// The grid storage matches the dimensions and every tile records its
    /// own coordinates.
    pub open spec fn grid_wf(self) -> bool {
        &&& 1 <= self.width <= MAX_DIM
        &&& 1 <= self.height <= MAX_DIM
        &&& self.tiles@.len() == self.width * self.height
        &&& forall|x: int, y: int|
            0 <= x < self.width && 0 <= y < self.height ==> (#[trigger] self.tiles@[x * (
            self.height as int) + y]).position == (Point { x: x as i32, y: y as i32 })
    }

    pub open spec fn in_bounds(self, x: int, y: int) -> bool {
        0 <= x < self.width as int && 0 <= y < self.height as int
    }

    /// The tile type at (x, y); out-of-bounds reads are `Nothing`.
    pub open spec fn tile_at(self, x: int, y: int) -> TileType {
        if self.in_bounds(x, y) {
            self.tiles@[x * (self.height as int) + y].tile_type
        } else {
            TileType::Nothing
        }
    }

    /// The wall type at (x, y); out-of-bounds reads are `Nothing`.
    pub open spec fn wall_at(self, x: int, y: int) -> WallType {
        if self.in_bounds(x, y) {
            self.tiles@[x * (self.height as int) + y].wall_type
        } else {
            WallType::Nothing
        }
    }

    /// The spawn-point flag at (x, y); false outside the grid.
    pub open spec fn spawn_at(self, x: int, y: int) -> bool {
        self.in_bounds(x, y) && self.tiles@[x * (self.height as int) + y].is_spawn_point
    }

    /// The runtime occupancy flag at (x, y); false outside the grid.
    pub open spec fn spawned_at(self, x: int, y: int) -> bool {
        self.in_bounds(x, y) && self.tiles@[x * (self.height as int) + y].spawned
    }

    /// A blank grid of the given dimensions.
    pub fn new(width: u32, height: u32) -> (r: Level)
        requires
            1 <= width <= MAX_DIM,
            1 <= height <= MAX_DIM,
        ensures
            r.grid_wf(),
            r.width == width,
            r.height == height,
            forall|x: int, y: int| #[trigger] r.tile_at(x, y) == TileType::Nothing,
            forall|x: int, y: int| #[trigger] r.wall_at(x, y) == WallType::Nothing,
            forall|x: int, y: int| !(#[trigger] r.spawn_at(x, y)),
            forall|x: int, y: int| !(#[trigger] r.spawned_at(x, y)),
            r.rooms@.len() == 0,
            r.collision_shapes@.len() == 0,
            r.player_start_position == (Point { x: 0, y: 0 }),
            r.exit_point == (Point { x: 0, y: 0 }),
    {
        let mut tiles: Vec<LevelTile> = Vec::new();
        let mut x: u32 = 0;
        while x < width
            invariant
                0 <= x <= width,
                1 <= width <= MAX_DIM,
                1 <= height <= MAX_DIM,
                tiles@.len() == x * height,
                forall|xx: int, yy: int|
                    0 <= xx < x && 0 <= yy < height ==> #[trigger] tiles@[xx * (height as int) + yy]
                        == blank_tile(xx, yy),
            decreases width - x,
        {
            let mut y: u32 = 0;
            while y < height
                invariant
                    0 <= x < width,
                    0 <= y <= height,
                    1 <= width <= MAX_DIM,
                    1 <= height <= MAX_DIM,
                    tiles@.len() == x * height + y,
                    forall|xx: int, yy: int|
                        0 <= xx < x && 0 <= yy < height ==> #[trigger] tiles@[xx * (height as int)
                            + yy] == blank_tile(xx, yy),
                    forall|yy: int|
                        0 <= yy < y ==> #[trigger] tiles@[x * (height as int) + yy] == blank_tile(
                            x as int,
                            yy,
                        ),
                decreases height - y,
            {
                proof {
                    lemma_grid_index(width as int, height as int, x as int, y as int);
                }
                tiles.push(
                    LevelTile {
                        position: Point { x: x as i32, y: y as i32 },
                        tile_type: TileType::Nothing,
                        wall_type: WallType::Nothing,
                        is_spawn_point: false,
                        spawned: false,
                    },
                );
                proof {
                    assert forall|xx: int, yy: int|
                        0 <= xx < x && 0 <= yy < height implies #[trigger] tiles@[xx * (
                    height as int) + yy] == blank_tile(xx, yy) by {
                        assert(0 <= xx * (height as int) + yy && xx * (height as int) + yy < (
                        x as int) * (height as int)) by (nonlinear_arith)
                            requires
                                0 <= xx < x as int,
                                0 <= yy < height as int,
                                1 <= height as int,
                        ;
                    }
                }
                y = y + 1;
            }
            proof {
                assert((x as int + 1) * (height as int) == x as int * (height as int) + (
                height as int)) by (nonlinear_arith);
                assert forall|xx: int, yy: int|
                    0 <= xx < x + 1 && 0 <= yy < height implies #[trigger] tiles@[xx * (
                height as int) + yy] == blank_tile(xx, yy) by {
                    lemma_grid_index(width as int, height as int, xx, yy);
                }
            }
            x = x + 1;
        }
        let r = Level {
            width,
            height,
            tiles,
            rooms: Vec::new(),
            collision_shapes: Vec::new(),
            player_start_position: Point { x: 0, y: 0 },
            exit_point: Point { x: 0, y: 0 },
        };
        proof {
            assert forall|x: int, y: int| #[trigger] r.tile_at(x, y) == TileType::Nothing by {
                if r.in_bounds(x, y) {
                    lemma_grid_index(width as int, height as int, x, y);
                }
            }
            assert forall|x: int, y: int| #[trigger] r.wall_at(x, y) == WallType::Nothing by {
                if r.in_bounds(x, y) {
                    lemma_grid_index(width as int, height as int, x, y);
                }
            }
            assert forall|x: int, y: int| !(#[trigger] r.spawn_at(x, y)) by {
                if r.in_bounds(x, y) {
                    lemma_grid_index(width as int, height as int, x, y);
                }
            }
            assert forall|x: int, y: int| !(#[trigger] r.spawned_at(x, y)) by {
                if r.in_bounds(x, y) {
                    lemma_grid_index(width as int, height as int, x, y);
                }
            }
        }
        r
    }

    /// The tile type at (x, y). Out-of-bounds queries are valid and return
    /// `Nothing`.
    pub fn tile_type(&self, x: i32, y: i32) -> (r: TileType)
        requires
            self.grid_wf(),
        ensures
            r == self.tile_at(x as int, y as int),
    {
        if x < 0 || x >= (self.width as i32) || y < 0 || y >= (self.height as i32) {
            TileType::Nothing
        } else {
            proof {
                lemma_grid_index(self.width as int, self.height as int, x as int, y as int);
            }
            self.tiles[(x as usize) * (self.height as usize) + (y as usize)].tile_type
        }
    }

    /// The wall type at (x, y). Out-of-bounds queries are valid and return
    /// `Nothing`.
    pub fn wall_type(&self, x: i32, y: i32) -> (r: WallType)
        requires
            self.grid_wf(),
        ensures
            r == self.wall_at(x as int, y as int),
    {
        if x < 0 || x >= (self.width as i32) || y < 0 || y >= (self.height as i32) {
            WallType::Nothing
        } else {
            proof {
                lemma_grid_index(self.width as int, self.height as int, x as int, y as int);
            }
            self.tiles[(x as usize) * (self.height as usize) + (y as usize)].wall_type
        }
    }

    /// The tile record at an in-bounds cell.
    pub fn get_tile(&self, x: i32, y: i32) -> (r: &LevelTile)
        requires
            self.grid_wf(),
            self.in_bounds(x as int, y as int),
        ensures
            r.tile_type == self.tile_at(x as int, y as int),
            r.wall_type == self.wall_at(x as int, y as int),
            r.is_spawn_point == self.spawn_at(x as int, y as int),
            r.spawned == self.spawned_at(x as int, y as int),
            r.position == (Point { x, y }),
    {
        proof {
            lemma_grid_index(self.width as int, self.height as int, x as int, y as int);
        }
        &self.tiles[(x as usize) * (self.height as usize) + (y as usize)]
    }

    /// The placed rooms.
    pub fn rooms(&self) -> (r: &Vec<Rect>)
        ensures
            r@ == self.rooms@,
    {
        &self.rooms
    }

    /// The reduced collision rectangles, in 3x-upscaled coordinates.
    pub fn collision_shapes(&self) -> (r: &Vec<Rect>)
        ensures
            r@ == self.collision_shapes@,
    {
        &self.collision_shapes
    }

    /// The centre of the bottommost room: where the player starts.
    pub fn player_start(&self) -> (r: Point)
        ensures
            r == self.player_start_position,
    {
        self.player_start_position
    }

    /// The centre of the topmost room: where the exit tile sits.
    pub fn exit_point(&self) -> (r: Point)
        ensures
            r == self.exit_point,
    {
        self.exit_point
    }

    /// All tiles in column-major order; each records its own coordinates.
    pub fn tiles(&self) -> (r: &Vec<LevelTile>)
        ensures
            r@ == self.tiles@,
    {
        &self.tiles
    }

    /// The coordinates of every spawn-point tile.
    pub fn spawn_points(&self) -> (r: Vec<Point>)
        requires
            self.grid_wf(),
        ensures
            forall|i: int|
                0 <= i < r@.len() ==> self.spawn_at(#[trigger] r@[i].x as int, r@[i].y as int),
            forall|x: int, y: int|
                #[trigger] self.spawn_at(x, y) ==> r@.contains(Point { x: x as i32, y: y as i32 }),
    {
        let mut out: Vec<Point> = Vec::new();
        let mut x: u32 = 0;
        while x < self.width
            invariant
                self.grid_wf(),
                0 <= x <= self.width,
                forall|i: int|
                    0 <= i < out@.len() ==> self.spawn_at(#[trigger] out@[i].x as int, out@[i].y as int),
                forall|xx: int, yy: int|
                    0 <= xx < x && 0 <= yy < self.height && #[trigger] self.spawn_at(xx, yy)
                        ==> out@.contains(Point { x: xx as i32, y: yy as i32 }),
            decreases self.width - x,
        {
            let mut y: u32 = 0;
            while y < self.height
                invariant
                    self.grid_wf(),
                    0 <= x < self.width,
                    0 <= y <= self.height,
                    forall|i: int|
                        0 <= i < out@.len() ==> self.spawn_at(
                            #[trigger] out@[i].x as int,
                            out@[i].y as int,
                        ),
                    forall|xx: int, yy: int|
                        0 <= xx < x && 0 <= yy < self.height && #[trigger] self.spawn_at(xx, yy)
                            ==> out@.contains(Point { x: xx as i32, y: yy as i32 }),
                    forall|yy: int|
                        0 <= yy < y && #[trigger] self.spawn_at(x as int, yy) ==> out@.contains(
                            Point { x: x as i32, y: yy as i32 },
                        ),
                decreases self.height - y,
            {
                proof {
                    lemma_grid_index(self.width as int, self.height as int, x as int, y as int);
                }
                let ghost old_out = out@;
                if self.tiles[(x as usize) * (self.height as usize) + (y as usize)].is_spawn_point {
                    out.push(Point { x: x as i32, y: y as i32 });
                }
                proof {
                    assert forall|xx: int, yy: int|
                        0 <= xx < x && 0 <= yy < self.height && #[trigger] self.spawn_at(xx, yy)
                            implies out@.contains(Point { x: xx as i32, y: yy as i32 }) by {
                        assert(old_out.contains(Point { x: xx as i32, y: yy as i32 }));
                        let j = choose|j: int|
                            0 <= j < old_out.len() && old_out[j] == (Point {
                                x: xx as i32,
                                y: yy as i32,
                            });
                        assert(out@[j] == old_out[j]);
                    }
                    assert forall|yy: int|
                        0 <= yy < y + 1 && #[trigger] self.spawn_at(x as int, yy) implies out@
                        .contains(Point { x: x as i32, y: yy as i32 }) by {
                        if yy < y {
                            assert(old_out.contains(Point { x: x as i32, y: yy as i32 }));
                            let j = choose|j: int|
                                0 <= j < old_out.len() && old_out[j] == (Point {
                                    x: x as i32,
                                    y: yy as i32,
                                });
                            assert(out@[j] == old_out[j]);
                        } else {
                            assert(out@[out@.len() - 1] == (Point { x: x as i32, y: yy as i32 }));
                        }
                    }
                }
                y = y + 1;
            }
            x = x + 1;
        }
        out
    }

    /// Set the runtime occupancy flag of an in-bounds tile. The grid
    /// geometry is untouched.
    pub fn set_spawned(&mut self, x: i32, y: i32, value: bool)
        requires
            old(self).grid_wf(),
            old(self).in_bounds(x as int, y as int),
        ensures
            final(self).grid_wf(),
            final(self).width == old(self).width,
            final(self).height == old(self).height,
            final(self).rooms@ == old(self).rooms@,
            final(self).collision_shapes@ == old(self).collision_shapes@,
            final(self).player_start_position == old(self).player_start_position,
            final(self).exit_point == old(self).exit_point,
            forall|xx: int, yy: int| #[trigger] final(self).tile_at(xx, yy) == old(self).tile_at(
                xx,
                yy,
            ),
            forall|xx: int, yy: int| #[trigger] final(self).wall_at(xx, yy) == old(self).wall_at(
                xx,
                yy,
            ),
            forall|xx: int, yy: int| #[trigger] final(self).spawn_at(xx, yy) == old(self).spawn_at(
                xx,
                yy,
            ),
            forall|xx: int, yy: int| #[trigger] final(self).spawned_at(xx, yy) == (if xx == x && yy
                == y {
                value
            } else {
                old(self).spawned_at(xx, yy)
            }),
    {
        proof {
            lemma_grid_index(self.width as int, self.height as int, x as int, y as int);
        }
        let i = (x as usize) * (self.height as usize) + (y as usize);
        self.tiles[i].spawned = value;
        proof {
            lemma_cell_update(old(self).tiles@, self.tiles@, self.width as int, self.height as int, x as int, y as int);
        }
    }

    /// Overwrite the tile type of an in-bounds cell.
    pub(crate) fn set_tile(&mut self, x: u32, y: u32, t: TileType)
        requires
            old(self).grid_wf(),
            x < old(self).width,
            y < old(self).height,
        ensures
            final(self).grid_wf(),
            final(self).width == old(self).width,
            final(self).height == old(self).height,
            final(self).rooms@ == old(self).rooms@,
            final(self).collision_shapes@ == old(self).collision_shapes@,
            final(self).player_start_position == old(self).player_start_position,
            final(self).exit_point == old(self).exit_point,
            forall|xx: int, yy: int| #[trigger] final(self).tile_at(xx, yy) == (if xx == x && yy
                == y {
                t
            } else {
                old(self).tile_at(xx, yy)
            }),
            forall|xx: int, yy: int| #[trigger] final(self).wall_at(xx, yy) == old(self).wall_at(
                xx,
                yy,
            ),
            forall|xx: int, yy: int| #[trigger] final(self).spawn_at(xx, yy) == old(self).spawn_at(
                xx,
                yy,
            ),
            forall|xx: int, yy: int| #[trigger] final(self).spawned_at(xx, yy) == old(
                self,
            ).spawned_at(xx, yy),
    {
        proof {
            lemma_grid_index(self.width as int, self.height as int, x as int, y as int);
        }
        let i = (x as usize) * (self.height as usize) + (y as usize);
        self.tiles[i].tile_type = t;
        proof {
            lemma_cell_update(old(self).tiles@, self.tiles@, self.width as int, self.height as int, x as int, y as int);
        }
    }

    /// Overwrite the wall type of an in-bounds cell.
    pub(crate) fn set_wall(&mut self, x: u32, y: u32, w: WallType)
        requires
            old(self).grid_wf(),
            x < old(self).width,
            y < old(self).height,
        ensures
            final(self).grid_wf(),
            final(self).width == old(self).width,
            final(self).height == old(self).height,
            final(self).rooms@ == old(self).rooms@,
            final(self).collision_shapes@ == old(self).collision_shapes@,
            final(self).player_start_position == old(self).player_start_position,
            final(self).exit_point == old(self).exit_point,
            forall|xx: int, yy: int| #[trigger] final(self).tile_at(xx, yy) == old(self).tile_at(
                xx,
                yy,
            ),
            forall|xx: int, yy: int| #[trigger] final(self).wall_at(xx, yy) == (if xx == x && yy
                == y {
                w
            } else {
                old(self).wall_at(xx, yy)
            }),
            forall|xx: int, yy: int| #[trigger] final(self).spawn_at(xx, yy) == old(self).spawn_at(
                xx,
                yy,
            ),
            forall|xx: int, yy: int| #[trigger] final(self).spawned_at(xx, yy) == old(
                self,
            ).spawned_at(xx, yy),
    {
        proof {
            lemma_grid_index(self.width as int, self.height as int, x as int, y as int);
        }
        let i = (x as usize) * (self.height as usize) + (y as usize);
        self.tiles[i].wall_type = w;
        proof {
            lemma_cell_update(old(self).tiles@, self.tiles@, self.width as int, self.height as int, x as int, y as int);
        }
    }

    /// Mark an in-bounds cell as a spawn point.
    pub(crate) fn set_spawn_flag(&mut self, x: u32, y: u32)
        requires
            old(self).grid_wf(),
            x < old(self).width,
            y < old(self).height,
        ensures
            final(self).grid_wf(),
            final(self).width == old(self).width,
            final(self).height == old(self).height,
            final(self).rooms@ == old(self).rooms@,
            final(self).collision_shapes@ == old(self).collision_shapes@,
            final(self).player_start_position == old(self).player_start_position,
            final(self).exit_point == old(self).exit_point,
            forall|xx: int, yy: int| #[trigger] final(self).tile_at(xx, yy) == old(self).tile_at(
                xx,
                yy,
            ),
            forall|xx: int, yy: int| #[trigger] final(self).wall_at(xx, yy) == old(self).wall_at(
                xx,
                yy,
            ),
            forall|xx: int, yy: int| #[trigger] final(self).spawn_at(xx, yy) == (if xx == x && yy
                == y {
                true
            } else {
                old(self).spawn_at(xx, yy)
            }),
            forall|xx: int, yy: int| #[trigger] final(self).spawned_at(xx, yy) == old(
                self,
            ).spawned_at(xx, yy),
    {
        proof {
            lemma_grid_index(self.width as int, self.height as int, x as int, y as int);
        }
        let i = (x as usize) * (self.height as usize) + (y as usize);
        self.tiles[i].is_spawn_point = true;
        proof {
            lemma_cell_update(old(self).tiles@, self.tiles@, self.width as int, self.height as int, x as int, y as int);
        }
    }
}

/// The flat index of an in-bounds cell is itself in bounds, and the whole
/// grid fits comfortably in `usize`.
pub(crate) proof fn lemma_grid_index(w: int, h: int, x: int, y: int)
    requires
        1 <= w <= MAX_DIM,
        1 <= h <= MAX_DIM,
        0 <= x < w,
        0 <= y < h,
    ensures
        0 <= x * h + y,
        x * h + y < w * h,
        w * h <= 100_000_000,
{
    assert(0 <= x * h + y && x * h + y < w * h && w * h <= 100_000_000) by (nonlinear_arith)
        requires
            1 <= w <= 10000,
            1 <= h <= 10000,
            0 <= x < w,
            0 <= y < h,
    ;
}

/// Distinct in-bounds cells have distinct flat indices.
pub(crate) proof fn lemma_grid_index_injective(h: int, x1: int, y1: int, x2: int, y2: int)
    requires
        1 <= h,
        0 <= y1 < h,
        0 <= y2 < h,
        x1 * h + y1 == x2 * h + y2,
    ensures
        x1 == x2,
        y1 == y2,
{
    assert(x1 == x2 && y1 == y2) by (nonlinear_arith)
        requires
            1 <= h,
            0 <= y1 < h,
            0 <= y2 < h,
            x1 * h + y1 == x2 * h + y2,
    ;
}

/// After updating one cell of the flat grid, every pointwise view changes
/// at most at that cell, and positions are untouched.
proof fn lemma_cell_update(
    before: Seq<LevelTile>,
    after: Seq<LevelTile>,
    w: int,
    h: int,
    x: int,
    y: int,
)
    requires
        1 <= w <= MAX_DIM,
        1 <= h <= MAX_DIM,
        0 <= x < w,
        0 <= y < h,
        before.len() == w * h,
        after.len() == w * h,
        forall|i: int| 0 <= i < before.len() && i != x * h + y ==> #[trigger] after[i] == before[i],
    ensures
        forall|xx: int, yy: int|
            0 <= xx < w && 0 <= yy < h && !(xx == x && yy == y) ==> #[trigger] after[xx * h + yy]
                == before[xx * h + yy],
{
    assert forall|xx: int, yy: int|
        0 <= xx < w && 0 <= yy < h && !(xx == x && yy == y) implies #[trigger] after[xx * h + yy]
        == before[xx * h + yy] by {
        lemma_grid_index(w, h, xx, yy);
        if xx * h + yy == x * h + y {
            lemma_grid_index_injective(h, xx, yy, x, y);
        }
    }
}

} // verus!
