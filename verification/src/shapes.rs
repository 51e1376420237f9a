//! Collision-shape expansion.
//!
//! Every grid cell maps to zero, one or two rectangles in a 3x-upscaled
//! coordinate space: solid cells to a full 3x3 block, wall cells to thin
//! strips along the blocking edge. The resulting fine list is then reduced
//! by a fixed number of greedy merge passes into coarse collision
//! rectangles.

use vstd::prelude::*;
use vstd::arithmetic::div_mod::lemma_fundamental_div_mod_converse;
use crate::geometry::Rect;
use crate::level::Level;
use crate::level::lemma_grid_index;
use crate::reducer::MAX_SCALED;
use crate::reducer::merge_rects;
use crate::reducer::reduce_model;
use crate::reducer::shape_wf;
use crate::tiles::TileType;
use crate::tiles::WallType;

verus! {

/// How many merge passes the reducer runs.
pub const MERGE_PASSES: u32 = 10;

/// The rectangles one cell contributes, in 3x-upscaled coordinates.
pub open spec fn tile_shapes(t: TileType, wt: WallType, x: int, y: int) -> Seq<Rect> {
    if t == TileType::Nothing {
        seq![Rect::spec_new(3 * x, 3 * y, 3, 3)]
    } else if wt == WallType::West || wt == WallType::WestInnerCorner {
        seq![Rect::spec_new(3 * x, 3 * y, 1, 3)]
    } else if wt == WallType::East || wt == WallType::EastInnerCorner {
        seq![Rect::spec_new(3 * x + 2, 3 * y, 1, 3)]
    } else if wt == WallType::South {
        seq![Rect::spec_new(3 * x, 3 * y, 3, 1)]
    } else if wt == WallType::Southeast {
        seq![Rect::spec_new(3 * x, 3 * y, 3, 1), Rect::spec_new(3 * x + 2, 3 * y + 1, 1, 2)]
    } else if wt == WallType::Southwest {
        seq![Rect::spec_new(3 * x, 3 * y, 3, 1), Rect::spec_new(3 * x, 3 * y + 1, 1, 2)]
    } else {
        Seq::<Rect>::empty()
    }
}

/// The (tile, wall) pair of every cell, in column-major scan order.
pub open spec fn level_cells(l: Level) -> Seq<(TileType, WallType)> {
    Seq::new(
        (l.width * l.height) as nat,
        |i: int|
            (
                l.tile_at(i / (l.height as int), i % (l.height as int)),
                l.wall_at(i / (l.height as int), i % (l.height as int)),
            ),
    )
}

/// The rectangles of the first `y` cells of column `x`.
pub open spec fn expand_col(cells: Seq<(TileType, WallType)>, h: int, x: int, y: nat) -> Seq<Rect>
    decreases y,
{
    if y == 0 {
        Seq::<Rect>::empty()
    } else {
        expand_col(cells, h, x, (y - 1) as nat) + tile_shapes(
            cells[x * h + (y - 1)].0,
            cells[x * h + (y - 1)].1,
            x,
            y - 1,
        )
    }
}

/// The rectangles of the first `x` full columns.
pub open spec fn expand_cols(cells: Seq<(TileType, WallType)>, h: int, x: nat) -> Seq<Rect>
    decreases x,
{
    if x == 0 {
        Seq::<Rect>::empty()
    } else {
        expand_cols(cells, h, (x - 1) as nat) + expand_col(cells, h, x - 1, h as nat)
    }
}

/// All rectangles the grid expands to, in scan order.
pub open spec fn expansion(cells: Seq<(TileType, WallType)>, w: int, h: int) -> Seq<Rect> {
    expand_cols(cells, h, w as nat)
}

impl Level {
    /// Expand the grid into fine collision rectangles and reduce them by
    /// `MERGE_PASSES` greedy merge passes. The result is a function of the
    /// tile and wall grids alone.
    pub fn calculate_collision_shapes(&mut self)
        requires
            old(self).grid_wf(),
        ensures
            final(self).grid_wf(),
            final(self).width == old(self).width,
            final(self).height == old(self).height,
            final(self).rooms@ == old(self).rooms@,
            final(self).player_start_position == old(self).player_start_position,
            final(self).exit_point == old(self).exit_point,
            forall|xx: int, yy: int| #[trigger] final(self).tile_at(xx, yy) == old(self).tile_at(
                xx,
                yy,
            ),
            forall|xx: int, yy: int| #[trigger] final(self).wall_at(xx, yy) == old(self).wall_at(
                xx,
                yy,
            ),
            forall|xx: int, yy: int| #[trigger] final(self).spawn_at(xx, yy) == old(self).spawn_at(
                xx,
                yy,
            ),
            forall|xx: int, yy: int| #[trigger] final(self).spawned_at(xx, yy) == old(
                self,
            ).spawned_at(xx, yy),
            final(self).collision_shapes@ == reduce_model(
                expansion(
                    level_cells(*old(self)),
                    old(self).width as int,
                    old(self).height as int,
                ),
                MERGE_PASSES as nat,
            ),
            forall|k: int|
                0 <= k < final(self).collision_shapes@.len() ==> shape_wf(
                    #[trigger] final(self).collision_shapes@[k],
                ),
    {
        let ghost pre = *self;
        let ghost cells = level_cells(pre);
        let ghost h = pre.height as int;
        let mut rects: Vec<Rect> = Vec::new();
        let mut x: u32 = 0;
        while x < self.width
            invariant
                *self == pre,
                pre.grid_wf(),
                0 <= x <= pre.width,
                h == pre.height as int,
                cells == level_cells(pre),
                rects@ == expand_cols(cells, h, x as nat),
                forall|k: int| 0 <= k < rects@.len() ==> shape_wf(#[trigger] rects@[k]),
            decreases pre.width - x,
        {
            let mut y: u32 = 0;
            while y < self.height
                invariant
                    *self == pre,
                    pre.grid_wf(),
                    0 <= x < pre.width,
                    0 <= y <= pre.height,
                    h == pre.height as int,
                    cells == level_cells(pre),
                    rects@ == expand_cols(cells, h, x as nat) + expand_col(
                        cells,
                        h,
                        x as int,
                        y as nat,
                    ),
                    forall|k: int| 0 <= k < rects@.len() ==> shape_wf(#[trigger] rects@[k]),
                decreases pre.height - y,
            {
                let t = self.tile_type(x as i32, y as i32);
                let wt = self.wall_type(x as i32, y as i32);
                let ghost prev = rects@;
                let sx = (x as i32) * 3;
                let sy = (y as i32) * 3;
                if matches!(t, TileType::Nothing) {
                    rects.push(Rect::new(sx, sy, 3, 3));
                } else if matches!(wt, WallType::West | WallType::WestInnerCorner) {
                    rects.push(Rect::new(sx, sy, 1, 3));
                } else if matches!(wt, WallType::East | WallType::EastInnerCorner) {
                    rects.push(Rect::new(sx + 2, sy, 1, 3));
                } else if matches!(wt, WallType::South) {
                    rects.push(Rect::new(sx, sy, 3, 1));
                } else if matches!(wt, WallType::Southeast) {
                    rects.push(Rect::new(sx, sy, 3, 1));
                    rects.push(Rect::new(sx + 2, sy + 1, 1, 2));
                } else if matches!(wt, WallType::Southwest) {
                    rects.push(Rect::new(sx, sy, 3, 1));
                    rects.push(Rect::new(sx, sy + 1, 1, 2));
                }
                proof {
                    lemma_grid_index(pre.width as int, h, x as int, y as int);
                    lemma_fundamental_div_mod_converse(
                        (x as int) * h + y,
                        h,
                        x as int,
                        y as int,
                    );
                    assert(cells[(x as int) * h + y] == (
                        pre.tile_at(x as int, y as int),
                        pre.wall_at(x as int, y as int),
                    ));
                    assert(rects@ =~= prev + tile_shapes(t, wt, x as int, y as int));
                }
                y = y + 1;
            }
            proof {
                assert(rects@ =~= expand_cols(cells, h, (x + 1) as nat));
            }
            x = x + 1;
        }
        let ghost fine = rects@;
        let mut p: u32 = 0;
        while p < MERGE_PASSES
            invariant
                rects@ == reduce_model(fine, p as nat),
                0 <= p <= MERGE_PASSES,
                forall|k: int| 0 <= k < rects@.len() ==> shape_wf(#[trigger] rects@[k]),
            decreases MERGE_PASSES - p,
        {
            merge_rects(&mut rects);
            p = p + 1;
        }
        self.collision_shapes = rects;
    }
}

} // verus!
