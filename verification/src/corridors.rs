//! L-shaped corridor carving.
//!
//! Consecutive rooms in placement order are joined by one L-shaped
//! corridor, three tiles wide: a horizontal strip at the first room's
//! centre row and a vertical strip at the second room's centre column,
//! each carved from the lower to the higher coordinate. The drawn bend
//! direction decides only the order in which the two strips are carved,
//! which does not affect the resulting grid; the draw still advances the
//! generator, so every later draw depends on it.

use vstd::prelude::*;
use crate::geometry::Rect;
use crate::geometry::max_int;
use crate::geometry::min_int;
use crate::level::Level;
use crate::rng::RngState;
use crate::rng::SeededRng;
use crate::rng::draw_state;
use crate::rooms::room_wf;
use crate::tiles::TileType;

verus! {

/// One three-wide strip of carved floor: the cells `[lo, hi]` along the
/// strip's axis, at rows (or columns) `at - 1 ..= at + 1`.
pub struct Segment {
    pub horizontal: bool,
    pub lo: int,
    pub hi: int,
    pub at: int,
}

pub open spec fn seg_covers(s: Segment, x: int, y: int) -> bool {
    if s.horizontal {
        s.lo <= x <= s.hi && s.at - 1 <= y <= s.at + 1
    } else {
        s.lo <= y <= s.hi && s.at - 1 <= x <= s.at + 1
    }
}

pub open spec fn covered_by_seg(segs: Seq<Segment>, x: int, y: int) -> bool {
    exists|i: int| 0 <= i < segs.len() && seg_covers(#[trigger] segs[i], x, y)
}

/// The two strips of the corridor joining two room centres.
pub open spec fn pair_segments(a: Rect, b: Rect) -> (Segment, Segment) {
    (
        Segment {
            horizontal: true,
            lo: min_int(a.centre.x as int, b.centre.x as int),
            hi: max_int(a.centre.x as int, b.centre.x as int),
            at: a.centre.y as int,
        },
        Segment {
            horizontal: false,
            lo: min_int(a.centre.y as int, b.centre.y as int),
            hi: max_int(a.centre.y as int, b.centre.y as int),
            at: b.centre.x as int,
        },
    )
}

/// The carved strips and the generator state after joining the first `n`
/// consecutive pairs of rooms.
pub open spec fn corridors_upto(rooms: Seq<Rect>, st: RngState, n: nat) -> (Seq<Segment>, RngState)
    decreases n,
{
    if n == 0 {
        (Seq::<Segment>::empty(), st)
    } else {
        let prev = corridors_upto(rooms, st, (n - 1) as nat);
        let p = pair_segments(rooms[n - 1], rooms[n as int]);
        (prev.0.push(p.0).push(p.1), draw_state(prev.1, 0, 2))
    }
}

/// All corridors of a placement-ordered room list.
pub open spec fn corridors_model(rooms: Seq<Rect>, st: RngState) -> (Seq<Segment>, RngState) {
    if rooms.len() == 0 {
        (Seq::<Segment>::empty(), st)
    } else {
        corridors_upto(rooms, st, (rooms.len() - 1) as nat)
    }
}

/// The centre of a well-formed room keeps a margin of at least 4 cells to
/// every grid edge, so a three-wide strip through it stays on the grid.
pub proof fn lemma_room_centre_margin(r: Rect, w: int, h: int)
    requires
        room_wf(r, w, h),
    ensures
        4 <= r.centre.x && r.centre.x as int <= w - 4,
        4 <= r.centre.y && r.centre.y as int <= h - 4,
{
}

/// Pushing a strip extends coverage by exactly that strip's cells.
pub proof fn lemma_seg_covered_push(segs: Seq<Segment>, s: Segment, x: int, y: int)
    ensures
        covered_by_seg(segs.push(s), x, y) == (covered_by_seg(segs, x, y) || seg_covers(s, x, y)),
{
    if covered_by_seg(segs.push(s), x, y) {
        let i = choose|i: int| 0 <= i < segs.push(s).len() && seg_covers(#[trigger] segs.push(s)[i], x, y);
        if i < segs.len() {
            assert(seg_covers(segs[i], x, y));
        } else {
            assert(segs.push(s)[i] == s);
        }
    }
    if covered_by_seg(segs, x, y) {
        let i = choose|i: int| 0 <= i < segs.len() && seg_covers(#[trigger] segs[i], x, y);
        assert(seg_covers(segs.push(s)[i], x, y));
    } else if seg_covers(s, x, y) {
        assert(seg_covers(segs.push(s)[segs.len() as int], x, y));
    }
}

impl Level {
    /// Carve a three-wide horizontal strip of floor, rows `y-1 ..= y+1`,
    /// columns `start_x ..= end_x`.
    pub(crate) fn horz_corridor(&mut self, start_x: i32, end_x: i32, y: i32)
        requires
            old(self).grid_wf(),
            0 <= start_x <= end_x,
            end_x < old(self).width,
            1 <= y,
            y + 1 < old(self).height,
        ensures
            final(self).grid_wf(),
            final(self).width == old(self).width,
            final(self).height == old(self).height,
            final(self).rooms@ == old(self).rooms@,
            final(self).collision_shapes@ == old(self).collision_shapes@,
            final(self).player_start_position == old(self).player_start_position,
            final(self).exit_point == old(self).exit_point,
            forall|xx: int, yy: int| #[trigger] final(self).tile_at(xx, yy) == (if start_x <= xx
                <= end_x && y - 1 <= yy <= y + 1 {
                TileType::Dirt
            } else {
                old(self).tile_at(xx, yy)
            }),
            forall|xx: int, yy: int| #[trigger] final(self).wall_at(xx, yy) == old(self).wall_at(
                xx,
                yy,
            ),
            forall|xx: int, yy: int| #[trigger] final(self).spawn_at(xx, yy) == old(self).spawn_at(
                xx,
                yy,
            ),
            forall|xx: int, yy: int| #[trigger] final(self).spawned_at(xx, yy) == old(
                self,
            ).spawned_at(xx, yy),
    {
        let ghost pre = *self;
        let mut y1: i32 = y - 1;
        while y1 < y + 2
            invariant
                self.grid_wf(),
                y - 1 <= y1 <= y + 2,
                0 <= start_x <= end_x,
                end_x < pre.width,
                1 <= y,
                y + 1 < pre.height,
                self.width == pre.width,
                self.height == pre.height,
                self.rooms@ == pre.rooms@,
                self.collision_shapes@ == pre.collision_shapes@,
                self.player_start_position == pre.player_start_position,
                self.exit_point == pre.exit_point,
                forall|xx: int, yy: int| #[trigger] self.tile_at(xx, yy) == (if start_x <= xx
                    <= end_x && y - 1 <= yy < y1 {
                    TileType::Dirt
                } else {
                    pre.tile_at(xx, yy)
                }),
                forall|xx: int, yy: int| #[trigger] self.wall_at(xx, yy) == pre.wall_at(xx, yy),
                forall|xx: int, yy: int| #[trigger] self.spawn_at(xx, yy) == pre.spawn_at(xx, yy),
                forall|xx: int, yy: int| #[trigger] self.spawned_at(xx, yy) == pre.spawned_at(
                    xx,
                    yy,
                ),
            decreases y + 2 - y1,
        {
            let mut col: i32 = start_x;
            while col <= end_x
                invariant
                    self.grid_wf(),
                    y - 1 <= y1 < y + 2,
                    0 <= start_x <= col <= end_x + 1,
                    end_x < pre.width,
                    1 <= y,
                    y + 1 < pre.height,
                    self.width == pre.width,
                    self.height == pre.height,
                    self.rooms@ == pre.rooms@,
                    self.collision_shapes@ == pre.collision_shapes@,
                    self.player_start_position == pre.player_start_position,
                    self.exit_point == pre.exit_point,
                    forall|xx: int, yy: int| #[trigger] self.tile_at(xx, yy) == (if (start_x <= xx
                        <= end_x && y - 1 <= yy < y1) || (start_x <= xx < col && yy == y1) {
                        TileType::Dirt
                    } else {
                        pre.tile_at(xx, yy)
                    }),
                    forall|xx: int, yy: int| #[trigger] self.wall_at(xx, yy) == pre.wall_at(
                        xx,
                        yy,
                    ),
                    forall|xx: int, yy: int| #[trigger] self.spawn_at(xx, yy) == pre.spawn_at(
                        xx,
                        yy,
                    ),
                    forall|xx: int, yy: int| #[trigger] self.spawned_at(xx, yy) == pre.spawned_at(
                        xx,
                        yy,
                    ),
                decreases end_x + 1 - col,
            {
                self.set_tile(col as u32, y1 as u32, TileType::Dirt);
                col = col + 1;
            }
            y1 = y1 + 1;
        }
    }

    /// Carve a three-wide vertical strip of floor, columns `x-1 ..= x+1`,
    /// rows `start_y ..= end_y`.
    pub(crate) fn vert_corridor(&mut self, start_y: i32, end_y: i32, x: i32)
        requires
            old(self).grid_wf(),
            0 <= start_y <= end_y,
            end_y < old(self).height,
            1 <= x,
            x + 1 < old(self).width,
        ensures
            final(self).grid_wf(),
            final(self).width == old(self).width,
            final(self).height == old(self).height,
            final(self).rooms@ == old(self).rooms@,
            final(self).collision_shapes@ == old(self).collision_shapes@,
            final(self).player_start_position == old(self).player_start_position,
            final(self).exit_point == old(self).exit_point,
            forall|xx: int, yy: int| #[trigger] final(self).tile_at(xx, yy) == (if start_y <= yy
                <= end_y && x - 1 <= xx <= x + 1 {
                TileType::Dirt
            } else {
                old(self).tile_at(xx, yy)
            }),
            forall|xx: int, yy: int| #[trigger] final(self).wall_at(xx, yy) == old(self).wall_at(
                xx,
                yy,
            ),
            forall|xx: int, yy: int| #[trigger] final(self).spawn_at(xx, yy) == old(self).spawn_at(
                xx,
                yy,
            ),
            forall|xx: int, yy: int| #[trigger] final(self).spawned_at(xx, yy) == old(
                self,
            ).spawned_at(xx, yy),
    {
        let ghost pre = *self;
        let mut x1: i32 = x - 1;
        while x1 < x + 2
            invariant
                self.grid_wf(),
                x - 1 <= x1 <= x + 2,
                0 <= start_y <= end_y,
                end_y < pre.height,
                1 <= x,
                x + 1 < pre.width,
                self.width == pre.width,
                self.height == pre.height,
                self.rooms@ == pre.rooms@,
                self.collision_shapes@ == pre.collision_shapes@,
                self.player_start_position == pre.player_start_position,
                self.exit_point == pre.exit_point,
                forall|xx: int, yy: int| #[trigger] self.tile_at(xx, yy) == (if start_y <= yy
                    <= end_y && x - 1 <= xx < x1 {
                    TileType::Dirt
                } else {
                    pre.tile_at(xx, yy)
                }),
                forall|xx: int, yy: int| #[trigger] self.wall_at(xx, yy) == pre.wall_at(xx, yy),
                forall|xx: int, yy: int| #[trigger] self.spawn_at(xx, yy) == pre.spawn_at(xx, yy),
                forall|xx: int, yy: int| #[trigger] self.spawned_at(xx, yy) == pre.spawned_at(
                    xx,
                    yy,
                ),
            decreases x + 2 - x1,
        {
            let mut row: i32 = start_y;
            while row <= end_y
                invariant
                    self.grid_wf(),
                    x - 1 <= x1 < x + 2,
                    0 <= start_y <= row <= end_y + 1,
                    end_y < pre.height,
                    1 <= x,
                    x + 1 < pre.width,
                    self.width == pre.width,
                    self.height == pre.height,
                    self.rooms@ == pre.rooms@,
                    self.collision_shapes@ == pre.collision_shapes@,
                    self.player_start_position == pre.player_start_position,
                    self.exit_point == pre.exit_point,
                    forall|xx: int, yy: int| #[trigger] self.tile_at(xx, yy) == (if (start_y <= yy
                        <= end_y && x - 1 <= xx < x1) || (start_y <= yy < row && xx == x1) {
                        TileType::Dirt
                    } else {
                        pre.tile_at(xx, yy)
                    }),
                    forall|xx: int, yy: int| #[trigger] self.wall_at(xx, yy) == pre.wall_at(
                        xx,
                        yy,
                    ),
                    forall|xx: int, yy: int| #[trigger] self.spawn_at(xx, yy) == pre.spawn_at(
                        xx,
                        yy,
                    ),
                    forall|xx: int, yy: int| #[trigger] self.spawned_at(xx, yy) == pre.spawned_at(
                        xx,
                        yy,
                    ),
                decreases end_y + 1 - row,
            {
                self.set_tile(x1 as u32, row as u32, TileType::Dirt);
                row = row + 1;
            }
            x1 = x1 + 1;
        }
    }

    /// Join every consecutive pair of rooms in placement order with one
    /// L-shaped corridor. The carved cells and the generator state
    /// afterwards follow `corridors_model` exactly.
    pub fn place_corridors(&mut self, rng: &mut SeededRng)
        requires
            old(self).grid_wf(),
            old(self).rooms@.len() >= 1,
            forall|i: int|
                0 <= i < old(self).rooms@.len() ==> room_wf(
                    #[trigger] old(self).rooms@[i],
                    old(self).width as int,
                    old(self).height as int,
                ),
        ensures
            final(self).grid_wf(),
            final(self).width == old(self).width,
            final(self).height == old(self).height,
            final(self).rooms@ == old(self).rooms@,
            final(self).collision_shapes@ == old(self).collision_shapes@,
            final(self).player_start_position == old(self).player_start_position,
            final(self).exit_point == old(self).exit_point,
            final(rng)@ == corridors_model(old(self).rooms@, old(rng)@).1,
            forall|xx: int, yy: int| #[trigger] final(self).tile_at(xx, yy) == (if covered_by_seg(
                corridors_model(old(self).rooms@, old(rng)@).0,
                xx,
                yy,
            ) {
                TileType::Dirt
            } else {
                old(self).tile_at(xx, yy)
            }),
            forall|xx: int, yy: int| #[trigger] final(self).wall_at(xx, yy) == old(self).wall_at(
                xx,
                yy,
            ),
            forall|xx: int, yy: int| #[trigger] final(self).spawn_at(xx, yy) == old(self).spawn_at(
                xx,
                yy,
            ),
            forall|xx: int, yy: int| #[trigger] final(self).spawned_at(xx, yy) == old(
                self,
            ).spawned_at(xx, yy),
    {
        let ghost pre = *self;
        let ghost st0 = rng@;
        let ghost w = old(self).width as int;
        let ghost h = old(self).height as int;
        let mut i: usize = 0;
        let n = self.rooms.len();
        while i < n - 1
            invariant
                self.grid_wf(),
                0 <= i <= n - 1,
                n == pre.rooms@.len(),
                n >= 1,
                w == pre.width as int,
                h == pre.height as int,
                forall|k: int| 0 <= k < n ==> room_wf(#[trigger] pre.rooms@[k], w, h),
                self.width == pre.width,
                self.height == pre.height,
                self.rooms@ == pre.rooms@,
                self.collision_shapes@ == pre.collision_shapes@,
                self.player_start_position == pre.player_start_position,
                self.exit_point == pre.exit_point,
                rng@ == corridors_upto(pre.rooms@, st0, i as nat).1,
                forall|xx: int, yy: int| #[trigger] self.tile_at(xx, yy) == (if covered_by_seg(
                    corridors_upto(pre.rooms@, st0, i as nat).0,
                    xx,
                    yy,
                ) {
                    TileType::Dirt
                } else {
                    pre.tile_at(xx, yy)
                }),
                forall|xx: int, yy: int| #[trigger] self.wall_at(xx, yy) == pre.wall_at(xx, yy),
                forall|xx: int, yy: int| #[trigger] self.spawn_at(xx, yy) == pre.spawn_at(xx, yy),
                forall|xx: int, yy: int| #[trigger] self.spawned_at(xx, yy) == pre.spawned_at(
                    xx,
                    yy,
                ),
            decreases n - 1 - i,
        {
            let room = self.rooms[i];
            let other = self.rooms[i + 1];
            proof {
                lemma_room_centre_margin(room, w, h);
                lemma_room_centre_margin(other, w, h);
            }
            let ghost segs_before = corridors_upto(pre.rooms@, st0, i as nat).0;
            let ghost mid = *self;
            let _direction = rng.range(0, 2);
            let sx = if room.centre.x <= other.centre.x {
                room.centre.x
            } else {
                other.centre.x
            };
            let ex = if room.centre.x <= other.centre.x {
                other.centre.x
            } else {
                room.centre.x
            };
            let sy = if room.centre.y <= other.centre.y {
                room.centre.y
            } else {
                other.centre.y
            };
            let ey = if room.centre.y <= other.centre.y {
                other.centre.y
            } else {
                room.centre.y
            };
            self.horz_corridor(sx, ex, room.centre.y);
            let ghost mid2 = *self;
            self.vert_corridor(sy, ey, other.centre.x);
            proof {
                let p = pair_segments(pre.rooms@[i as int], pre.rooms@[i as int + 1]);
                let segs_after = corridors_upto(pre.rooms@, st0, (i + 1) as nat).0;
                assert(segs_after == segs_before.push(p.0).push(p.1));
                assert forall|xx: int, yy: int| #[trigger] self.tile_at(xx, yy) == (
                if covered_by_seg(segs_after, xx, yy) {
                    TileType::Dirt
                } else {
                    pre.tile_at(xx, yy)
                }) by {
                    lemma_seg_covered_push(segs_before, p.0, xx, yy);
                    lemma_seg_covered_push(segs_before.push(p.0), p.1, xx, yy);
                    assert(mid2.tile_at(xx, yy) == (if seg_covers(p.0, xx, yy) {
                        TileType::Dirt
                    } else {
                        mid.tile_at(xx, yy)
                    }));
                    assert(self.tile_at(xx, yy) == (if seg_covers(p.1, xx, yy) {
                        TileType::Dirt
                    } else {
                        mid2.tile_at(xx, yy)
                    }));
                }
            }
            i = i + 1;
        }
    }
}

} // verus!
