//! Seeded room placement.
//!
//! A fixed number of candidate rectangles is drawn; each is clamped onto
//! the grid and kept only if it touches no room placed before it. Kept
//! rooms are stamped into the grid as floor and recorded in placement
//! order. `rooms_after` is the exact model of this process: the placed
//! rooms are a function of the seed and the grid dimensions alone.

use vstd::prelude::*;
use crate::geometry::Rect;
use crate::level::Level;
use crate::level::MAX_DIM;
use crate::rng::RngState;
use crate::rng::SeededRng;
use crate::rng::draw_state;
use crate::rng::draw_value;
use crate::tiles::TileType;

verus! {

/// How many candidate rooms one generation attempts.
pub const MAX_ROOMS: u32 = 20;

/// The smallest room edge drawn.
pub const MIN_ROOM_SIZE: u32 = 8;

/// The largest room edge drawn.
pub const MAX_ROOM_SIZE: u32 = 20;

/// A placed room: consistent fields, the drawn size range, and fully
/// inside the grid.
pub open spec fn room_wf(r: Rect, w: int, h: int) -> bool {
    &&& r.wf()
    &&& MIN_ROOM_SIZE <= r.width <= MAX_ROOM_SIZE
    &&& MIN_ROOM_SIZE <= r.height <= MAX_ROOM_SIZE
    &&& 0 <= r.x && r.x2 <= w
    &&& 0 <= r.y && r.y2 <= h
}

/// The candidate rectangle of one attempt, clamped onto the grid.
pub open spec fn candidate_room(w: int, h: int, x0: int, y0: int, rw: int, rh: int) -> Rect {
    let x = if x0 + rw > w {
        w - rw
    } else {
        x0
    };
    let y = if y0 + rh > h {
        h - rh - 1
    } else {
        y0
    };
    Rect::spec_new(x, y, rw, rh)
}

/// Whether a candidate touches any already placed room.
pub open spec fn collides_any(rooms: Seq<Rect>, room: Rect) -> bool {
    exists|i: int| 0 <= i < rooms.len() && room.spec_intersects(#[trigger] rooms[i])
}

/// Whether some room covers the cell (x, y).
pub open spec fn covered_by_room(rooms: Seq<Rect>, x: int, y: int) -> bool {
    exists|i: int| 0 <= i < rooms.len() && (#[trigger] rooms[i]).spec_contains_tile(x, y)
}

/// One placement attempt: draw position and size, clamp, and keep the
/// candidate iff it collides with no earlier room.
pub open spec fn rooms_step(w: int, h: int, rooms: Seq<Rect>, st: RngState) -> (Seq<Rect>,
    RngState) {
    let x0 = draw_value(st, 0, w);
    let st1 = draw_state(st, 0, w);
    let y0 = draw_value(st1, 0, h - 1);
    let st2 = draw_state(st1, 0, h - 1);
    let rw = draw_value(st2, MIN_ROOM_SIZE as int, MAX_ROOM_SIZE as int + 1);
    let st3 = draw_state(st2, MIN_ROOM_SIZE as int, MAX_ROOM_SIZE as int + 1);
    let rh = draw_value(st3, MIN_ROOM_SIZE as int, MAX_ROOM_SIZE as int + 1);
    let st4 = draw_state(st3, MIN_ROOM_SIZE as int, MAX_ROOM_SIZE as int + 1);
    let room = candidate_room(w, h, x0, y0, rw, rh);
    if collides_any(rooms, room) {
        (rooms, st4)
    } else {
        (rooms.push(room), st4)
    }
}

/// The rooms and the generator state after `n` placement attempts.
pub open spec fn rooms_after(w: int, h: int, st: RngState, n: nat) -> (Seq<Rect>, RngState)
    decreases n,
{
    if n == 0 {
        (Seq::<Rect>::empty(), st)
    } else {
        let prev = rooms_after(w, h, st, (n - 1) as nat);
        rooms_step(w, h, prev.0, prev.1)
    }
}

/// A clamped candidate of legal size is a well-formed room.
pub proof fn lemma_candidate_room_wf(w: int, h: int, x0: int, y0: int, rw: int, rh: int)
    requires
        MAX_ROOM_SIZE <= w <= MAX_DIM,
        MAX_ROOM_SIZE + 1 <= h <= MAX_DIM,
        0 <= x0 < w,
        0 <= y0 < h - 1,
        MIN_ROOM_SIZE <= rw <= MAX_ROOM_SIZE,
        MIN_ROOM_SIZE <= rh <= MAX_ROOM_SIZE,
    ensures
        room_wf(candidate_room(w, h, x0, y0, rw, rh), w, h),
{
}

/// Every room placed by the model is well formed.
pub proof fn lemma_rooms_after_wf(w: int, h: int, st: RngState, n: nat)
    requires
        MAX_ROOM_SIZE <= w <= MAX_DIM,
        MAX_ROOM_SIZE + 1 <= h <= MAX_DIM,
    ensures
        forall|i: int|
            0 <= i < rooms_after(w, h, st, n).0.len() ==> room_wf(
                #[trigger] rooms_after(w, h, st, n).0[i],
                w,
                h,
            ),
    decreases n,
{
    if n > 0 {
        lemma_rooms_after_wf(w, h, st, (n - 1) as nat);
        let prev = rooms_after(w, h, st, (n - 1) as nat);
        let st2 = draw_state(prev.1, 0, w);
        let st3 = draw_state(st2, 0, h - 1);
        let st4 = draw_state(st3, MIN_ROOM_SIZE as int, MAX_ROOM_SIZE as int + 1);
        lemma_candidate_room_wf(
            w,
            h,
            draw_value(prev.1, 0, w),
            draw_value(st2, 0, h - 1),
            draw_value(st3, MIN_ROOM_SIZE as int, MAX_ROOM_SIZE as int + 1),
            draw_value(st4, MIN_ROOM_SIZE as int, MAX_ROOM_SIZE as int + 1),
        );
    }
}

/// At least one attempt succeeds: the first candidate never collides.
pub proof fn lemma_rooms_after_nonempty(w: int, h: int, st: RngState, n: nat)
    requires
        n >= 1,
    ensures
        rooms_after(w, h, st, n).0.len() >= 1,
    decreases n,
{
    if n == 1 {
        assert(rooms_after(w, h, st, 0nat).0.len() == 0);
        assert(!collides_any(Seq::<Rect>::empty(), candidate_room(w, h, draw_value(st, 0, w),
            draw_value(draw_state(st, 0, w), 0, h - 1), draw_value(draw_state(draw_state(st, 0, w), 0, h - 1), MIN_ROOM_SIZE as int, MAX_ROOM_SIZE as int + 1),
            draw_value(draw_state(draw_state(draw_state(st, 0, w), 0, h - 1), MIN_ROOM_SIZE as int, MAX_ROOM_SIZE as int + 1), MIN_ROOM_SIZE as int, MAX_ROOM_SIZE as int + 1))));
    } else {
        lemma_rooms_after_nonempty(w, h, st, (n - 1) as nat);
    }
}

/// Pushing a room extends coverage by exactly that room's cells.
pub proof fn lemma_covered_push(rooms: Seq<Rect>, r: Rect, x: int, y: int)
    ensures
        covered_by_room(rooms.push(r), x, y) == (covered_by_room(rooms, x, y)
            || r.spec_contains_tile(x, y)),
{
    if covered_by_room(rooms.push(r), x, y) {
        let i = choose|i: int|
            0 <= i < rooms.push(r).len() && (#[trigger] rooms.push(r)[i]).spec_contains_tile(x, y);
        if i < rooms.len() {
            assert(rooms[i].spec_contains_tile(x, y));
        } else {
            assert(rooms.push(r)[i] == r);
        }
    }
    if covered_by_room(rooms, x, y) {
        let i = choose|i: int|
            0 <= i < rooms.len() && (#[trigger] rooms[i]).spec_contains_tile(x, y);
        assert(rooms.push(r)[i].spec_contains_tile(x, y));
    } else if r.spec_contains_tile(x, y) {
        assert(rooms.push(r)[rooms.len() as int].spec_contains_tile(x, y));
    }
}

impl Level {
    /// Stamp a room's cells as floor and record it in placement order.
    pub(crate) fn add_room(&mut self, room: &Rect)
        requires
            old(self).grid_wf(),
            room_wf(*room, old(self).width as int, old(self).height as int),
        ensures
            final(self).grid_wf(),
            final(self).width == old(self).width,
            final(self).height == old(self).height,
            final(self).rooms@ == old(self).rooms@.push(*room),
            final(self).collision_shapes@ == old(self).collision_shapes@,
            final(self).player_start_position == old(self).player_start_position,
            final(self).exit_point == old(self).exit_point,
            forall|xx: int, yy: int| #[trigger] final(self).tile_at(xx, yy) == (if room.spec_contains_tile(xx, yy) {
                TileType::Dirt
            } else {
                old(self).tile_at(xx, yy)
            }),
            forall|xx: int, yy: int| #[trigger] final(self).wall_at(xx, yy) == old(self).wall_at(
                xx,
                yy,
            ),
            forall|xx: int, yy: int| #[trigger] final(self).spawn_at(xx, yy) == old(self).spawn_at(
                xx,
                yy,
            ),
            forall|xx: int, yy: int| #[trigger] final(self).spawned_at(xx, yy) == old(
                self,
            ).spawned_at(xx, yy),
    {
        let ghost pre = *self;
        self.rooms.push(room.clone());
        let mut row: i32 = 0;
        while row < room.height
            invariant
                self.grid_wf(),
                0 <= row <= room.height,
                room_wf(*room, pre.width as int, pre.height as int),
                self.width == pre.width,
                self.height == pre.height,
                self.rooms@ == pre.rooms@.push(*room),
                self.collision_shapes@ == pre.collision_shapes@,
                self.player_start_position == pre.player_start_position,
                self.exit_point == pre.exit_point,
                forall|xx: int, yy: int| #[trigger] self.tile_at(xx, yy) == (if room.spec_contains_tile(xx, yy) && yy < room.y + row {
                    TileType::Dirt
                } else {
                    pre.tile_at(xx, yy)
                }),
                forall|xx: int, yy: int| #[trigger] self.wall_at(xx, yy) == pre.wall_at(xx, yy),
                forall|xx: int, yy: int| #[trigger] self.spawn_at(xx, yy) == pre.spawn_at(xx, yy),
                forall|xx: int, yy: int| #[trigger] self.spawned_at(xx, yy) == pre.spawned_at(
                    xx,
                    yy,
                ),
            decreases room.height - row,
        {
            let mut col: i32 = 0;
            while col < room.width
                invariant
                    self.grid_wf(),
                    0 <= row < room.height,
                    0 <= col <= room.width,
                    room_wf(*room, pre.width as int, pre.height as int),
                    self.width == pre.width,
                    self.height == pre.height,
                    self.rooms@ == pre.rooms@.push(*room),
                    self.collision_shapes@ == pre.collision_shapes@,
                    self.player_start_position == pre.player_start_position,
                    self.exit_point == pre.exit_point,
                    forall|xx: int, yy: int| #[trigger] self.tile_at(xx, yy) == (if room.spec_contains_tile(xx, yy) && (yy < room.y + row || (yy == room.y + row && xx
                        < room.x + col)) {
                        TileType::Dirt
                    } else {
                        pre.tile_at(xx, yy)
                    }),
                    forall|xx: int, yy: int| #[trigger] self.wall_at(xx, yy) == pre.wall_at(
                        xx,
                        yy,
                    ),
                    forall|xx: int, yy: int| #[trigger] self.spawn_at(xx, yy) == pre.spawn_at(
                        xx,
                        yy,
                    ),
                    forall|xx: int, yy: int| #[trigger] self.spawned_at(xx, yy) == pre.spawned_at(
                        xx,
                        yy,
                    ),
                decreases room.width - col,
            {
                let x = room.x + col;
                let y = room.y + row;
                self.set_tile(x as u32, y as u32, TileType::Dirt);
                col = col + 1;
            }
            row = row + 1;
        }
    }

    /// Attempt `MAX_ROOMS` room placements, keeping every candidate that
    /// collides with no earlier room. The placed rooms and the generator
    /// state afterwards follow `rooms_after` exactly.
    pub fn place_rooms(&mut self, rng: &mut SeededRng)
        requires
            old(self).grid_wf(),
            MAX_ROOM_SIZE <= old(self).width,
            MAX_ROOM_SIZE + 1 <= old(self).height,
            old(self).rooms@.len() == 0,
        ensures
            final(self).grid_wf(),
            final(self).width == old(self).width,
            final(self).height == old(self).height,
            final(self).collision_shapes@ == old(self).collision_shapes@,
            final(self).player_start_position == old(self).player_start_position,
            final(self).exit_point == old(self).exit_point,
            final(self).rooms@ == rooms_after(
                old(self).width as int,
                old(self).height as int,
                old(rng)@,
                MAX_ROOMS as nat,
            ).0,
            final(rng)@ == rooms_after(
                old(self).width as int,
                old(self).height as int,
                old(rng)@,
                MAX_ROOMS as nat,
            ).1,
            forall|xx: int, yy: int| #[trigger] final(self).tile_at(xx, yy) == (if covered_by_room(
                final(self).rooms@,
                xx,
                yy,
            ) {
                TileType::Dirt
            } else {
                old(self).tile_at(xx, yy)
            }),
            forall|xx: int, yy: int| #[trigger] final(self).wall_at(xx, yy) == old(self).wall_at(
                xx,
                yy,
            ),
            forall|xx: int, yy: int| #[trigger] final(self).spawn_at(xx, yy) == old(self).spawn_at(
                xx,
                yy,
            ),
            forall|xx: int, yy: int| #[trigger] final(self).spawned_at(xx, yy) == old(
                self,
            ).spawned_at(xx, yy),
            forall|i: int|
                0 <= i < final(self).rooms@.len() ==> room_wf(
                    #[trigger] final(self).rooms@[i],
                    old(self).width as int,
                    old(self).height as int,
                ),
            final(self).rooms@.len() >= 1,
    {
        let ghost pre = *self;
        let ghost st0 = rng@;
        let ghost w = old(self).width as int;
        let ghost h = old(self).height as int;
        let mut attempt: u32 = 0;
        while attempt < MAX_ROOMS
            invariant
                self.grid_wf(),
                0 <= attempt <= MAX_ROOMS,
                MAX_ROOM_SIZE <= pre.width,
                MAX_ROOM_SIZE + 1 <= pre.height,
                w == pre.width as int,
                h == pre.height as int,
                self.width == pre.width,
                self.height == pre.height,
                self.collision_shapes@ == pre.collision_shapes@,
                self.player_start_position == pre.player_start_position,
                self.exit_point == pre.exit_point,
                self.rooms@ == rooms_after(w, h, st0, attempt as nat).0,
                rng@ == rooms_after(w, h, st0, attempt as nat).1,
                forall|xx: int, yy: int| #[trigger] self.tile_at(xx, yy) == (if covered_by_room(
                    self.rooms@,
                    xx,
                    yy,
                ) {
                    TileType::Dirt
                } else {
                    pre.tile_at(xx, yy)
                }),
                forall|xx: int, yy: int| #[trigger] self.wall_at(xx, yy) == pre.wall_at(xx, yy),
                forall|xx: int, yy: int| #[trigger] self.spawn_at(xx, yy) == pre.spawn_at(xx, yy),
                forall|xx: int, yy: int| #[trigger] self.spawned_at(xx, yy) == pre.spawned_at(
                    xx,
                    yy,
                ),
                forall|i: int|
                    0 <= i < self.rooms@.len() ==> room_wf(#[trigger] self.rooms@[i], w, h),
            decreases MAX_ROOMS - attempt,
        {
            let ghost rooms_before = self.rooms@;
            let ghost st_before = rng@;
            let x0 = rng.range(0, self.width);
            let y0 = rng.range(0, self.height - 1);
            let rw = rng.range(MIN_ROOM_SIZE, MAX_ROOM_SIZE + 1);
            let rh = rng.range(MIN_ROOM_SIZE, MAX_ROOM_SIZE + 1);
            let mut x = x0;
            let mut y = y0;
            if x + rw > self.width {
                x = self.width - rw;
            }
            if y + rh > self.height {
                y = self.height - rh - 1;
            }
            let room = Rect::new(x as i32, y as i32, rw as i32, rh as i32);
            proof {
                assert(room == candidate_room(w, h, x0 as int, y0 as int, rw as int, rh as int));
                lemma_candidate_room_wf(w, h, x0 as int, y0 as int, rw as int, rh as int);
            }
            let mut collides = false;
            let mut j: usize = 0;
            while j < self.rooms.len()
                invariant
                    0 <= j <= self.rooms@.len(),
                    collides == exists|i: int|
                        0 <= i < j && room.spec_intersects(#[trigger] self.rooms@[i]),
                decreases self.rooms@.len() - j,
            {
                if room.intersects(&self.rooms[j]) {
                    collides = true;
                }
                j = j + 1;
            }
            proof {
                assert(collides == collides_any(rooms_before, room));
            }
            if !collides {
                self.add_room(&room);
                proof {
                    assert forall|xx: int, yy: int| #[trigger] self.tile_at(xx, yy) == (
                    if covered_by_room(self.rooms@, xx, yy) {
                        TileType::Dirt
                    } else {
                        pre.tile_at(xx, yy)
                    }) by {
                        lemma_covered_push(rooms_before, room, xx, yy);
                    }
                }
            }
            proof {
                assert(rooms_after(w, h, st0, (attempt + 1) as nat) == rooms_step(
                    w,
                    h,
                    rooms_before,
                    st_before,
                ));
                assert((self.rooms@, rng@) == rooms_step(w, h, rooms_before, st_before));
            }
            attempt = attempt + 1;
        }
        proof {
            lemma_rooms_after_nonempty(w, h, st0, MAX_ROOMS as nat);
        }
    }
}

} // verus!
