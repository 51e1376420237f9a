//! The generation pipeline: seed to finished level.
//!
//! `matches_generation` states, for every observation a level offers, the
//! value it must have as a function of the seed and the dimensions alone.
//! `generate_from_seed_bytes` ensures it, which makes seeded generation
//! deterministic: `lemma_generation_deterministic` derives that two levels
//! generated from the same arguments agree on every observation.

use vstd::prelude::*;
use crate::corridors::corridors_model;
use crate::corridors::covered_by_seg;
use crate::geometry::Point;
use crate::geometry::Rect;
use crate::level::Level;
use crate::level::MAX_DIM;
use crate::reducer::reduce_model;
use crate::rng::RngState;
use crate::rng::SeededRng;
use crate::rng::entropy_seed;
use crate::rng::seed_bytes_of;
use crate::rng::seed_from_text;
use crate::rooms::MAX_ROOMS;
use crate::rooms::MAX_ROOM_SIZE;
use crate::rooms::covered_by_room;
use crate::rooms::lemma_rooms_after_nonempty;
use crate::rooms::lemma_rooms_after_wf;
use crate::rooms::rooms_after;
use crate::shapes::MERGE_PASSES;
use crate::shapes::expansion;
use crate::shapes::level_cells;
use crate::spawn::scatter_model;
use crate::spawn::sort_rooms;
use crate::spawn::lemma_sort_rooms_props;
use crate::tiles::TileType;
use crate::tiles::WallType;
use crate::walls::classify_wall;
use crate::walls::wall_class_at;

verus! {

/// The generator state a 32-byte seed starts from.
pub open spec fn gen_rng0(seed: Seq<u8>) -> RngState {
    RngState { seed, history: Seq::<(int, int)>::empty() }
}

/// The rooms in placement order.
pub open spec fn gen_rooms_placed(seed: Seq<u8>, w: int, h: int) -> Seq<Rect> {
    rooms_after(w, h, gen_rng0(seed), MAX_ROOMS as nat).0
}

/// The generator state after room placement.
pub open spec fn gen_st_rooms(seed: Seq<u8>, w: int, h: int) -> RngState {
    rooms_after(w, h, gen_rng0(seed), MAX_ROOMS as nat).1
}

/// The carved corridor strips.
pub open spec fn gen_segments(seed: Seq<u8>, w: int, h: int) -> Seq<crate::corridors::Segment> {
    corridors_model(gen_rooms_placed(seed, w, h), gen_st_rooms(seed, w, h)).0
}

/// The generator state after corridor carving.
pub open spec fn gen_st_corridors(seed: Seq<u8>, w: int, h: int) -> RngState {
    corridors_model(gen_rooms_placed(seed, w, h), gen_st_rooms(seed, w, h)).1
}

/// The rooms sorted by centre y, as the finished level records them.
pub open spec fn gen_sorted_rooms(seed: Seq<u8>, w: int, h: int) -> Seq<Rect> {
    sort_rooms(gen_rooms_placed(seed, w, h))
}

/// The player start: the centre of the bottommost room.
pub open spec fn gen_start(seed: Seq<u8>, w: int, h: int) -> Point {
    gen_sorted_rooms(seed, w, h)[0].centre
}

/// The exit: the centre of the topmost room.
pub open spec fn gen_exit(seed: Seq<u8>, w: int, h: int) -> Point {
    gen_sorted_rooms(seed, w, h).last().centre
}

/// The accepted spawn points.
pub open spec fn gen_points(seed: Seq<u8>, w: int, h: int) -> Seq<Point> {
    scatter_model(gen_sorted_rooms(seed, w, h), gen_st_corridors(seed, w, h)).0
}

/// The tile grid before the exit tile is written: floor wherever a room or
/// a corridor strip covers the cell.
pub open spec fn gen_tile_pre(seed: Seq<u8>, w: int, h: int, x: int, y: int) -> TileType {
    if 0 <= x < w && 0 <= y < h && (covered_by_room(gen_rooms_placed(seed, w, h), x, y)
        || covered_by_seg(gen_segments(seed, w, h), x, y)) {
        TileType::Dirt
    } else {
        TileType::Nothing
    }
}

/// The finished tile grid: the exit room's centre is `Exit`.
pub open spec fn gen_tile(seed: Seq<u8>, w: int, h: int, x: int, y: int) -> TileType {
    if x == gen_exit(seed, w, h).x as int && y == gen_exit(seed, w, h).y as int {
        TileType::Exit
    } else {
        gen_tile_pre(seed, w, h, x, y)
    }
}

/// The finished wall grid: the classifier over the pre-exit tile grid.
pub open spec fn gen_wall(seed: Seq<u8>, w: int, h: int, x: int, y: int) -> WallType {
    if 0 <= x < w && 0 <= y < h {
        classify_wall(
            gen_tile_pre(seed, w, h, x, y),
            gen_tile_pre(seed, w, h, x, y - 1),
            gen_tile_pre(seed, w, h, x - 1, y - 1),
            gen_tile_pre(seed, w, h, x + 1, y - 1),
            gen_tile_pre(seed, w, h, x - 1, y),
            gen_tile_pre(seed, w, h, x + 1, y),
        )
    } else {
        WallType::Nothing
    }
}

/// The (tile, wall) pair of every cell of the pre-exit grid, in scan order.
pub open spec fn gen_cells(seed: Seq<u8>, w: int, h: int) -> Seq<(TileType, WallType)> {
    Seq::new(
        (w * h) as nat,
        |i: int| (gen_tile_pre(seed, w, h, i / h, i % h), gen_wall(seed, w, h, i / h, i % h)),
    )
}

/// The reduced collision rectangles.
pub open spec fn gen_shapes(seed: Seq<u8>, w: int, h: int) -> Seq<Rect> {
    reduce_model(expansion(gen_cells(seed, w, h), w, h), MERGE_PASSES as nat)
}

impl Level {
    /// Every observation of this level has the value that generation from
    /// the given seed and dimensions yields.
    pub open spec fn matches_generation(self, seed: Seq<u8>, width: u32, height: u32) -> bool {
        let w = width as int;
        let h = height as int;
        &&& self.grid_wf()
        &&& self.width == width
        &&& self.height == height
        &&& self.rooms@ == gen_sorted_rooms(seed, w, h)
        &&& self.player_start_position == gen_start(seed, w, h)
        &&& self.exit_point == gen_exit(seed, w, h)
        &&& self.collision_shapes@ == gen_shapes(seed, w, h)
        &&& forall|x: int, y: int| #[trigger] self.tile_at(x, y) == gen_tile(seed, w, h, x, y)
        &&& forall|x: int, y: int| #[trigger] self.wall_at(x, y) == gen_wall(seed, w, h, x, y)
        &&& forall|x: int, y: int| #[trigger] self.spawn_at(x, y) == (self.in_bounds(x, y)
            && gen_points(seed, w, h).contains(Point { x: x as i32, y: y as i32 }))
        &&& forall|x: int, y: int| !(#[trigger] self.spawned_at(x, y))
    }

    /// Generate a level from a 32-byte seed. The same seed and dimensions
    /// always produce the same level.
    pub fn generate_from_seed_bytes(seed: [u8; 32], width: u32, height: u32) -> (r: Level)
        requires
            MAX_ROOM_SIZE <= width <= MAX_DIM,
            MAX_ROOM_SIZE + 1 <= height <= MAX_DIM,
        ensures
            r.matches_generation(seed@, width, height),
    {
        let ghost w = width as int;
        let ghost h = height as int;
        let mut level = Level::new(width, height);
        let mut rng = SeededRng::from_seed(seed);
        proof {
            assert(rng@ == gen_rng0(seed@));
        }
        let ghost l0 = level;
        level.place_rooms(&mut rng);
        let ghost l1 = level;
        proof {
            assert(l1.rooms@ == gen_rooms_placed(seed@, w, h));
            assert(rng@ == gen_st_rooms(seed@, w, h));
        }
        level.place_corridors(&mut rng);
        let ghost l2 = level;
        proof {
            assert(rng@ == gen_st_corridors(seed@, w, h));
            assert forall|x: int, y: int| #[trigger] l2.tile_at(x, y) == gen_tile_pre(
                seed@,
                w,
                h,
                x,
                y,
            ) by {
                assert(l2.tile_at(x, y) == (if covered_by_seg(gen_segments(seed@, w, h), x, y) {
                    TileType::Dirt
                } else {
                    l1.tile_at(x, y)
                }));
                assert(l1.tile_at(x, y) == (if covered_by_room(l1.rooms@, x, y) {
                    TileType::Dirt
                } else {
                    l0.tile_at(x, y)
                }));
            }
        }
        level.calculate_walls();
        let ghost l3 = level;
        proof {
            assert forall|x: int, y: int| #[trigger] l3.wall_at(x, y) == gen_wall(seed@, w, h, x, y)
            by {
                if l2.in_bounds(x, y) {
                    assert(l3.wall_at(x, y) == wall_class_at(l2, x, y));
                    assert(l2.tile_at(x, y) == gen_tile_pre(seed@, w, h, x, y));
                    assert(l2.tile_at(x, y - 1) == gen_tile_pre(seed@, w, h, x, y - 1));
                    assert(l2.tile_at(x - 1, y - 1) == gen_tile_pre(seed@, w, h, x - 1, y - 1));
                    assert(l2.tile_at(x + 1, y - 1) == gen_tile_pre(seed@, w, h, x + 1, y - 1));
                    assert(l2.tile_at(x - 1, y) == gen_tile_pre(seed@, w, h, x - 1, y));
                    assert(l2.tile_at(x + 1, y) == gen_tile_pre(seed@, w, h, x + 1, y));
                }
            }
            assert forall|x: int, y: int| #[trigger] l3.tile_at(x, y) == gen_tile_pre(
                seed@,
                w,
                h,
                x,
                y,
            ) by {
                assert(l2.tile_at(x, y) == gen_tile_pre(seed@, w, h, x, y));
            }
        }
        level.calculate_collision_shapes();
        let ghost l4 = level;
        proof {
            assert(level_cells(l3) =~= gen_cells(seed@, w, h));
            assert(l4.collision_shapes@ == gen_shapes(seed@, w, h));
        }
        level.calculate_spawn_points(&mut rng);
        proof {
            assert(l4.rooms@ == gen_rooms_placed(seed@, w, h));
            assert(level.rooms@ == gen_sorted_rooms(seed@, w, h));
            lemma_rooms_after_nonempty(w, h, gen_rng0(seed@), MAX_ROOMS as nat);
            lemma_sort_rooms_props(gen_rooms_placed(seed@, w, h));
            assert forall|x: int, y: int| #[trigger] level.tile_at(x, y) == gen_tile(
                seed@,
                w,
                h,
                x,
                y,
            ) by {
                assert(l4.tile_at(x, y) == gen_tile_pre(seed@, w, h, x, y));
            }
            assert forall|x: int, y: int| #[trigger] level.wall_at(x, y) == gen_wall(
                seed@,
                w,
                h,
                x,
                y,
            ) by {
                assert(l4.wall_at(x, y) == gen_wall(seed@, w, h, x, y));
            }
            assert forall|x: int, y: int| #[trigger] level.spawn_at(x, y) == (level.in_bounds(x, y)
                && gen_points(seed@, w, h).contains(Point { x: x as i32, y: y as i32 })) by {
                assert(!l4.spawn_at(x, y));
            }
            assert forall|x: int, y: int| !(#[trigger] level.spawned_at(x, y)) by {
                assert(!l0.spawned_at(x, y));
            }
        }
        level
    }

    /// Generate a level from a seed string: the 32 seed bytes are derived
    /// from the SHA-256 digest of the string, so the same string and
    /// dimensions always produce the same level.
    pub fn generate_from_seed_string(seed: &str, width: u32, height: u32) -> (r: Level)
        requires
            MAX_ROOM_SIZE <= width <= MAX_DIM,
            MAX_ROOM_SIZE + 1 <= height <= MAX_DIM,
        ensures
            r.matches_generation(seed_bytes_of(seed@), width, height),
    {
        let bytes = seed_from_text(seed);
        Level::generate_from_seed_bytes(bytes, width, height)
    }

    /// Generate a level from process entropy: not reproducible, but still a
    /// generation output, with every generation invariant.
    pub fn generate_random(width: u32, height: u32) -> (r: Level)
        requires
            MAX_ROOM_SIZE <= width <= MAX_DIM,
            MAX_ROOM_SIZE + 1 <= height <= MAX_DIM,
        ensures
            exists|seed: Seq<u8>| r.matches_generation(seed, width, height),
    {
        let seed = entropy_seed();
        let r = Level::generate_from_seed_bytes(seed, width, height);
        proof {
            assert(r.matches_generation(seed@, width, height));
        }
        r
    }
}

/// Seeded generation is deterministic: two levels generated from the same
/// seed and dimensions agree on every observation.
pub proof fn lemma_generation_deterministic(
    a: Level,
    b: Level,
    seed: Seq<u8>,
    width: u32,
    height: u32,
)
    requires
        a.matches_generation(seed, width, height),
        b.matches_generation(seed, width, height),
    ensures
        a.width == b.width,
        a.height == b.height,
        a.rooms@ == b.rooms@,
        a.collision_shapes@ == b.collision_shapes@,
        a.player_start_position == b.player_start_position,
        a.exit_point == b.exit_point,
        forall|x: int, y: int| #[trigger] a.tile_at(x, y) == b.tile_at(x, y),
        forall|x: int, y: int| #[trigger] a.wall_at(x, y) == b.wall_at(x, y),
        forall|x: int, y: int| #[trigger] a.spawn_at(x, y) == b.spawn_at(x, y),
        forall|x: int, y: int| #[trigger] a.spawned_at(x, y) == b.spawned_at(x, y),
{
}

/// Exactly one tile of a generated level is the exit: the centre of the
/// last room in sorted order, whose centre y is the greatest of all rooms.
pub proof fn lemma_exit_unique(l: Level, seed: Seq<u8>, width: u32, height: u32)
    requires
        l.matches_generation(seed, width, height),
        MAX_ROOM_SIZE <= width <= MAX_DIM,
        MAX_ROOM_SIZE + 1 <= height <= MAX_DIM,
    ensures
        l.rooms@.len() >= 1,
        l.exit_point == l.rooms@.last().centre,
        forall|x: int, y: int|
            (#[trigger] l.tile_at(x, y) == TileType::Exit) <==> (x == l.exit_point.x as int && y
                == l.exit_point.y as int),
        forall|i: int|
            0 <= i < l.rooms@.len() ==> (#[trigger] l.rooms@[i]).centre.y
                <= l.rooms@.last().centre.y,
{
    let w = width as int;
    let h = height as int;
    lemma_rooms_after_nonempty(w, h, gen_rng0(seed), MAX_ROOMS as nat);
    lemma_rooms_after_wf(w, h, gen_rng0(seed), MAX_ROOMS as nat);
    lemma_sort_rooms_props(gen_rooms_placed(seed, w, h));
    let placed = gen_rooms_placed(seed, w, h);
    let sorted = gen_sorted_rooms(seed, w, h);
    let last = sorted[sorted.len() - 1];
    assert(placed.contains(last));
    let m = choose|m: int| 0 <= m < placed.len() && placed[m] == last;
    crate::corridors::lemma_room_centre_margin(last, w, h);
    assert forall|x: int, y: int|
        (#[trigger] l.tile_at(x, y) == TileType::Exit) <==> (x == l.exit_point.x as int && y
            == l.exit_point.y as int) by {
        assert(l.tile_at(x, y) == gen_tile(seed, w, h, x, y));
    }
}

} // verus!
