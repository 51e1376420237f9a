use dungeon::Level;
use dungeon::Point;
use dungeon::TileType;

fn grids_equal(a: &Level, b: &Level) -> bool {
    if a.width != b.width || a.height != b.height {
        return false;
    }
    for x in 0..a.width as i32 {
        for y in 0..a.height as i32 {
            if a.tile_type(x, y) != b.tile_type(x, y) {
                return false;
            }
            if a.wall_type(x, y) != b.wall_type(x, y) {
                return false;
            }
        }
    }
    true
}

#[test]
fn zero_seed_regeneration_is_byte_identical() {
    let a = Level::generate_from_seed_bytes([0u8; 32], 48, 24);
    let b = Level::generate_from_seed_bytes([0u8; 32], 48, 24);
    assert!(grids_equal(&a, &b));
    assert_eq!(a.tiles(), b.tiles());
    assert_eq!(a.rooms(), b.rooms());
    assert_eq!(a.collision_shapes(), b.collision_shapes());
    assert_eq!(a.spawn_points(), b.spawn_points());
    assert_eq!(a.player_start(), b.player_start());
    assert_eq!(a.exit_point(), b.exit_point());
}

#[test]
fn seed_bytes_generation_is_deterministic() {
    let mut seed = [0u8; 32];
    for (i, b) in seed.iter_mut().enumerate() {
        *b = i as u8;
    }
    let a = Level::generate_from_seed_bytes(seed, 64, 32);
    let b = Level::generate_from_seed_bytes(seed, 64, 32);
    assert!(grids_equal(&a, &b));
    assert_eq!(a.rooms(), b.rooms());
    assert_eq!(a.spawn_points(), b.spawn_points());
}

#[test]
fn seed_string_generation_is_deterministic() {
    let a = Level::generate_from_seed_string("test-seed-1", 96, 48);
    let b = Level::generate_from_seed_string("test-seed-1", 96, 48);
    assert!(grids_equal(&a, &b));
    assert_eq!(a.rooms(), b.rooms());
}

#[test]
fn different_seed_strings_differ() {
    // would fail if the seed derivation ignored its input
    let a = Level::generate_from_seed_string("test-seed-1", 48, 24);
    let b = Level::generate_from_seed_string("test-seed-2", 48, 24);
    assert!(!grids_equal(&a, &b) || a.rooms() != b.rooms());
}

#[test]
fn different_seed_bytes_differ() {
    // would fail if the generator ignored its seed
    let a = Level::generate_from_seed_bytes([0u8; 32], 48, 24);
    let b = Level::generate_from_seed_bytes([1u8; 32], 48, 24);
    assert!(!grids_equal(&a, &b) || a.rooms() != b.rooms());
}

#[test]
fn exactly_one_exit_at_topmost_room_centre() {
    let level = Level::generate_from_seed_string("test-seed-1", 96, 48);
    let mut exits = 0;
    for x in 0..96i32 {
        for y in 0..48i32 {
            if level.tile_type(x, y) == TileType::Exit {
                exits += 1;
                assert_eq!(Point { x, y }, level.exit_point());
            }
        }
    }
    assert_eq!(exits, 1);
    let rooms = level.rooms();
    assert!(rooms.len() >= 1);
    let last = &rooms[rooms.len() - 1];
    assert_eq!(level.exit_point(), last.centre);
    for r in rooms.iter() {
        assert!(r.centre.y <= last.centre.y);
    }
}

#[test]
fn start_is_bottommost_room_centre() {
    let level = Level::generate_from_seed_string("test-seed-1", 96, 48);
    let rooms = level.rooms();
    assert_eq!(level.player_start(), rooms[0].centre);
    for r in rooms.iter() {
        assert!(r.centre.y >= rooms[0].centre.y);
    }
    // the start stands on walkable floor
    let s = level.player_start();
    assert!(level.tile_type(s.x, s.y) != TileType::Nothing);
}

#[test]
fn rooms_do_not_overlap() {
    let level = Level::generate_from_seed_string("test-seed-1", 96, 48);
    let rooms = level.rooms();
    // placement rejects intersecting (even touching) candidates
    for i in 0..rooms.len() {
        for j in 0..rooms.len() {
            if i != j {
                assert!(!rooms[i].intersects(&rooms[j]));
            }
        }
    }
}

#[test]
fn out_of_bounds_queries_return_nothing() {
    let level = Level::generate_from_seed_bytes([0u8; 32], 48, 24);
    assert_eq!(level.tile_type(-1, -1), TileType::Nothing);
    assert_eq!(level.tile_type(48, 24), TileType::Nothing);
    assert_eq!(level.tile_type(0, -1), TileType::Nothing);
    assert_eq!(level.tile_type(-1, 0), TileType::Nothing);
    assert_eq!(level.wall_type(-1, -1), dungeon::WallType::Nothing);
    assert_eq!(level.wall_type(48, 24), dungeon::WallType::Nothing);
}

#[test]
fn spawn_points_sit_on_interior_room_floor() {
    let level = Level::generate_from_seed_string("test-seed-1", 96, 48);
    let rooms = level.rooms();
    let n = rooms.len();
    for p in level.spawn_points().iter() {
        assert_eq!(level.tile_type(p.x, p.y), TileType::Dirt);
        let mut owner = None;
        for (i, r) in rooms.iter().enumerate() {
            if r.contains_tile(p.x, p.y) {
                owner = Some(i);
            }
        }
        let i = owner.expect("spawn point outside every room");
        assert!(i != 0 && i != n - 1);
    }
}

#[test]
fn spawn_points_keep_minimum_separation() {
    let level = Level::generate_from_seed_string("test-seed-1", 96, 48);
    let pts = level.spawn_points();
    for i in 0..pts.len() {
        for j in 0..pts.len() {
            if i != j {
                let d = (pts[i].x - pts[j].x).abs() + (pts[i].y - pts[j].y).abs();
                assert!(d > 1);
            }
        }
    }
}

#[test]
fn generate_random_yields_a_valid_level() {
    let level = Level::generate_random(48, 24);
    assert_eq!(level.width, 48);
    assert_eq!(level.height, 24);
    assert!(level.rooms().len() >= 1);
    let s = level.player_start();
    assert!(level.tile_type(s.x, s.y) != TileType::Nothing);
}

#[test]
fn spawned_flag_is_settable_per_tile() {
    let mut level = Level::generate_from_seed_bytes([7u8; 32], 48, 24);
    let s = level.player_start();
    assert!(!level.get_tile(s.x, s.y).spawned);
    level.set_spawned(s.x, s.y, true);
    assert!(level.get_tile(s.x, s.y).spawned);
    level.set_spawned(s.x, s.y, false);
    assert!(!level.get_tile(s.x, s.y).spawned);
}

#[test]
fn tiles_record_their_own_coordinates() {
    let level = Level::generate_from_seed_bytes([0u8; 32], 48, 24);
    assert_eq!(level.get_tile(5, 7).position, Point { x: 5, y: 7 });
    assert_eq!(level.tiles().len(), 48 * 24);
}
