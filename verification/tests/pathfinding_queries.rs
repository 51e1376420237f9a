use dungeon::Level;
use dungeon::Point;
use dungeon::TileType;

fn is_floor(level: &Level, p: Point) -> bool {
    level.tile_type(p.x, p.y) != TileType::Nothing
}

fn is_valid_step(level: &Level, a: Point, b: Point) -> bool {
    let dx = b.x - a.x;
    let dy = b.y - a.y;
    if dx.abs() + dy.abs() == 1 {
        is_floor(level, b)
    } else if dx.abs() == 1 && dy.abs() == 1 {
        is_floor(level, b) && is_floor(level, Point { x: b.x, y: a.y }) && is_floor(
            level,
            Point { x: a.x, y: b.y },
        )
    } else {
        false
    }
}

#[test]
fn every_room_centre_is_reachable_from_start() {
    let level = Level::generate_from_seed_string("test-seed-1", 96, 48);
    let start = level.player_start();
    for room in level.rooms().iter() {
        let path = level.find_path(start, room.centre);
        assert!(path.is_some(), "no path from start to a room centre");
    }
}

#[test]
fn every_floor_tile_is_reachable_from_start() {
    let level = Level::generate_from_seed_bytes([0u8; 32], 48, 24);
    let start = level.player_start();
    for x in 0..48i32 {
        for y in 0..24i32 {
            if level.tile_type(x, y) != TileType::Nothing {
                let path = level.find_path(start, Point { x, y });
                assert!(path.is_some(), "unreachable floor tile");
            }
        }
    }
}

#[test]
fn returned_paths_are_valid_walks() {
    let level = Level::generate_from_seed_string("test-seed-1", 96, 48);
    let start = level.player_start();
    let goal = level.exit_point();
    let path = level.find_path(start, goal).expect("exit must be reachable");
    // the path excludes the start and ends at the goal
    assert!(!path.is_empty());
    assert_eq!(*path.last().unwrap(), goal);
    let mut prev = start;
    for p in path.iter() {
        assert!(is_valid_step(&level, prev, *p), "invalid step in path");
        prev = *p;
    }
}

#[test]
fn path_from_a_point_to_itself_is_empty() {
    let level = Level::generate_from_seed_string("test-seed-1", 96, 48);
    let start = level.player_start();
    let path = level.find_path(start, start);
    assert_eq!(path, Some(vec![]));
    let exit = level.exit_point();
    assert_eq!(level.find_path(exit, exit), Some(vec![]));
}

#[test]
fn unreachable_targets_give_none() {
    let level = Level::generate_from_seed_bytes([0u8; 32], 48, 24);
    let start = level.player_start();
    // a far out-of-bounds cell has no incoming move
    assert_eq!(level.find_path(start, Point { x: -5, y: -5 }), None);
}
