use dungeon::Level;
use dungeon::LevelTile;
use dungeon::Point;
use dungeon::Rect;
use dungeon::TileType;
use dungeon::WallType;
use dungeon::reducer::merge_rects;

/// Stamp one tile of a hand-built level (column-major storage).
fn set_dirt(level: &mut Level, x: i32, y: i32) {
    let idx = (x as usize) * (level.height as usize) + (y as usize);
    level.tiles[idx].tile_type = TileType::Dirt;
}

#[test]
fn classifier_marks_the_border_of_a_block() {
    let mut level = Level::new(8, 8);
    for x in 2..=4 {
        for y in 2..=4 {
            set_dirt(&mut level, x, y);
        }
    }
    level.calculate_walls();
    // row above the block (empty cells over floor)
    assert_eq!(level.wall_type(2, 5), WallType::Northwest);
    assert_eq!(level.wall_type(3, 5), WallType::North);
    assert_eq!(level.wall_type(4, 5), WallType::Northeast);
    // west edge of the block
    assert_eq!(level.wall_type(2, 2), WallType::Southwest);
    assert_eq!(level.wall_type(2, 3), WallType::West);
    assert_eq!(level.wall_type(2, 4), WallType::West);
    // east edge of the block
    assert_eq!(level.wall_type(4, 2), WallType::Southeast);
    assert_eq!(level.wall_type(4, 3), WallType::East);
    assert_eq!(level.wall_type(4, 4), WallType::East);
    // south edge and interior
    assert_eq!(level.wall_type(3, 2), WallType::South);
    assert_eq!(level.wall_type(3, 3), WallType::Nothing);
    assert_eq!(level.wall_type(3, 4), WallType::Nothing);
    // far away stays empty
    assert_eq!(level.wall_type(0, 0), WallType::Nothing);
    assert_eq!(level.wall_type(7, 7), WallType::Nothing);
}

#[test]
fn classifier_marks_inner_corners() {
    let mut level = Level::new(6, 6);
    set_dirt(&mut level, 1, 1);
    set_dirt(&mut level, 2, 1);
    set_dirt(&mut level, 2, 2);
    level.calculate_walls();
    // floor above floor, with floor to its south-west: an inner corner
    assert_eq!(level.wall_type(2, 2), WallType::WestInnerCorner);
    // the east inner corner needs a walkable west neighbour, or the west
    // rule fires first
    let mut mirrored = Level::new(6, 6);
    set_dirt(&mut mirrored, 1, 1);
    set_dirt(&mut mirrored, 2, 1);
    set_dirt(&mut mirrored, 0, 2);
    set_dirt(&mut mirrored, 1, 2);
    mirrored.calculate_walls();
    assert_eq!(mirrored.wall_type(1, 2), WallType::EastInnerCorner);
}

#[test]
fn classifier_reads_tiles_only() {
    // recomputing the walls twice changes nothing
    let mut a = Level::generate_from_seed_bytes([3u8; 32], 48, 24);
    let before: Vec<LevelTile> = a.tiles().clone();
    a.calculate_walls();
    assert_eq!(&before, a.tiles());
}

#[test]
fn reducer_merges_adjacent_strips() {
    let mut rects = vec![Rect::new(0, 0, 3, 1), Rect::new(0, 1, 3, 1)];
    merge_rects(&mut rects);
    assert_eq!(rects, vec![Rect::new(0, 0, 3, 2)]);
}

#[test]
fn reducer_never_increases_count() {
    let mut rects = vec![
        Rect::new(0, 0, 3, 1),
        Rect::new(0, 1, 3, 1),
        Rect::new(10, 10, 3, 3),
        Rect::new(13, 10, 3, 3),
        Rect::new(20, 20, 1, 1),
    ];
    let before = rects.len();
    merge_rects(&mut rects);
    assert!(rects.len() <= before);
    assert_eq!(rects.len(), 3);
    assert!(rects.contains(&Rect::new(0, 0, 3, 2)));
    assert!(rects.contains(&Rect::new(10, 10, 6, 3)));
    assert!(rects.contains(&Rect::new(20, 20, 1, 1)));
}

#[test]
fn reducer_keeps_incompatible_rects() {
    let mut rects = vec![Rect::new(0, 0, 3, 1), Rect::new(5, 5, 2, 2)];
    merge_rects(&mut rects);
    assert_eq!(rects, vec![Rect::new(0, 0, 3, 1), Rect::new(5, 5, 2, 2)]);
}

#[test]
fn empty_grid_reduces_to_one_block() {
    let mut level = Level::new(2, 2);
    level.calculate_collision_shapes();
    assert_eq!(level.collision_shapes(), &vec![Rect::new(0, 0, 6, 6)]);
}

#[test]
fn defaults_are_the_empty_markers() {
    assert_eq!(TileType::default(), TileType::Nothing);
    assert_eq!(WallType::default(), WallType::Nothing);
    assert_eq!(Point::default(), Point { x: 0, y: 0 });
    let t = LevelTile::default();
    assert_eq!(t.tile_type, TileType::Nothing);
    assert_eq!(t.wall_type, WallType::Nothing);
    assert!(!t.is_spawn_point);
    assert!(!t.spawned);
}
