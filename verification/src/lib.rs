//! A procedural dungeon generator: seeded placement of rectangular rooms
//! joined by L-shaped corridors on an integer tile grid, with derived wall
//! classification, merged collision rectangles, spawn and exit placement,
//! and grid pathfinding queries.

pub mod connectivity;
pub mod corridors;
pub mod generator;
pub mod geometry;
pub mod level;
pub mod path;
pub mod reducer;
pub mod rng;
pub mod rooms;
pub mod shapes;
pub mod spawn;
pub mod tiles;
pub mod walls;

pub use geometry::Point;
pub use geometry::Rect;
pub use level::Level;
pub use tiles::LevelTile;
pub use tiles::TileType;
pub use tiles::WallType;
