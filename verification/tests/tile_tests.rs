use gridworld::grid::{Grid, GridError};
use gridworld::map_game::MapGame;
use gridworld::tile::{Tile, TileType};

#[test]
fn traversability_is_derived_from_the_type() {
    assert!(Tile::new(TileType::Empty, false).traversable);
    assert!(!Tile::new(TileType::Rock, false).traversable);
    assert!(Tile::new(TileType::Energy, false).traversable);
    assert!(Tile::new(TileType::ScientificStation, false).traversable);
}

#[test]
fn new_tiles_are_unstamped() {
    let t = Tile::new(TileType::Energy, true);
    assert_eq!(t.last_time_visited, 0);
    assert!(t.is_discovered);
    let u = Tile::new(TileType::Rock, false);
    assert!(!u.is_discovered);
}

#[test]
fn changing_the_type_recomputes_traversability() {
    let mut t = Tile::new(TileType::Empty, false);
    t.update_tile_type(TileType::Rock);
    assert_eq!(t.tile_type, TileType::Rock);
    assert!(!t.traversable);
    t.update_tile_type(TileType::Energy);
    assert!(t.traversable);
    t.update_traversable();
    assert!(t.traversable);
}

#[test]
fn visit_marks_discovery_and_never_rewinds_the_stamp() {
    let mut t = Tile::new(TileType::Empty, false);
    t.visit(10);
    assert!(t.is_discovered);
    assert_eq!(t.last_time_visited, 10);
    t.visit(5);
    assert_eq!(t.last_time_visited, 10);
    t.visit(11);
    assert_eq!(t.last_time_visited, 11);
}

#[test]
fn map_game_generates_the_same_terrain_as_the_grid() {
    let m = MapGame::new(12, 9, 4242).unwrap();
    let g = Grid::new(12, 9, 4242).unwrap();
    for x in 0..12 {
        for y in 0..9 {
            let a = m.tile_at(x, y).unwrap();
            let b = g.tile_at(x, y).unwrap();
            assert_eq!(a.tile_type, b.tile_type);
            assert_eq!(a.traversable, b.traversable);
            assert!(!a.is_discovered);
            assert_eq!(a.last_time_visited, 0);
        }
    }
    assert!(m.tile_at(-1, 0).is_none());
    assert!(m.tile_at(12, 0).is_none());
    assert!(m.tile_at(0, 9).is_none());
}

#[test]
fn map_game_rejects_non_positive_dimensions() {
    assert_eq!(MapGame::new(0, 9, 1).unwrap_err(), GridError::NonPositiveDimensions);
    assert_eq!(MapGame::new(9, -2, 1).unwrap_err(), GridError::NonPositiveDimensions);
}
