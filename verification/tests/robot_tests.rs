use std::sync::Arc;

use gridworld::grid::Grid;
use gridworld::robot::{direction_from_draw, Direction, Robot};
use gridworld::shared::SharedGrid;
use gridworld::tile::{Tile, TileType};

/// A hand-laid single-row world: tile `x` of `types` at `(x, 0)`.
fn row_world(types: &[TileType]) -> Grid {
    let tiles: Vec<Vec<Tile>> = types.iter().map(|t| vec![Tile::new(*t, false)]).collect();
    Grid {
        tiles,
        width: types.len() as i32,
        height: 1,
        seed: 1,
        clock: 0,
    }
}

#[test]
fn robot_starts_with_a_replica_of_the_shared_grid() {
    let shared = Arc::new(SharedGrid::new(Grid::new(6, 5, 77).unwrap()));
    let r = Robot::new(3, 2, 4, shared.clone());
    assert_eq!(r.robot_id(), 3);
    assert_eq!(r.position(), (2, 4));
    assert_eq!(r.energy_collected(), 0);
    let snap = shared.snapshot();
    for x in 0..6 {
        for y in 0..5 {
            let a = r.local_map().tile_at(x, y).unwrap();
            let b = snap.tile_at(x, y).unwrap();
            assert_eq!(a.tile_type, b.tile_type);
            assert_eq!(a.is_discovered, b.is_discovered);
            assert_eq!(a.last_time_visited, b.last_time_visited);
        }
    }
}

#[test]
fn movement_containment_under_any_command_sequence() {
    let shared = Arc::new(SharedGrid::new(Grid::new(5, 4, 99).unwrap()));
    let mut r = Robot::new(1, 2, 2, shared.clone());
    for step in 0..200u32 {
        r.apply_move(direction_from_draw(step.wrapping_mul(2654435761) % 4));
        let (x, y) = r.position();
        assert!(x < 5 && y < 4, "position ({}, {}) escaped the grid", x, y);
    }
}

#[test]
fn moves_at_the_edges_revert_in_bounds() {
    let shared = Arc::new(SharedGrid::new(row_world(&[TileType::Empty, TileType::Empty])));
    let mut r = Robot::new(1, 0, 0, shared.clone());
    r.move_up();
    assert_eq!(r.position(), (0, 0));
    r.move_left();
    assert_eq!(r.position(), (0, 0));
    r.move_down();
    assert_eq!(r.position(), (0, 0));
    r.move_right();
    assert_eq!(r.position(), (1, 0));
    r.move_right();
    assert_eq!(r.position(), (1, 0));
}

#[test]
fn energy_is_collected_exactly_once() {
    let shared = Arc::new(SharedGrid::new(row_world(&[
        TileType::Empty,
        TileType::Energy,
        TileType::Empty,
    ])));
    let mut first = Robot::new(1, 0, 0, shared.clone());
    let mut second = Robot::new(2, 2, 0, shared.clone());

    // Both target the same energy tile; the attempts are serialized by the
    // grid's lock, and whichever runs first wins the resource.
    first.move_right();
    second.move_left();

    assert_eq!(first.position(), (1, 0));
    assert_eq!(second.position(), (1, 0));
    assert_eq!(first.energy_collected(), 1);
    assert_eq!(second.energy_collected(), 0);

    let t = shared.snapshot().tile_at(1, 0).unwrap();
    assert_eq!(t.tile_type, TileType::Empty);
    assert!(t.traversable);
    assert!(t.is_discovered);

    // A third pass over the tile yields nothing either.
    let mut third = Robot::new(3, 0, 0, shared.clone());
    third.move_right();
    assert_eq!(third.energy_collected(), 0);
}

#[test]
fn blocked_move_reverts_but_reveals_the_wall() {
    let shared = Arc::new(SharedGrid::new(row_world(&[TileType::Empty, TileType::Rock])));
    let mut r = Robot::new(1, 0, 0, shared.clone());
    r.move_right();
    assert_eq!(r.position(), (0, 0));
    let wall = shared.snapshot().tile_at(1, 0).unwrap();
    assert_eq!(wall.tile_type, TileType::Rock);
    assert!(wall.is_discovered);
    assert!(wall.last_time_visited > 0);
    // The replica learned of the wall too, without any merge.
    let local = r.local_map().tile_at(1, 0).unwrap();
    assert!(local.is_discovered);
}

#[test]
fn standing_on_a_station_reconciles_the_replica() {
    let shared = Arc::new(SharedGrid::new(row_world(&[
        TileType::Empty,
        TileType::ScientificStation,
        TileType::Empty,
    ])));
    let mut r = Robot::new(1, 0, 0, shared.clone());
    // After the robot took its snapshot, the shared world moves on.
    let _ = shared.discover(2, 0);
    let shared_stamp = shared.snapshot().tile_at(2, 0).unwrap().last_time_visited;
    assert!(shared_stamp > 0);
    assert!(!r.local_map().tile_at(2, 0).unwrap().is_discovered);

    // Stepping onto the station triggers the last-write-wins merge.
    r.move_right();
    assert_eq!(r.position(), (1, 0));
    let pulled = r.local_map().tile_at(2, 0).unwrap();
    assert!(pulled.is_discovered);
    assert_eq!(pulled.last_time_visited, shared_stamp);
}

#[test]
fn direction_draw_mapping_matches_the_driver() {
    assert_eq!(direction_from_draw(0), Direction::Up);
    assert_eq!(direction_from_draw(1), Direction::Down);
    assert_eq!(direction_from_draw(2), Direction::Left);
    assert_eq!(direction_from_draw(3), Direction::Right);
}

#[test]
fn scenario_walk_down_a_ten_by_ten_seed_42_world() {
    let initial = Grid::new(10, 10, 42).unwrap();
    let shared = Arc::new(SharedGrid::new(Grid::new(10, 10, 42).unwrap()));
    let _ = shared.discover(0, 0);
    let mut r = Robot::new(1, 0, 0, shared.clone());

    // Movement can only turn energy tiles into empty ones, so the initial
    // traversability of column 0 decides the walk.
    let mut expected_y: usize = 0;
    let mut positions = Vec::new();
    for _ in 0..4 {
        let target = expected_y + 1;
        if initial.tile_at(0, target as i32).unwrap().traversable {
            expected_y = target;
        }
        r.move_down();
        assert_eq!(r.position(), (0, expected_y));
        positions.push(expected_y);
    }

    let snap = shared.snapshot();
    if (1..=4).all(|y| initial.tile_at(0, y).unwrap().traversable) {
        // All intervening tiles traversable: the robot ends at (0, 4) and
        // the five visited tiles are discovered with strictly increasing
        // timestamps.
        assert_eq!(r.position(), (0, 4));
        let mut last = 0u128;
        let mut first = true;
        for y in 0..=4 {
            let t = snap.tile_at(0, y).unwrap();
            assert!(t.is_discovered);
            if first {
                assert!(t.last_time_visited > 0);
                first = false;
            } else {
                assert!(t.last_time_visited > last);
            }
            last = t.last_time_visited;
        }
    } else if initial.tile_at(0, 2).unwrap().tile_type == TileType::Rock
        && initial.tile_at(0, 1).unwrap().traversable
    {
        // Blocked at (0, 2): the position after the third call is still
        // (0, 1), yet the rock was revealed by the attempt.
        assert_eq!(positions[2], 1);
        assert_eq!(r.position(), (0, 1));
        let rock = snap.tile_at(0, 2).unwrap();
        assert!(rock.is_discovered);
    }
    // Every attempted target was marked discovered on the shared grid.
    for y in 1..=(expected_y + 1).min(9) {
        assert!(snap.tile_at(0, y as i32).unwrap().is_discovered);
    }
}

#[test]
fn shared_discover_reports_the_tile_and_rejects_out_of_bounds() {
    let shared = SharedGrid::new(Grid::new(3, 2, 8).unwrap());
    assert!(shared.discover(-1, 0).is_none());
    assert!(shared.discover(3, 0).is_none());
    assert!(shared.discover(0, 2).is_none());
    let t = shared.discover(2, 1).unwrap();
    assert!(t.is_discovered);
    assert!(t.last_time_visited > 0);
}

#[test]
fn each_energy_tile_counts_once() {
    let shared = Arc::new(SharedGrid::new(row_world(&[
        TileType::Empty,
        TileType::Energy,
        TileType::Energy,
        TileType::Empty,
    ])));
    let mut r = Robot::new(1, 0, 0, shared.clone());
    r.move_right();
    r.move_right();
    r.move_right();
    assert_eq!(r.position(), (3, 0));
    assert_eq!(r.energy_collected(), 2);
    // Walking back over the emptied tiles collects nothing more.
    r.move_left();
    r.move_left();
    r.move_left();
    assert_eq!(r.position(), (0, 0));
    assert_eq!(r.energy_collected(), 2);
}
