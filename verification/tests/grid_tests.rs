use gridworld::codec::encode;
use gridworld::grid::{Grid, GridError};
use gridworld::tile::TileType;

fn tiles_equal(a: &Grid, b: &Grid) -> bool {
    if a.width() != b.width() || a.height() != b.height() {
        return false;
    }
    for x in 0..a.width() {
        for y in 0..a.height() {
            let ta = a.tile_at(x, y).unwrap();
            let tb = b.tile_at(x, y).unwrap();
            if ta.tile_type != tb.tile_type
                || ta.traversable != tb.traversable
                || ta.is_discovered != tb.is_discovered
                || ta.last_time_visited != tb.last_time_visited
            {
                return false;
            }
        }
    }
    true
}

#[test]
fn generation_is_deterministic_for_nonzero_seed() {
    let a = Grid::new(20, 15, 12345).unwrap();
    let b = Grid::new(20, 15, 12345).unwrap();
    assert!(tiles_equal(&a, &b));
    assert_eq!(encode(&a), encode(&b));
    assert_eq!(a.generation_seed(), 12345);
    assert_eq!(b.generation_seed(), 12345);
}

#[test]
fn generation_differs_across_seeds() {
    let a = Grid::new(20, 15, 1).unwrap();
    let b = Grid::new(20, 15, 2).unwrap();
    assert!(!tiles_equal(&a, &b));
}

#[test]
fn tile_type_distribution_close_to_nominal() {
    let g = Grid::new(100, 100, 7).unwrap();
    let mut empty = 0u32;
    let mut rock = 0u32;
    let mut energy = 0u32;
    let mut station = 0u32;
    for x in 0..100 {
        for y in 0..100 {
            match g.tile_at(x, y).unwrap().tile_type {
                TileType::Empty => empty += 1,
                TileType::Rock => rock += 1,
                TileType::Energy => energy += 1,
                TileType::ScientificStation => station += 1,
            }
        }
    }
    assert_eq!(empty + rock + energy + station, 10000);
    // Nominal proportions are 40/20/35/5 percent; allow 4 points either way.
    assert!((3600..=4400).contains(&empty), "empty = {}", empty);
    assert!((1600..=2400).contains(&rock), "rock = {}", rock);
    assert!((3100..=3900).contains(&energy), "energy = {}", energy);
    assert!((100..=900).contains(&station), "station = {}", station);
}

#[test]
fn fresh_grid_is_undiscovered_and_unstamped() {
    let g = Grid::new(6, 4, 3).unwrap();
    for x in 0..6 {
        for y in 0..4 {
            let t = g.tile_at(x, y).unwrap();
            assert!(!t.is_discovered);
            assert_eq!(t.last_time_visited, 0);
            assert_eq!(t.traversable, t.tile_type != TileType::Rock);
        }
    }
}

#[test]
fn out_of_bounds_discover_is_a_no_op() {
    let mut g = Grid::new(5, 4, 11).unwrap();
    let before = encode(&g);
    g.discover(-1, -1);
    g.discover(5, 4);
    g.discover(0, 4);
    g.discover(5, 0);
    g.discover(-1, 2);
    assert_eq!(encode(&g), before);
}

#[test]
fn discover_marks_and_stamps_the_tile() {
    let mut g = Grid::new(5, 5, 11).unwrap();
    let before = g.tile_at(2, 3).unwrap();
    g.discover(2, 3);
    let after = g.tile_at(2, 3).unwrap();
    assert!(after.is_discovered);
    assert!(after.last_time_visited > 0);
    assert_eq!(after.tile_type, before.tile_type);
    assert_eq!(after.traversable, before.traversable);
    // Every other tile is untouched.
    for x in 0..5 {
        for y in 0..5 {
            if (x, y) != (2, 3) {
                let t = g.tile_at(x, y).unwrap();
                assert!(!t.is_discovered);
                assert_eq!(t.last_time_visited, 0);
            }
        }
    }
}

#[test]
fn successive_discoveries_get_strictly_increasing_stamps() {
    let mut g = Grid::new(3, 3, 5).unwrap();
    let mut last = 0u128;
    for x in 0..3 {
        for y in 0..3 {
            g.discover(x, y);
            let stamp = g.tile_at(x, y).unwrap().last_time_visited;
            assert!(stamp > last, "stamp {} not above {}", stamp, last);
            last = stamp;
        }
    }
}

#[test]
fn construction_rejects_non_positive_dimensions() {
    assert_eq!(Grid::new(0, 5, 1).unwrap_err(), GridError::NonPositiveDimensions);
    assert_eq!(Grid::new(5, 0, 1).unwrap_err(), GridError::NonPositiveDimensions);
    assert_eq!(Grid::new(-3, 5, 1).unwrap_err(), GridError::NonPositiveDimensions);
    assert_eq!(Grid::new(5, -1, 1).unwrap_err(), GridError::NonPositiveDimensions);
    assert_eq!(Grid::new(0, 0, 0).unwrap_err(), GridError::NonPositiveDimensions);
    assert!(!GridError::NonPositiveDimensions.message().is_empty());
    assert!(!GridError::TooLarge.message().is_empty());
}

#[test]
fn zero_seed_substitutes_a_fresh_seed() {
    let a = Grid::new(4, 4, 0).unwrap();
    let b = Grid::new(4, 4, 0).unwrap();
    assert_eq!(a.width(), 4);
    assert_eq!(a.height(), 4);
    // The grid keeps the seed it actually used, so the run is reportable.
    let _ = a.generation_seed();
    let _ = b.generation_seed();
}

#[test]
fn merge_pulls_only_strictly_newer_tiles() {
    let mut shared = Grid::new(2, 1, 9).unwrap();
    let mut replica = shared.snapshot();

    // The shared grid visits (0, 0); the replica visits (1, 0) later in
    // its own clock but the shared copy of (1, 0) stays unstamped.
    shared.discover(0, 0);
    replica.discover(1, 0);
    let shared_stamp = shared.tile_at(0, 0).unwrap().last_time_visited;
    let replica_stamp = replica.tile_at(1, 0).unwrap().last_time_visited;

    replica.merge_from(&shared);

    // (0, 0): the shared tile is strictly newer, so it is pulled in full.
    let t0 = replica.tile_at(0, 0).unwrap();
    assert!(t0.is_discovered);
    assert_eq!(t0.last_time_visited, shared_stamp);
    // (1, 0): the replica is at least as fresh, so it keeps its own tile.
    let t1 = replica.tile_at(1, 0).unwrap();
    assert_eq!(t1.last_time_visited, replica_stamp);
    assert!(t1.is_discovered);

    // Merge monotonicity: every tile is at least as fresh as both sides were.
    for x in 0..2 {
        let t = replica.tile_at(x, 0).unwrap();
        let s = shared.tile_at(x, 0).unwrap();
        assert!(t.last_time_visited >= s.last_time_visited);
    }
}

#[test]
fn merge_twice_is_a_no_op_the_second_time() {
    let mut shared = Grid::new(4, 3, 21).unwrap();
    let mut replica = shared.snapshot();
    shared.discover(0, 0);
    shared.discover(3, 2);
    replica.discover(1, 1);

    replica.merge_from(&shared);
    let once = encode(&replica);
    replica.merge_from(&shared);
    assert_eq!(encode(&replica), once);
}

#[test]
fn snapshot_is_an_exact_copy() {
    let mut g = Grid::new(7, 2, 13).unwrap();
    g.discover(6, 1);
    let copy = g.snapshot();
    assert!(tiles_equal(&g, &copy));
    assert_eq!(encode(&g), encode(&copy));
}
