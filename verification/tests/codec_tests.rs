use gridworld::codec::{decode, encode};
use gridworld::grid::Grid;
use gridworld::tile::TileType;

#[test]
fn encode_then_decode_reproduces_the_grid() {
    let mut g = Grid::new(8, 6, 99).unwrap();
    g.discover(0, 0);
    g.discover(7, 5);
    g.discover(3, 2);
    let data = encode(&g);
    let back = decode(&data).unwrap();
    assert_eq!(back.width(), 8);
    assert_eq!(back.height(), 6);
    assert_eq!(back.generation_seed(), 99);
    for x in 0..8 {
        for y in 0..6 {
            let a = g.tile_at(x, y).unwrap();
            let b = back.tile_at(x, y).unwrap();
            assert_eq!(a.tile_type, b.tile_type);
            assert_eq!(a.traversable, b.traversable);
            assert_eq!(a.is_discovered, b.is_discovered);
            assert_eq!(a.last_time_visited, b.last_time_visited);
        }
    }
    // Encoding the decoded grid gives back the same bytes-on-the-wire.
    assert_eq!(encode(&back), data);
}

#[test]
fn encode_header_carries_the_dimensions() {
    let g = Grid::new(4, 3, 17).unwrap();
    let data = encode(&g);
    assert_eq!(data.len(), 4 + 3 * 4 * 3);
    assert_eq!(data[0], 4);
    assert_eq!(data[1], 3);
    assert_eq!(data[2], 17);
    assert_eq!(data[3], 0);
}

#[test]
fn decode_rejects_malformed_input() {
    // Too short for a header.
    assert!(decode(&vec![]).is_none());
    assert!(decode(&vec![1, 1, 1]).is_none());
    // Zero dimensions.
    assert!(decode(&vec![0, 3, 1, 0]).is_none());
    assert!(decode(&vec![3, 0, 1, 0]).is_none());
    // Length does not match the dimensions.
    assert!(decode(&vec![1, 1, 1, 0]).is_none());
    assert!(decode(&vec![1, 1, 1, 0, 0, 0]).is_none());
    // Unknown tile-type code.
    assert!(decode(&vec![1, 1, 1, 0, 9, 0, 0]).is_none());
    // Discovered flag out of range.
    assert!(decode(&vec![1, 1, 1, 0, 0, 2, 0]).is_none());
    // Tile stamped after the grid's clock.
    assert!(decode(&vec![1, 1, 1, 5, 0, 1, 6]).is_none());
}

#[test]
fn decode_accepts_a_minimal_valid_encoding() {
    // One energy tile, discovered, stamped 5, clock 7.
    let g = decode(&vec![1, 1, 42, 7, 2, 1, 5]).unwrap();
    assert_eq!(g.width(), 1);
    assert_eq!(g.height(), 1);
    assert_eq!(g.generation_seed(), 42);
    let t = g.tile_at(0, 0).unwrap();
    assert_eq!(t.tile_type, TileType::Energy);
    assert!(t.traversable);
    assert!(t.is_discovered);
    assert_eq!(t.last_time_visited, 5);
}

#[test]
fn replicas_serialize_the_same_way() {
    let g = Grid::new(5, 5, 1234).unwrap();
    let replica = g.snapshot();
    assert_eq!(encode(&g), encode(&replica));
}
