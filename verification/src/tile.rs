//! A single grid cell: its terrain type, traversability, discovery flag and
//! last-visit timestamp.

use vstd::prelude::*;

verus! {

/// The closed set of terrain kinds a cell can hold.
#[derive(Clone, Copy, Debug, PartialEq, Eq, Structural)]
pub enum TileType {
    Empty,
    Rock,
    Energy,
    ScientificStation,
}

/// Whether a robot may stand on a cell of the given type: everything but
/// rock is traversable.
pub open spec fn traversable_of(t: TileType) -> bool {
    match t {
        TileType::Empty => true,
        TileType::Rock => false,
        TileType::Energy => true,
        TileType::ScientificStation => true,
    }
}

/// One grid cell. The `traversable` field is always kept consistent with
/// `tile_type`, and `last_time_visited` never decreases.
#[derive(Clone, Copy, Debug, PartialEq, Eq, Structural)]
pub struct Tile {
    pub tile_type: TileType,
    pub traversable: bool,
    pub is_discovered: bool,
    pub last_time_visited: u128,
}

impl Tile {
    /// A tile is well formed when its cached traversability matches its type.
    pub open spec fn wf(self) -> bool {
        self.traversable == traversable_of(self.tile_type)
    }

    /// A fresh, never-visited tile of the given type.
    pub fn new(tile_type: TileType, is_discovered: bool) -> (t: Tile)
        ensures
            t.wf(),
            t.tile_type == tile_type,
            t.is_discovered == is_discovered,
            t.last_time_visited == 0,
    {
        let mut t = Tile {
            tile_type,
            traversable: true,
            is_discovered,
            last_time_visited: 0,
        };
        t.update_traversable();
        t
    }

    /// Recompute the cached traversability from the current type.
    pub fn update_traversable(&mut self)
        ensures
            *final(self) == (Tile { traversable: traversable_of(old(self).tile_type), ..*old(self) }),
            final(self).wf(),
    {
        self.traversable = match self.tile_type {
            TileType::Empty => true,
            TileType::Rock => false,
            TileType::Energy => true,
            TileType::ScientificStation => true,
        };
    }

    /// Change the terrain type, keeping the derived traversability in step.
    pub fn update_tile_type(&mut self, tile_type: TileType)
        ensures
            *final(self) == (Tile {
                tile_type,
                traversable: traversable_of(tile_type),
                ..*old(self)
            }),
            final(self).wf(),
    {
        self.tile_type = tile_type;
        self.update_traversable();
    }

    /// The tile after a visit at time `now`: discovered, with the timestamp
    /// advanced to `now` if that is later than what the tile already holds.
    pub open spec fn spec_visit(self, now: u128) -> Tile {
        Tile {
            is_discovered: true,
            last_time_visited: if now > self.last_time_visited {
                now
            } else {
                self.last_time_visited
            },
            ..self
        }
    }

    /// Mark the tile discovered and stamp the visit time. The stored
    /// timestamp never moves backwards.
    pub fn visit(&mut self, now: u128)
        ensures
            *final(self) == old(self).spec_visit(now),
            final(self).is_discovered,
            final(self).last_time_visited >= old(self).last_time_visited,
            final(self).last_time_visited >= now,
            final(self).tile_type == old(self).tile_type,
            final(self).traversable == old(self).traversable,
    {
        if now > self.last_time_visited {
            self.last_time_visited = now;
        }
        self.is_discovered = true;
    }
}

} // verus!
