//! An older, display-oriented variant of the world map: the same
//! deterministic terrain generation, without the discovery bookkeeping.
//! Drawing it on a window belongs to the unverified front end, which reads
//! the tiles through this type's accessors.

use vstd::prelude::*;

use crate::entropy;
use crate::grid::{generate_tiles, generated_tiles, GridError};
use crate::tile::Tile;

verus! {

/// A plain tile field with its dimensions, generated from a seed exactly
/// as [`crate::grid::Grid`]'s terrain is.
#[derive(Debug)]
pub struct MapGame {
    pub tiles: Vec<Vec<Tile>>,
    pub width: i32,
    pub height: i32,
}

impl View for MapGame {
    type V = Seq<Seq<Tile>>;

    open spec fn view(&self) -> Seq<Seq<Tile>> {
        Seq::new(self.tiles@.len(), |x: int| self.tiles@[x]@)
    }
}

impl MapGame {
    /// Well-formedness: a rectangular tile field of the stated dimensions.
    pub open spec fn wf(self) -> bool {
        &&& 0 < self.width
        &&& 0 < self.height
        &&& self@.len() == self.width as int
        &&& forall|i: int|
            0 <= i < self.width as int ==> (#[trigger] self@[i]).len() == self.height as int
    }

    /// Generate a tile field from `(width, height, seed)`, with the same
    /// fail-fast construction errors as the grid and the same substitution
    /// of a fresh seed for a zero seed.
    pub fn new(width: i32, height: i32, seed: u64) -> (r: Result<MapGame, GridError>)
        ensures
            r is Ok <==> 0 < width && 0 < height && width * height <= usize::MAX,
            (width <= 0 || height <= 0) ==> r == Result::<MapGame, GridError>::Err(
                GridError::NonPositiveDimensions,
            ),
            (0 < width && 0 < height && width * height > usize::MAX) ==> r
                == Result::<MapGame, GridError>::Err(GridError::TooLarge),
            r matches Ok(m) ==> m.wf() && m.width == width && m.height == height && exists|s: u64|
                #![auto]
                m@ == generated_tiles(width as int, height as int, s) && (seed != 0 ==> s == seed),
    {
        if width <= 0 || height <= 0 {
            return Err(GridError::NonPositiveDimensions);
        }
        proof {
            assert((width as int) * (height as int) <= 0x7fff_ffff * 0x7fff_ffff)
                by (nonlinear_arith)
                requires
                    0 < width as int <= 0x7fff_ffff,
                    0 < height as int <= 0x7fff_ffff,
            ;
        }
        let n64: u64 = (width as u64) * (height as u64);
        if n64 > (usize::MAX as u64) {
            return Err(GridError::TooLarge);
        }
        let effective_seed: u64 = if seed == 0 {
            entropy::random_seed()
        } else {
            seed
        };
        let tiles = generate_tiles(width, height, effective_seed);
        let m = MapGame { tiles, width, height };
        proof {
            assert(m@ =~~= generated_tiles(width as int, height as int, effective_seed));
        }
        Ok(m)
    }

    /// A read-only copy of the tile at `(x, y)`, or `None` outside the
    /// bounds; the front end draws the field through this.
    pub fn tile_at(&self, x: i32, y: i32) -> (t: Option<Tile>)
        requires
            self.wf(),
        ensures
            (0 <= x < self.width && 0 <= y < self.height) ==> t == Some(
                self@[x as int][y as int],
            ),
            !(0 <= x < self.width && 0 <= y < self.height) ==> t is None,
    {
        if x < 0 || x >= self.width || y < 0 || y >= self.height {
            return None;
        }
        proof {
            assert(self@[x as int] == self.tiles@[x as int]@);
        }
        Some(self.tiles[x as usize][y as usize])
    }
}

} // verus!
