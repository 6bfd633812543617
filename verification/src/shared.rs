//! The shared side of the world: one grid behind a mutual-exclusion lock,
//! the single source of truth every robot reconciles against.

use vstd::prelude::*;
use vstd::rwlock::{RwLock, RwLockPredicate};

use crate::grid::Grid;
use crate::tile::Tile;

verus! {

/// The invariant the shared grid's lock maintains: whatever is stored is a
/// well-formed grid with the dimensions fixed at construction.
pub struct GridPred {
    pub width: int,
    pub height: int,
}

impl RwLockPredicate<Grid> for GridPred {
    open spec fn inv(self, g: Grid) -> bool {
        &&& g.wf()
        &&& g@.width == self.width
        &&& g@.height == self.height
    }
}

/// A grid behind a lock. Every read or write of the shared tiles happens
/// while the lock is held, so no caller ever observes a half-written tile.
pub struct SharedGrid {
    pub lock: RwLock<Grid, GridPred>,
}

impl SharedGrid {
    /// The width every grid value stored under the lock has.
    pub open spec fn width(self) -> int {
        self.lock.pred().width
    }

    /// The height every grid value stored under the lock has.
    pub open spec fn height(self) -> int {
        self.lock.pred().height
    }

    /// Put a freshly generated grid behind a lock.
    pub fn new(grid: Grid) -> (s: SharedGrid)
        requires
            grid.wf(),
        ensures
            s.width() == grid@.width,
            s.height() == grid@.height,
    {
        let ghost pred = GridPred { width: grid@.width, height: grid@.height };
        SharedGrid { lock: RwLock::new(grid, Ghost(pred)) }
    }

    /// A point-in-time copy of the shared grid, taken under the lock.
    pub fn snapshot(&self) -> (g: Grid)
        ensures
            g.wf(),
            g@.width == self.width(),
            g@.height == self.height(),
    {
        let handle = self.lock.acquire_read();
        let copy = handle.borrow().snapshot();
        handle.release_read();
        copy
    }

    /// Discover `(x, y)` on the shared grid, under the lock: a no-op out
    /// of bounds, otherwise the tile is marked discovered and stamped.
    /// Returns a copy of the tile as it now stands, or `None` out of
    /// bounds.
    pub fn discover(&self, x: i32, y: i32) -> (r: Option<Tile>)
        ensures
            r is Some <==> 0 <= x < self.width() && 0 <= y < self.height(),
            r matches Some(t) ==> t.is_discovered && t.wf(),
    {
        let (mut g, handle) = self.lock.acquire_write();
        g.discover(x, y);
        let t = g.tile_at(x, y);
        handle.release_write(g);
        t
    }
}

} // verus!
