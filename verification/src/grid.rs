//! The grid world: a rectangular field of tiles generated deterministically
//! from a seed. The same type serves as the single shared source of truth
//! and as each robot's exclusively owned replica.

use vstd::prelude::*;

use crate::entropy;
use crate::tile::{traversable_of, Tile, TileType};

verus! {

/// The mathematical value of a [`Grid`]: its tiles indexed `[x][y]`, its
/// dimensions, the seed its terrain was generated from, and the high-water
/// mark of the visit timestamps it has issued.
#[verifier::ext_equal]
pub ghost struct GridModel {
    pub tiles: Seq<Seq<Tile>>,
    pub width: int,
    pub height: int,
    pub seed: u64,
    pub clock: u128,
}

impl GridModel {
    /// Coordinates that fall inside the grid.
    pub open spec fn in_bounds(self, x: int, y: int) -> bool {
        0 <= x < self.width && 0 <= y < self.height
    }

    /// The tile at `(x, y)`.
    pub open spec fn tile(self, x: int, y: int) -> Tile {
        self.tiles[x][y]
    }

    /// Well-formedness: positive dimensions, a rectangular tile field whose
    /// tiles each keep traversability consistent with their type, and a
    /// clock no older than any issued timestamp.
    pub open spec fn wf(self) -> bool {
        &&& 0 < self.width <= i32::MAX
        &&& 0 < self.height <= i32::MAX
        &&& self.tiles.len() == self.width
        &&& forall|x: int| 0 <= x < self.width ==> (#[trigger] self.tiles[x]).len() == self.height
        &&& forall|x: int, y: int|
            self.in_bounds(x, y) ==> (#[trigger] self.tile(x, y)).wf()
                && self.tile(x, y).last_time_visited <= self.clock
    }

    /// The timestamp a visit at wall-clock reading `now` is stamped with:
    /// the reading itself when it is ahead of this grid's clock, and the
    /// next clock tick otherwise, so that successive stamps issued by one
    /// grid strictly increase (until the clock's range is exhausted).
    pub open spec fn next_stamp(self, now: u128) -> u128 {
        if now > self.clock {
            now
        } else if self.clock == u128::MAX {
            self.clock
        } else {
            (self.clock + 1) as u128
        }
    }

    /// The grid after discovering `(x, y)` at wall-clock reading `now`:
    /// out-of-bounds coordinates change nothing; otherwise the target tile
    /// is marked discovered and stamped, and the clock advances to the
    /// stamp. No other tile, nor the dimensions or the seed, change.
    pub open spec fn spec_discover(self, x: int, y: int, now: u128) -> GridModel {
        if !self.in_bounds(x, y) {
            self
        } else {
            let s = self.next_stamp(now);
            GridModel {
                tiles: self.tiles.update(x, self.tiles[x].update(y, self.tiles[x][y].spec_visit(s))),
                clock: s,
                ..self
            }
        }
    }

    /// The grid after pulling every strictly newer tile of `other` into
    /// `self` (last-write-wins, one-directional): per tile, `other`'s copy
    /// replaces ours exactly when its timestamp is strictly greater. The
    /// clock advances to cover the timestamps taken over.
    pub open spec fn spec_merge(self, other: GridModel) -> GridModel {
        GridModel {
            tiles: Seq::new(
                self.tiles.len(),
                |x: int|
                    Seq::new(
                        self.tiles[x].len(),
                        |y: int|
                            if other.tiles[x][y].last_time_visited
                                > self.tiles[x][y].last_time_visited {
                                other.tiles[x][y]
                            } else {
                                self.tiles[x][y]
                            },
                    ),
            ),
            clock: if other.clock > self.clock {
                other.clock
            } else {
                self.clock
            },
            ..self
        }
    }
}

impl GridModel {
    /// The grid after the tile at `(x, y)` changes type, with its derived
    /// traversability recomputed; discovery flag and timestamp stay.
    /// Out-of-bounds coordinates change nothing.
    pub open spec fn spec_set_tile_type(self, x: int, y: int, t: TileType) -> GridModel {
        if !self.in_bounds(x, y) {
            self
        } else {
            GridModel {
                tiles: self.tiles.update(
                    x,
                    self.tiles[x].update(
                        y,
                        Tile {
                            tile_type: t,
                            traversable: traversable_of(t),
                            ..self.tiles[x][y]
                        },
                    ),
                ),
                ..self
            }
        }
    }

    /// Changing a tile's type keeps a grid well formed.
    pub proof fn lemma_set_tile_type_wf(self, x: int, y: int, t: TileType)
        requires
            self.wf(),
        ensures
            self.spec_set_tile_type(x, y, t).wf(),
    {
        if self.in_bounds(x, y) {
            let m = self.spec_set_tile_type(x, y, t);
            assert forall|i: int, j: int| m.in_bounds(i, j) implies (#[trigger] m.tile(i, j)).wf()
                && m.tile(i, j).last_time_visited <= m.clock by {
                assert(self.tile(i, j).wf());
                assert(self.tile(i, j).last_time_visited <= self.clock);
            }
        }
    }

    /// Merging keeps a replica well formed.
    pub proof fn lemma_merge_wf(self, other: GridModel)
        requires
            self.wf(),
            other.wf(),
            self.width == other.width,
            self.height == other.height,
        ensures
            self.spec_merge(other).wf(),
    {
        let m = self.spec_merge(other);
        assert forall|i: int, j: int| m.in_bounds(i, j) implies (#[trigger] m.tile(i, j)).wf()
            && m.tile(i, j).last_time_visited <= m.clock by {
            assert(self.tile(i, j).wf());
            assert(other.tile(i, j).wf());
            assert(self.tile(i, j).last_time_visited <= self.clock);
            assert(other.tile(i, j).last_time_visited <= other.clock);
        }
    }

    /// Discovery keeps a grid well formed: the stamped tile keeps its type
    /// and its traversability, its timestamp never exceeds the advanced
    /// clock, and every other tile is untouched.
    pub proof fn lemma_discover_wf(self, x: int, y: int, now: u128)
        requires
            self.wf(),
        ensures
            self.spec_discover(x, y, now).wf(),
    {
        if self.in_bounds(x, y) {
            let md = self.spec_discover(x, y, now);
            let s = self.next_stamp(now);
            assert forall|i: int, j: int| md.in_bounds(i, j) implies (#[trigger] md.tile(i, j)).wf()
                && md.tile(i, j).last_time_visited <= md.clock by {
                assert(self.tile(i, j).wf());
                assert(self.tile(i, j).last_time_visited <= self.clock);
                assert(self.clock <= s);
            }
        }
    }
}

/// The terrain that one uniform draw in `[0, 100)` denotes: 40% empty,
/// 20% rock, 35% energy, 5% scientific station.
pub open spec fn tile_type_of_draw(d: u32) -> TileType {
    if d < 40 {
        TileType::Empty
    } else if d < 60 {
        TileType::Rock
    } else if d < 95 {
        TileType::Energy
    } else {
        TileType::ScientificStation
    }
}

/// The fresh tile that one uniform draw denotes.
pub open spec fn generated_tile(d: u32) -> Tile {
    Tile {
        tile_type: tile_type_of_draw(d),
        traversable: traversable_of(tile_type_of_draw(d)),
        is_discovered: false,
        last_time_visited: 0,
    }
}

/// The tile field generated from `seed`: draws are consumed in a nested
/// iteration over `x` outermost and `y` innermost, so the tile at `(x, y)`
/// takes draw number `x * height + y`.
pub open spec fn generated_tiles(width: int, height: int, seed: u64) -> Seq<Seq<Tile>> {
    Seq::new(
        width as nat,
        |x: int|
            Seq::new(
                height as nat,
                |y: int|
                    generated_tile(
                        entropy::draws_of(seed, (width * height) as nat, 100)[x * height + y],
                    ),
            ),
    )
}

/// The whole grid generated from `seed`: fresh tiles, clock at zero.
pub open spec fn generated_grid(width: int, height: int, seed: u64) -> GridModel {
    GridModel {
        tiles: generated_tiles(width, height, seed),
        width,
        height,
        seed,
        clock: 0,
    }
}

/// Generation is deterministic: two grids generated from the same
/// dimensions and the same seed are equal, tile for tile.
pub proof fn lemma_generation_deterministic(
    a: GridModel,
    b: GridModel,
    width: int,
    height: int,
    seed: u64,
)
    requires
        a == generated_grid(width, height, seed),
        b == generated_grid(width, height, seed),
    ensures
        a == b,
{
}

/// Merging is monotonic in the visit timestamps: after a merge, every tile
/// of the replica carries exactly the fresher of the two timestamps — in
/// particular it is at least as fresh as both the replica's and the
/// grid's tile were before it. The grid wins ties only in the sense that
/// an equally fresh replica tile stays as it is.
pub proof fn lemma_merge_monotonic(replica: GridModel, grid: GridModel, x: int, y: int)
    requires
        replica.wf(),
        grid.wf(),
        replica.width == grid.width,
        replica.height == grid.height,
        replica.in_bounds(x, y),
    ensures
        replica.spec_merge(grid).tile(x, y).last_time_visited >= replica.tile(
            x,
            y,
        ).last_time_visited,
        replica.spec_merge(grid).tile(x, y).last_time_visited >= grid.tile(
            x,
            y,
        ).last_time_visited,
        replica.spec_merge(grid).tile(x, y).last_time_visited == if grid.tile(
            x,
            y,
        ).last_time_visited > replica.tile(x, y).last_time_visited {
            grid.tile(x, y).last_time_visited
        } else {
            replica.tile(x, y).last_time_visited
        },
{
}

/// Merging is idempotent: applying the same merge twice, with no change to
/// the grid in between, leaves the replica exactly where one merge put it.
pub proof fn lemma_merge_idempotent(replica: GridModel, grid: GridModel)
    requires
        replica.wf(),
        grid.wf(),
        replica.width == grid.width,
        replica.height == grid.height,
    ensures
        replica.spec_merge(grid).spec_merge(grid) == replica.spec_merge(grid),
{
    let once = replica.spec_merge(grid);
    let twice = once.spec_merge(grid);
    assert forall|x: int| 0 <= x < once.tiles.len() implies #[trigger] twice.tiles[x]
        =~= once.tiles[x] by {
        assert(once.tiles[x].len() == replica.tiles[x].len());
    }
    assert(twice.tiles =~= once.tiles);
    assert(twice =~= once);
}

/// The tile a single draw denotes.
fn tile_from_draw(d: u32) -> (t: Tile)
    ensures
        t == generated_tile(d),
{
    let tile_type = if d < 40 {
        TileType::Empty
    } else if d < 60 {
        TileType::Rock
    } else if d < 95 {
        TileType::Energy
    } else {
        TileType::ScientificStation
    };
    Tile::new(tile_type, false)
}

/// The tile field generated from `seed`, as a vector of columns: the
/// executable counterpart of [`generated_tiles`]. One draw is consumed
/// per tile, `x` outermost, `y` innermost.
pub fn generate_tiles(width: i32, height: i32, seed: u64) -> (tiles: Vec<Vec<Tile>>)
    requires
        0 < width,
        0 < height,
        width * height <= usize::MAX,
    ensures
        tiles@.len() == width as int,
        forall|i: int|
            0 <= i < width as int ==> (#[trigger] tiles@[i])@ == generated_tiles(
                width as int,
                height as int,
                seed,
            )[i],
{
    let w: usize = width as usize;
    let h: usize = height as usize;
    let n: usize = w * h;
    let draws = entropy::sample_uniform(seed, n, 100);
    let ghost expected = generated_tiles(width as int, height as int, seed);
    let mut tiles: Vec<Vec<Tile>> = Vec::new();
    for x in 0..w
        invariant
            w == width as int,
            h == height as int,
            n == w * h,
            draws@ == entropy::draws_of(seed, n as nat, 100),
            draws@.len() == n,
            expected == generated_tiles(width as int, height as int, seed),
            tiles@.len() == x,
            forall|i: int| 0 <= i < x ==> (#[trigger] tiles@[i])@ == expected[i],
    {
        let mut row: Vec<Tile> = Vec::new();
        for y in 0..h
            invariant
                w == width as int,
                h == height as int,
                n == w * h,
                x < w,
                draws@ == entropy::draws_of(seed, n as nat, 100),
                draws@.len() == n,
                expected == generated_tiles(width as int, height as int, seed),
                row@.len() == y,
                forall|j: int| 0 <= j < y ==> row@[j] == expected[x as int][j],
        {
            proof {
                assert(x * h + y < n) by (nonlinear_arith)
                    requires
                        x < w,
                        y < h,
                        n == w * h,
                ;
            }
            let d = draws[x * h + y];
            row.push(tile_from_draw(d));
        }
        proof {
            assert(row@ =~= expected[x as int]);
        }
        tiles.push(row);
    }
    tiles
}

/// Whether one tile holds collectable energy, as a count.
pub open spec fn energy_of(t: Tile) -> int {
    if t.tile_type is Energy {
        1
    } else {
        0
    }
}

/// The energy tiles among the first `n` of a row.
pub open spec fn energy_in_row_up_to(row: Seq<Tile>, n: int) -> int
    decreases n,
{
    if n <= 0 {
        0
    } else {
        energy_in_row_up_to(row, n - 1) + energy_of(row[n - 1])
    }
}

/// The energy tiles in a whole row.
pub open spec fn energy_in_row(row: Seq<Tile>) -> int {
    energy_in_row_up_to(row, row.len() as int)
}

/// The energy tiles in the first `n` rows.
pub open spec fn energy_up_to(tiles: Seq<Seq<Tile>>, n: int) -> int
    decreases n,
{
    if n <= 0 {
        0
    } else {
        energy_up_to(tiles, n - 1) + energy_in_row(tiles[n - 1])
    }
}

/// The energy tiles left in the whole grid.
pub open spec fn spec_energy_count(m: GridModel) -> int {
    energy_up_to(m.tiles, m.tiles.len() as int)
}

/// Replacing one tile of a row shifts its energy count by exactly the
/// difference the replaced tile makes.
proof fn lemma_row_update_energy(row: Seq<Tile>, n: int, k: int, t: Tile)
    requires
        0 <= k < row.len(),
        n <= row.len(),
    ensures
        energy_in_row_up_to(row.update(k, t), n) == energy_in_row_up_to(row, n) + if k < n {
            energy_of(t) - energy_of(row[k])
        } else {
            0
        },
    decreases n,
{
    if n > 0 {
        lemma_row_update_energy(row, n - 1, k, t);
    }
}

/// Replacing one row of a tile field shifts its energy count by exactly
/// the difference the replaced row makes.
proof fn lemma_tiles_update_energy(tiles: Seq<Seq<Tile>>, n: int, k: int, row: Seq<Tile>)
    requires
        0 <= k < tiles.len(),
        n <= tiles.len(),
    ensures
        energy_up_to(tiles.update(k, row), n) == energy_up_to(tiles, n) + if k < n {
            energy_in_row(row) - energy_in_row(tiles[k])
        } else {
            0
        },
    decreases n,
{
    if n > 0 {
        lemma_tiles_update_energy(tiles, n - 1, k, row);
    }
}

impl GridModel {
    /// Replacing the tile at in-bounds `(x, y)` shifts the grid's energy
    /// count by exactly the difference that tile makes.
    proof fn lemma_tile_update_energy(self, x: int, y: int, t: Tile)
        requires
            self.wf(),
            self.in_bounds(x, y),
        ensures
            spec_energy_count(
                GridModel {
                    tiles: self.tiles.update(x, self.tiles[x].update(y, t)),
                    ..self
                },
            ) == spec_energy_count(self) + energy_of(t) - energy_of(self.tiles[x][y]),
    {
        let row2 = self.tiles[x].update(y, t);
        lemma_row_update_energy(self.tiles[x], self.tiles[x].len() as int, y, t);
        lemma_tiles_update_energy(self.tiles, self.tiles.len() as int, x, row2);
    }

    /// Discovery never changes how much energy is left.
    pub proof fn lemma_discover_energy(self, x: int, y: int, now: u128)
        requires
            self.wf(),
        ensures
            spec_energy_count(self.spec_discover(x, y, now)) == spec_energy_count(self),
    {
        if self.in_bounds(x, y) {
            let s = self.next_stamp(now);
            self.lemma_tile_update_energy(x, y, self.tiles[x][y].spec_visit(s));
        }
    }

    /// Changing the tile at in-bounds `(x, y)` to type `t` shifts the
    /// energy count by the difference of the two types.
    pub proof fn lemma_set_tile_type_energy(self, x: int, y: int, t: TileType)
        requires
            self.wf(),
            self.in_bounds(x, y),
        ensures
            spec_energy_count(self.spec_set_tile_type(x, y, t)) == spec_energy_count(self) + (
            if t is Energy {
                1int
            } else {
                0
            }) - energy_of(self.tiles[x][y]),
    {
        let t2 = Tile { tile_type: t, traversable: traversable_of(t), ..self.tiles[x][y] };
        self.lemma_tile_update_energy(x, y, t2);
    }
}

/// Why a grid could not be constructed.
#[derive(Clone, Copy, Debug, PartialEq, Eq, Structural)]
pub enum GridError {
    /// A width or height that is not strictly positive.
    NonPositiveDimensions,
    /// A tile count beyond what this machine can address.
    TooLarge,
}

impl GridError {
    /// A human-readable account of the failure.
    pub fn message(&self) -> (m: &'static str)
        ensures
            m@.len() > 0,
    {
        let m = match self {
            GridError::NonPositiveDimensions => "grid dimensions must be strictly positive",
            GridError::TooLarge => "grid has more tiles than this machine can address",
        };
        proof {
            reveal_strlit("grid dimensions must be strictly positive");
            reveal_strlit("grid has more tiles than this machine can address");
        }
        m
    }
}

/// A rectangular world of [`Tile`]s, indexed `[x][y]` with
/// `0 <= x < width` and `0 <= y < height`.
#[derive(Debug)]
pub struct Grid {
    pub tiles: Vec<Vec<Tile>>,
    pub width: i32,
    pub height: i32,
    pub seed: u64,
    pub clock: u128,
}

impl View for Grid {
    type V = GridModel;

    open spec fn view(&self) -> GridModel {
        GridModel {
            tiles: Seq::new(self.tiles@.len(), |x: int| self.tiles@[x]@),
            width: self.width as int,
            height: self.height as int,
            seed: self.seed,
            clock: self.clock,
        }
    }
}

impl Grid {
    /// Shorthand for a well-formed grid value.
    pub open spec fn wf(self) -> bool {
        self@.wf()
    }

    /// Bridges the abstract tile field to the concrete vectors: a
    /// well-formed grid's vectors have the modelled lengths and entries.
    pub proof fn lemma_view_shape(&self)
        requires
            self.wf(),
        ensures
            self.tiles@.len() == self@.width,
            forall|i: int|
                0 <= i < self@.width ==> (#[trigger] self.tiles@[i])@.len() == self@.height,
            forall|i: int, j: int|
                0 <= i < self@.width && 0 <= j < self@.height ==> self.tiles@[i]@[j]
                    == #[trigger] self@.tiles[i][j],
    {
        assert(self@.tiles.len() == self.tiles@.len());
        assert forall|i: int| 0 <= i < self@.width implies (#[trigger] self.tiles@[i])@.len()
            == self@.height by {
            assert(self@.tiles[i] == self.tiles@[i]@);
            assert(self@.tiles[i].len() == self@.height);
        }
        assert forall|i: int, j: int|
            0 <= i < self@.width && 0 <= j < self@.height implies self.tiles@[i]@[j]
            == #[trigger] self@.tiles[i][j] by {
            assert(self@.tiles[i] == self.tiles@[i]@);
        }
    }


    /// Generate a grid from `(width, height, seed)`.
    ///
    /// Construction fails fast on non-positive dimensions and on a tile
    /// count beyond the machine's address range; it never clamps. A zero
    /// seed asks for a grid that is random rather than reproducible: a
    /// fresh seed is substituted, and the seed actually used is kept in
    /// the grid, so a caller can report the substitution.
    pub fn new(width: i32, height: i32, seed: u64) -> (r: Result<Grid, GridError>)
        ensures
            r is Ok <==> 0 < width && 0 < height && width * height <= usize::MAX,
            (width <= 0 || height <= 0) ==> r == Result::<Grid, GridError>::Err(
                GridError::NonPositiveDimensions,
            ),
            (0 < width && 0 < height && width * height > usize::MAX) ==> r
                == Result::<Grid, GridError>::Err(GridError::TooLarge),
            r matches Ok(g) ==> g.wf() && g@ == generated_grid(
                width as int,
                height as int,
                g@.seed,
            ) && (seed != 0 ==> g@.seed == seed),
    {
        if width <= 0 || height <= 0 {
            return Err(GridError::NonPositiveDimensions);
        }
        proof {
            assert((width as int) * (height as int) <= 0x7fff_ffff * 0x7fff_ffff)
                by (nonlinear_arith)
                requires
                    0 < width as int <= 0x7fff_ffff,
                    0 < height as int <= 0x7fff_ffff,
            ;
        }
        let n64: u64 = (width as u64) * (height as u64);
        if n64 > (usize::MAX as u64) {
            return Err(GridError::TooLarge);
        }
        let w: usize = width as usize;
        let h: usize = height as usize;
        let n: usize = n64 as usize;
        proof {
            assert(n == w * h);
        }
        let effective_seed: u64 = if seed == 0 {
            entropy::random_seed()
        } else {
            seed
        };
        let tiles = generate_tiles(width, height, effective_seed);
        let g = Grid {
            tiles,
            width,
            height,
            seed: effective_seed,
            clock: 0,
        };
        proof {
            assert(g@.tiles =~= generated_tiles(width as int, height as int, effective_seed));
            assert(g@ =~~= generated_grid(width as int, height as int, effective_seed));
        }
        Ok(g)
    }

    /// The seed the terrain was actually generated from. It differs from the
    /// requested seed only when that seed was zero.
    pub fn generation_seed(&self) -> (s: u64)
        ensures
            s == self@.seed,
    {
        self.seed
    }

    /// Discover `(x, y)` as of the given wall-clock reading: a no-op out of
    /// bounds, otherwise the tile is marked discovered and stamped with a
    /// timestamp that strictly exceeds every one this grid issued before.
    pub fn discover_at(&mut self, x: i32, y: i32, now: u128)
        requires
            old(self).wf(),
        ensures
            final(self).wf(),
            final(self)@ == old(self)@.spec_discover(x as int, y as int, now),
            !old(self)@.in_bounds(x as int, y as int) ==> *final(self) == *old(self),
    {
        if x < 0 || x >= self.width || y < 0 || y >= self.height {
            return ;
        }
        proof {
            self.lemma_view_shape();
        }
        let xi = x as usize;
        let yi = y as usize;
        let stamp: u128 = if now > self.clock {
            now
        } else if self.clock == u128::MAX {
            self.clock
        } else {
            self.clock + 1
        };
        self.tiles[xi][yi].visit(stamp);
        self.clock = stamp;
        proof {
            let m0 = old(self)@;
            let md = m0.spec_discover(x as int, y as int, now);
            assert(stamp == m0.next_stamp(now));
            assert forall|i: int| 0 <= i < m0.width implies #[trigger] self@.tiles[i]
                =~= md.tiles[i] by {
                assert(self@.tiles[i] == self.tiles@[i]@);
                if i != xi as int {
                    assert(self.tiles@[i] == old(self).tiles@[i]);
                    assert(md.tiles[i] == m0.tiles[i]);
                    assert(m0.tiles[i] == old(self).tiles@[i]@);
                } else {
                    assert(self.tiles@[i]@ == old(self).tiles@[i]@.update(
                        yi as int,
                        old(self).tiles@[i]@[yi as int].spec_visit(stamp),
                    ));
                    assert(m0.tiles[i] == old(self).tiles@[i]@);
                    assert(md.tiles[i] == m0.tiles[i].update(
                        yi as int,
                        m0.tiles[i][yi as int].spec_visit(stamp),
                    ));
                }
            }
            assert(self@.tiles =~= md.tiles);
            assert(self@ =~= md);
            m0.lemma_discover_wf(x as int, y as int, now);
        }
    }

    /// Discover `(x, y)` now: a no-op out of bounds, otherwise the tile is
    /// marked discovered and stamped. The stamp itself depends on the
    /// machine's clock; whatever it reads, the stamp strictly exceeds every
    /// timestamp this grid issued before.
    pub fn discover(&mut self, x: i32, y: i32)
        requires
            old(self).wf(),
        ensures
            final(self).wf(),
            exists|now: u128|
                final(self)@ == old(self)@.spec_discover(x as int, y as int, now),
            !old(self)@.in_bounds(x as int, y as int) ==> *final(self) == *old(self),
            final(self)@.width == old(self)@.width,
            final(self)@.height == old(self)@.height,
            final(self)@.seed == old(self)@.seed,
            final(self)@.clock >= old(self)@.clock,
            old(self)@.in_bounds(x as int, y as int) ==> final(self)@.tile(
                x as int,
                y as int,
            ).is_discovered && final(self)@.tile(x as int, y as int).tile_type == old(
                self,
            )@.tile(x as int, y as int).tile_type,
    {
        let now = crate::clock::wall_clock_millis();
        self.discover_at(x, y, now);
    }

    /// An exact copy of this grid.
    pub fn snapshot(&self) -> (r: Grid)
        requires
            self.wf(),
        ensures
            r@ == self@,
            r.wf(),
    {
        proof {
            self.lemma_view_shape();
        }
        let w: usize = self.width as usize;
        let h: usize = self.height as usize;
        let mut tiles: Vec<Vec<Tile>> = Vec::new();
        for x in 0..w
            invariant
                w == self@.width,
                h == self@.height,
                self.tiles@.len() == w,
                forall|i: int| 0 <= i < w ==> (#[trigger] self.tiles@[i])@.len() == h,
                forall|i: int, j: int|
                    0 <= i < w && 0 <= j < h ==> self.tiles@[i]@[j] == #[trigger] self@.tiles[i][j],
                tiles@.len() == x,
                forall|i: int| 0 <= i < x ==> (#[trigger] tiles@[i])@ == self@.tiles[i],
        {
            let mut row: Vec<Tile> = Vec::new();
            for y in 0..h
                invariant
                    w == self@.width,
                    h == self@.height,
                    x < w,
                    self.tiles@.len() == w,
                    forall|i: int| 0 <= i < w ==> (#[trigger] self.tiles@[i])@.len() == h,
                    forall|i: int, j: int|
                        0 <= i < w && 0 <= j < h ==> self.tiles@[i]@[j] == #[trigger] self@.tiles[i][j],
                    row@.len() == y,
                    forall|j: int| 0 <= j < y ==> row@[j] == self@.tiles[x as int][j],
            {
                row.push(self.tiles[x][y]);
            }
            proof {
                assert(self@.tiles[x as int].len() == h as int);
                assert(row@ =~= self@.tiles[x as int]);
            }
            tiles.push(row);
        }
        let r = Grid {
            tiles,
            width: self.width,
            height: self.height,
            seed: self.seed,
            clock: self.clock,
        };
        proof {
            assert(r@ =~~= self@);
        }
        r
    }

    /// Change the type of the tile at `(x, y)`, recomputing its derived
    /// traversability. A no-op out of bounds.
    pub fn set_tile_type(&mut self, x: i32, y: i32, t: TileType)
        requires
            old(self).wf(),
        ensures
            final(self).wf(),
            final(self)@ == old(self)@.spec_set_tile_type(x as int, y as int, t),
            !old(self)@.in_bounds(x as int, y as int) ==> *final(self) == *old(self),
    {
        if x < 0 || x >= self.width || y < 0 || y >= self.height {
            return ;
        }
        proof {
            self.lemma_view_shape();
        }
        let xi = x as usize;
        let yi = y as usize;
        self.tiles[xi][yi].update_tile_type(t);
        proof {
            let m0 = old(self)@;
            let md = m0.spec_set_tile_type(x as int, y as int, t);
            assert forall|i: int| 0 <= i < m0.width implies #[trigger] self@.tiles[i]
                =~= md.tiles[i] by {
                assert(self@.tiles[i] == self.tiles@[i]@);
                if i != xi as int {
                    assert(self.tiles@[i] == old(self).tiles@[i]);
                    assert(md.tiles[i] == m0.tiles[i]);
                    assert(m0.tiles[i] == old(self).tiles@[i]@);
                } else {
                    assert(m0.tiles[i] == old(self).tiles@[i]@);
                }
            }
            assert(self@.tiles =~= md.tiles);
            assert(self@ =~= md);
            m0.lemma_set_tile_type_wf(x as int, y as int, t);
        }
    }

    /// The grid's width.
    pub fn width(&self) -> (w: i32)
        ensures
            w == self@.width,
    {
        self.width
    }

    /// The grid's height.
    pub fn height(&self) -> (h: i32)
        ensures
            h == self@.height,
    {
        self.height
    }

    /// A read-only copy of the tile at `(x, y)`, or `None` outside the
    /// bounds: out-of-range coordinates are rejected at the boundary, never
    /// a panic.
    pub fn tile_at(&self, x: i32, y: i32) -> (t: Option<Tile>)
        requires
            self.wf(),
        ensures
            self@.in_bounds(x as int, y as int) ==> t == Some(self@.tile(x as int, y as int)),
            !self@.in_bounds(x as int, y as int) ==> t is None,
    {
        if x < 0 || x >= self.width || y < 0 || y >= self.height {
            return None;
        }
        proof {
            self.lemma_view_shape();
        }
        Some(self.tiles[x as usize][y as usize])
    }

    /// Pull every strictly newer tile of `other` into this grid
    /// (last-write-wins). The merge is one-directional: `other` is read
    /// only, and a tile of ours that is at least as fresh stays untouched.
    pub fn merge_from(&mut self, other: &Grid)
        requires
            old(self).wf(),
            other.wf(),
            old(self)@.width == other@.width,
            old(self)@.height == other@.height,
        ensures
            final(self).wf(),
            final(self)@ == old(self)@.spec_merge(other@),
    {
        let ghost target = old(self)@.spec_merge(other@);
        let ghost start = old(self)@.tiles;
        let w: usize = self.width as usize;
        let h: usize = self.height as usize;
        proof {
            self.lemma_view_shape();
            other.lemma_view_shape();
        }
        for x in 0..w
            invariant
                w == old(self)@.width,
                h == old(self)@.height,
                old(self)@.wf(),
                other@.wf(),
                other@.width == w as int,
                other@.height == h as int,
                target == old(self)@.spec_merge(other@),
                start == old(self)@.tiles,
                other.tiles@.len() == w,
                forall|i: int| 0 <= i < w ==> (#[trigger] other.tiles@[i])@.len() == h,
                forall|i: int, j: int|
                    0 <= i < w && 0 <= j < h ==> other.tiles@[i]@[j] == #[trigger] other@.tiles[i][j],
                self.width == old(self).width,
                self.height == old(self).height,
                self.seed == old(self).seed,
                self.clock == old(self).clock,
                self.tiles@.len() == w,
                forall|i: int| 0 <= i < w ==> (#[trigger] self.tiles@[i])@.len() == h,
                forall|i: int, j: int|
                    0 <= i < x && 0 <= j < h ==> self.tiles@[i]@[j] == #[trigger] target.tiles[i][j],
                forall|i: int, j: int|
                    x <= i < w && 0 <= j < h ==> self.tiles@[i]@[j] == #[trigger] start[i][j],
        {
            for y in 0..h
                invariant
                    w == old(self)@.width,
                    h == old(self)@.height,
                    x < w,
                    old(self)@.wf(),
                    other@.wf(),
                    other@.width == w as int,
                    other@.height == h as int,
                    target == old(self)@.spec_merge(other@),
                    start == old(self)@.tiles,
                    other.tiles@.len() == w,
                    forall|i: int| 0 <= i < w ==> (#[trigger] other.tiles@[i])@.len() == h,
                    forall|i: int, j: int|
                        0 <= i < w && 0 <= j < h ==> other.tiles@[i]@[j] == #[trigger] other@.tiles[i][j],
                    self.width == old(self).width,
                    self.height == old(self).height,
                    self.seed == old(self).seed,
                    self.clock == old(self).clock,
                    self.tiles@.len() == w,
                    forall|i: int| 0 <= i < w ==> (#[trigger] self.tiles@[i])@.len() == h,
                    forall|i: int, j: int|
                        0 <= i < x && 0 <= j < h ==> self.tiles@[i]@[j] == #[trigger] target.tiles[i][j],
                    forall|j: int|
                        0 <= j < y ==> self.tiles@[x as int]@[j] == #[trigger] target.tiles[x as int][j],
                    forall|j: int|
                        y <= j < h ==> self.tiles@[x as int]@[j] == #[trigger] start[x as int][j],
                    forall|i: int, j: int|
                        x < i < w && 0 <= j < h ==> self.tiles@[i]@[j] == #[trigger] start[i][j],
            {
                if other.tiles[x][y].last_time_visited > self.tiles[x][y].last_time_visited {
                    self.tiles[x][y] = other.tiles[x][y];
                }
            }
        }
        if other.clock > self.clock {
            self.clock = other.clock;
        }
        proof {
            assert forall|i: int| 0 <= i < w implies #[trigger] self@.tiles[i]
                =~= target.tiles[i] by {
                assert(self@.tiles[i] == self.tiles@[i]@);
                assert(target.tiles[i].len() == h as int);
                assert forall|j: int| 0 <= j < h implies #[trigger] self.tiles@[i]@[j]
                    == target.tiles[i][j] by {
                }
            }
            assert(self@.tiles =~= target.tiles);
            assert(self@ =~= target);
            old(self)@.lemma_merge_wf(other@);
        }
    }
}

} // verus!
