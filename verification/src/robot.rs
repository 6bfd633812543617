//! The robot: an autonomous agent with a position, a resource counter, an
//! exclusively owned replica of the world, and a handle to the shared grid.
//! Movement, resource collection, discovery and reconciliation all happen
//! through a single atomic move attempt.

use std::sync::Arc;

use vstd::prelude::*;

use crate::clock;
use crate::grid::{Grid, GridModel};
use crate::shared::SharedGrid;
use crate::tile::TileType;

verus! {

/// One of the four movement commands a driver can issue.
#[derive(Clone, Copy, Debug, PartialEq, Eq, Structural)]
pub enum Direction {
    Up,
    Down,
    Left,
    Right,
}

/// The candidate target cell of a move in direction `d` from `(x, y)`:
/// one step on one axis, clamped so coordinates never go below zero.
pub open spec fn spec_target(d: Direction, x: int, y: int) -> (int, int) {
    match d {
        Direction::Up => (x, if y == 0 { 0int } else { y - 1 }),
        Direction::Down => (x, y + 1),
        Direction::Left => (if x == 0 { 0int } else { x - 1 }, y),
        Direction::Right => (x + 1, y),
    }
}

/// The movement command a uniform draw in `[0, 4)` denotes, as the
/// simulation driver draws them.
pub fn direction_from_draw(d: u32) -> (r: Direction)
    ensures
        d == 0 ==> r == Direction::Up,
        d == 1 ==> r == Direction::Down,
        d == 2 ==> r == Direction::Left,
        d >= 3 ==> r == Direction::Right,
{
    match d {
        0 => Direction::Up,
        1 => Direction::Down,
        2 => Direction::Left,
        _ => Direction::Right,
    }
}

/// The mathematical value of a [`RobotState`].
#[verifier::ext_equal]
pub ghost struct RobotModel {
    pub x: int,
    pub y: int,
    pub local: GridModel,
    pub energy: u32,
}

impl RobotModel {
    /// Well-formedness against the shared grid's dimensions: the position
    /// is in bounds and the replica is a well-formed grid of the same
    /// dimensions.
    pub open spec fn wf(self, width: int, height: int) -> bool {
        &&& 0 <= self.x < width
        &&& 0 <= self.y < height
        &&& self.local.wf()
        &&& self.local.width == width
        &&& self.local.height == height
    }
}

/// The robot's own mutable state: its position, its resource counter and
/// its exclusively owned replica of the world. Kept apart from the shared
/// handle so a move can mutate it while the lock on the shared grid is
/// held.
pub struct RobotState {
    pub x: usize,
    pub y: usize,
    pub local_map: Grid,
    pub energy_collected: u32,
}

impl View for RobotState {
    type V = RobotModel;

    open spec fn view(&self) -> RobotModel {
        RobotModel {
            x: self.x as int,
            y: self.y as int,
            local: self.local_map@,
            energy: self.energy_collected,
        }
    }
}

/// One atomic move attempt of a robot against the shared grid, at
/// wall-clock reading `now`; the whole step runs under the grid's lock.
///
/// - If the target cell is in bounds and traversable on the shared grid,
///   the robot moves there; an `Energy` tile is collected exactly once:
///   its type becomes `Empty` and the robot's counter grows by one. The
///   target is marked discovered on the grid and on the replica.
/// - Otherwise the position stays (an out-of-bounds or blocked move
///   reverts), but an in-bounds blocked target is still marked discovered
///   on both: bumping into a wall reveals it.
/// - Finally, if the replica believes the robot now stands on a
///   `ScientificStation`, the replica pulls every newer tile from the
///   shared grid (last-write-wins merge).
pub open spec fn spec_attempt(rs: RobotModel, g: GridModel, nx: int, ny: int, now: u128) -> (
    RobotModel,
    GridModel,
) {
    let target_ok = g.in_bounds(nx, ny) && g.tile(nx, ny).traversable;
    let collected = target_ok && g.tile(nx, ny).tile_type is Energy;
    let g1 = if collected {
        g.spec_set_tile_type(nx, ny, TileType::Empty)
    } else {
        g
    };
    let g2 = g1.spec_discover(nx, ny, now);
    let l1 = rs.local.spec_discover(nx, ny, now);
    let px = if target_ok { nx } else { rs.x };
    let py = if target_ok { ny } else { rs.y };
    let energy = if collected && rs.energy < u32::MAX {
        (rs.energy + 1) as u32
    } else {
        rs.energy
    };
    let l2 = if l1.in_bounds(px, py) && l1.tile(px, py).tile_type is ScientificStation {
        l1.spec_merge(g2)
    } else {
        l1
    };
    (RobotModel { x: px, y: py, local: l2, energy }, g2)
}

impl RobotState {
    /// Shorthand for well-formedness against the given dimensions.
    pub open spec fn wf(self, width: int, height: int) -> bool {
        self@.wf(width, height)
    }

    /// Attempt to move to `(nx, ny)` on `grid`, at wall-clock reading
    /// `now`. The caller holds the shared grid exclusively (its lock) for
    /// the duration of the call, so the whole attempt is one critical
    /// section: the traversability check, the move, the exactly-once
    /// collection and the discovery all see and mutate the same grid
    /// state.
    pub fn attempt_move(&mut self, grid: &mut Grid, nx: usize, ny: usize, now: u128)
        requires
            old(grid).wf(),
            old(self).wf(old(grid)@.width, old(grid)@.height),
        ensures
            final(grid).wf(),
            final(self).wf(final(grid)@.width, final(grid)@.height),
            final(self)@ == spec_attempt(old(self)@, old(grid)@, nx as int, ny as int, now).0,
            final(grid)@ == spec_attempt(old(self)@, old(grid)@, nx as int, ny as int, now).1,
    {
        proof {
            grid.lemma_view_shape();
        }
        let w = grid.width;
        let h = grid.height;
        let in_bounds = nx < w as usize && ny < h as usize;
        let target_ok = in_bounds && grid.tiles[nx][ny].traversable;
        if target_ok {
            let collected = grid.tiles[nx][ny].tile_type == TileType::Energy;
            if collected {
                grid.set_tile_type(nx as i32, ny as i32, TileType::Empty);
                if self.energy_collected < u32::MAX {
                    self.energy_collected = self.energy_collected + 1;
                }
            }
            grid.discover_at(nx as i32, ny as i32, now);
            self.local_map.discover_at(nx as i32, ny as i32, now);
            self.x = nx;
            self.y = ny;
        } else {
            if in_bounds {
                grid.discover_at(nx as i32, ny as i32, now);
                self.local_map.discover_at(nx as i32, ny as i32, now);
            }
        }
        proof {
            self.local_map.lemma_view_shape();
        }
        if self.local_map.tiles[self.x][self.y].tile_type == TileType::ScientificStation {
            self.local_map.merge_from(grid);
        }
        proof {
            let m = spec_attempt(old(self)@, old(grid)@, nx as int, ny as int, now);
            assert(grid@ =~= m.1);
            assert(self@.local =~= m.0.local);
            assert(self@ =~= m.0);
        }
    }
}

/// The relation a public move establishes between the robot before and
/// after the call: for some well-formed grid value of the right
/// dimensions (the one the lock held) and some wall-clock reading, the
/// new state is the result of one atomic attempt towards `(nx, ny)`.
pub open spec fn moved_by_attempt(pre: Robot, post: Robot, nx: int, ny: int) -> bool {
    exists|g0: GridModel, now: u128|
        #![auto]
        g0.wf() && g0.width == pre.grid_width() && g0.height == pre.grid_height()
            && post.state@ == spec_attempt(pre.state@, g0, nx, ny, now).0
}

/// An autonomous robot: an identifier, a handle to the one shared grid,
/// and its own mutable state (position, replica, resource counter).
pub struct Robot {
    pub id: u32,
    pub map: Arc<SharedGrid>,
    pub state: RobotState,
}

impl Robot {
    /// The width of the shared grid this robot works against.
    pub open spec fn grid_width(self) -> int {
        (*self.map).width()
    }

    /// The height of the shared grid this robot works against.
    pub open spec fn grid_height(self) -> int {
        (*self.map).height()
    }

    /// Well-formedness: the robot's state is well formed against the
    /// shared grid's fixed dimensions.
    pub open spec fn wf(self) -> bool {
        self.state.wf(self.grid_width(), self.grid_height())
    }

    /// A robot at start position `(x, y)`, holding a handle to the shared
    /// grid and an exclusively owned replica cloned from it at this
    /// instant (under the lock). Its resource counter starts at zero.
    pub fn new(id: u32, x: usize, y: usize, map: Arc<SharedGrid>) -> (r: Robot)
        requires
            (x as int) < (*map).width(),
            (y as int) < (*map).height(),
        ensures
            r.wf(),
            r.id == id,
            r.map == map,
            r.state.x == x,
            r.state.y == y,
            r.state.energy_collected == 0,
    {
        let local_map = map.snapshot();
        Robot { id, map, state: RobotState { x, y, local_map, energy_collected: 0 } }
    }

    /// One move attempt towards `(nx, ny)`: take the shared grid's lock,
    /// read the wall clock, run the atomic attempt, release the lock.
    ///
    /// The shared grid's value is visible only under the lock, so the
    /// contract quantifies over it: whatever well-formed grid was stored,
    /// the robot's new state is the result of exactly one atomic attempt
    /// against it. In particular the robot never leaves the grid's bounds
    /// and its resource counter never decreases.
    fn move_to(&mut self, nx: usize, ny: usize)
        requires
            old(self).wf(),
        ensures
            final(self).wf(),
            final(self).id == old(self).id,
            final(self).map == old(self).map,
            final(self).state.energy_collected >= old(self).state.energy_collected,
            moved_by_attempt(*old(self), *final(self), nx as int, ny as int),
    {
        let (mut g, handle) = self.map.lock.acquire_write();
        let ghost g0 = g@;
        let now = clock::wall_clock_millis();
        self.state.attempt_move(&mut g, nx, ny, now);
        proof {
            lemma_attempt_preserves_wf(old(self).state@, g0, nx as int, ny as int, now);
        }
        handle.release_write(g);
    }

    /// Move one cell up (`y - 1`, clamped at the edge so the coordinate
    /// never underflows; the attempt against `y == 0` reverts in bounds).
    pub fn move_up(&mut self)
        requires
            old(self).wf(),
        ensures
            final(self).wf(),
            final(self).id == old(self).id,
            final(self).map == old(self).map,
            final(self).state.energy_collected >= old(self).state.energy_collected,
            moved_by_attempt(
                *old(self),
                *final(self),
                spec_target(Direction::Up, old(self).state@.x, old(self).state@.y).0,
                spec_target(Direction::Up, old(self).state@.x, old(self).state@.y).1,
            ),
    {
        let ny = if self.state.y == 0 {
            0
        } else {
            self.state.y - 1
        };
        self.move_to(self.state.x, ny);
    }

    /// Move one cell down (`y + 1`; an attempt past the lower edge
    /// reverts).
    pub fn move_down(&mut self)
        requires
            old(self).wf(),
        ensures
            final(self).wf(),
            final(self).id == old(self).id,
            final(self).map == old(self).map,
            final(self).state.energy_collected >= old(self).state.energy_collected,
            moved_by_attempt(
                *old(self),
                *final(self),
                spec_target(Direction::Down, old(self).state@.x, old(self).state@.y).0,
                spec_target(Direction::Down, old(self).state@.x, old(self).state@.y).1,
            ),
    {
        let ny = self.state.y + 1;
        self.move_to(self.state.x, ny);
    }

    /// Move one cell left (`x - 1`, clamped at the edge).
    pub fn move_left(&mut self)
        requires
            old(self).wf(),
        ensures
            final(self).wf(),
            final(self).id == old(self).id,
            final(self).map == old(self).map,
            final(self).state.energy_collected >= old(self).state.energy_collected,
            moved_by_attempt(
                *old(self),
                *final(self),
                spec_target(Direction::Left, old(self).state@.x, old(self).state@.y).0,
                spec_target(Direction::Left, old(self).state@.x, old(self).state@.y).1,
            ),
    {
        let nx = if self.state.x == 0 {
            0
        } else {
            self.state.x - 1
        };
        self.move_to(nx, self.state.y);
    }

    /// Move one cell right (`x + 1`; an attempt past the right edge
    /// reverts).
    pub fn move_right(&mut self)
        requires
            old(self).wf(),
        ensures
            final(self).wf(),
            final(self).id == old(self).id,
            final(self).map == old(self).map,
            final(self).state.energy_collected >= old(self).state.energy_collected,
            moved_by_attempt(
                *old(self),
                *final(self),
                spec_target(Direction::Right, old(self).state@.x, old(self).state@.y).0,
                spec_target(Direction::Right, old(self).state@.x, old(self).state@.y).1,
            ),
    {
        let nx = self.state.x + 1;
        self.move_to(nx, self.state.y);
    }

    /// Apply the movement command `d`: the one mutator the simulation
    /// driver calls.
    pub fn apply_move(&mut self, d: Direction)
        requires
            old(self).wf(),
        ensures
            final(self).wf(),
            final(self).id == old(self).id,
            final(self).map == old(self).map,
            final(self).state.energy_collected >= old(self).state.energy_collected,
            moved_by_attempt(
                *old(self),
                *final(self),
                spec_target(d, old(self).state@.x, old(self).state@.y).0,
                spec_target(d, old(self).state@.x, old(self).state@.y).1,
            ),
    {
        match d {
            Direction::Up => self.move_up(),
            Direction::Down => self.move_down(),
            Direction::Left => self.move_left(),
            Direction::Right => self.move_right(),
        }
    }

    /// This robot's identifier.
    pub fn robot_id(&self) -> (i: u32)
        ensures
            i == self.id,
    {
        self.id
    }

    /// This robot's position.
    pub fn position(&self) -> (p: (usize, usize))
        ensures
            p.0 == self.state.x,
            p.1 == self.state.y,
    {
        (self.state.x, self.state.y)
    }

    /// How many energy tiles this robot has collected.
    pub fn energy_collected(&self) -> (e: u32)
        ensures
            e == self.state.energy_collected,
    {
        self.state.energy_collected
    }

    /// Read-only access to this robot's replica.
    pub fn local_map(&self) -> (m: &Grid)
        ensures
            m == &self.state.local_map,
    {
        &self.state.local_map
    }
}

/// A move attempt keeps both parties well formed, never changes the
/// grid's dimensions or seed, and leaves the robot either on the target
/// cell or exactly where it was — in bounds either way (movement
/// containment for a single step).
pub proof fn lemma_attempt_preserves_wf(
    rs: RobotModel,
    g: GridModel,
    nx: int,
    ny: int,
    now: u128,
)
    requires
        g.wf(),
        rs.wf(g.width, g.height),
    ensures
        spec_attempt(rs, g, nx, ny, now).0.wf(g.width, g.height),
        spec_attempt(rs, g, nx, ny, now).1.wf(),
        spec_attempt(rs, g, nx, ny, now).1.width == g.width,
        spec_attempt(rs, g, nx, ny, now).1.height == g.height,
        spec_attempt(rs, g, nx, ny, now).1.seed == g.seed,
        spec_attempt(rs, g, nx, ny, now).0.x == nx && spec_attempt(rs, g, nx, ny, now).0.y == ny
            || spec_attempt(rs, g, nx, ny, now).0.x == rs.x && spec_attempt(
            rs,
            g,
            nx,
            ny,
            now,
        ).0.y == rs.y,
        0 <= spec_attempt(rs, g, nx, ny, now).0.x < g.width,
        0 <= spec_attempt(rs, g, nx, ny, now).0.y < g.height,
        spec_attempt(rs, g, nx, ny, now).0.energy >= rs.energy,
{
    let target_ok = g.in_bounds(nx, ny) && g.tile(nx, ny).traversable;
    let collected = target_ok && g.tile(nx, ny).tile_type is Energy;
    let g1 = if collected {
        g.spec_set_tile_type(nx, ny, TileType::Empty)
    } else {
        g
    };
    if collected {
        g.lemma_set_tile_type_wf(nx, ny, TileType::Empty);
    }
    g1.lemma_discover_wf(nx, ny, now);
    rs.local.lemma_discover_wf(nx, ny, now);
    let g2 = g1.spec_discover(nx, ny, now);
    let l1 = rs.local.spec_discover(nx, ny, now);
    let px = if target_ok { nx } else { rs.x };
    let py = if target_ok { ny } else { rs.y };
    if l1.in_bounds(px, py) && l1.tile(px, py).tile_type is ScientificStation {
        l1.lemma_merge_wf(g2);
    }
}

/// A whole run of move attempts: fold [`spec_attempt`] over a sequence of
/// steps, each one a movement command together with the (well-formed)
/// grid value the lock held at that instant and the wall-clock reading.
pub open spec fn spec_run(rs: RobotModel, steps: Seq<(Direction, GridModel, u128)>) -> RobotModel
    decreases steps.len(),
{
    if steps.len() == 0 {
        rs
    } else {
        let t = spec_target(steps[0].0, rs.x, rs.y);
        spec_run(spec_attempt(rs, steps[0].1, t.0, t.1, steps[0].2).0, steps.drop_first())
    }
}

/// Movement containment: starting from any valid position, applying any
/// sequence of move commands — against whatever well-formed grid values
/// of the right dimensions the lock held along the way — never produces a
/// position outside `[0, width) x [0, height)`.
pub proof fn lemma_movement_containment(
    rs: RobotModel,
    steps: Seq<(Direction, GridModel, u128)>,
    width: int,
    height: int,
)
    requires
        rs.wf(width, height),
        forall|i: int|
            0 <= i < steps.len() ==> (#[trigger] steps[i].1).wf() && steps[i].1.width == width
                && steps[i].1.height == height,
    ensures
        spec_run(rs, steps).wf(width, height),
        0 <= spec_run(rs, steps).x < width,
        0 <= spec_run(rs, steps).y < height,
        spec_run(rs, steps).energy >= rs.energy,
    decreases steps.len(),
{
    if steps.len() > 0 {
        let t = spec_target(steps[0].0, rs.x, rs.y);
        lemma_attempt_preserves_wf(rs, steps[0].1, t.0, t.1, steps[0].2);
        let rs1 = spec_attempt(rs, steps[0].1, t.0, t.1, steps[0].2).0;
        assert(forall|i: int|
            0 <= i < steps.drop_first().len() ==> (#[trigger] steps.drop_first()[i])
                == steps[i + 1]);
        lemma_movement_containment(rs1, steps.drop_first(), width, height);
    }
}

/// Exactly-once collection: when an energy tile is the target of two
/// successive attempts (by any two robots), the first attempt moves onto
/// it, collects it — the counter grows by exactly one and the tile
/// becomes empty — and the later attempt still moves onto the now-empty
/// tile but collects nothing, leaving its counter and the tile unchanged.
pub proof fn lemma_collect_exactly_once(
    first: RobotModel,
    second: RobotModel,
    g: GridModel,
    x: int,
    y: int,
    now1: u128,
    now2: u128,
)
    requires
        g.wf(),
        first.wf(g.width, g.height),
        second.wf(g.width, g.height),
        g.in_bounds(x, y),
        g.tile(x, y).tile_type is Energy,
        first.energy < u32::MAX,
    ensures
        ({
            let (f1, g1) = spec_attempt(first, g, x, y, now1);
            let (s1, g2) = spec_attempt(second, g1, x, y, now2);
            &&& f1.x == x && f1.y == y
            &&& f1.energy == first.energy + 1
            &&& g1.tile(x, y).tile_type is Empty
            &&& s1.x == x && s1.y == y
            &&& s1.energy == second.energy
            &&& g2.tile(x, y).tile_type is Empty
        }),
{
    let (f1, g1) = spec_attempt(first, g, x, y, now1);
    let ge = g.spec_set_tile_type(x, y, TileType::Empty);
    g.lemma_set_tile_type_wf(x, y, TileType::Empty);
    assert(ge.tile(x, y).tile_type is Empty);
    assert(g1 == ge.spec_discover(x, y, now1));
    assert(g1.tile(x, y).tile_type is Empty);
    lemma_attempt_preserves_wf(first, g, x, y, now1);
    let (s1, g2) = spec_attempt(second, g1, x, y, now2);
    assert(g1.tile(x, y).traversable);
    assert(g2 == g1.spec_discover(x, y, now2));
    assert(g2.tile(x, y).tile_type is Empty);
}

/// Frame property: a move attempt touches no shared-grid tile other than
/// its target, and even the target keeps its type unless it was collected
/// energy.
pub proof fn lemma_attempt_grid_frame(
    rs: RobotModel,
    g: GridModel,
    nx: int,
    ny: int,
    now: u128,
)
    requires
        g.wf(),
        rs.wf(g.width, g.height),
    ensures
        forall|i: int, j: int|
            g.in_bounds(i, j) && !(i == nx && j == ny) ==> spec_attempt(
                rs,
                g,
                nx,
                ny,
                now,
            ).1.tile(i, j) == g.tile(i, j),
        g.in_bounds(nx, ny) && !(g.tile(nx, ny).traversable && g.tile(nx, ny).tile_type
            is Energy) ==> spec_attempt(rs, g, nx, ny, now).1.tile(nx, ny).tile_type == g.tile(
            nx,
            ny,
        ).tile_type,
{
}

/// Exactly-once collection, stated as conservation: one move attempt
/// grows the robot's counter by exactly as much as the shared grid's
/// stock of energy tiles shrinks, and that amount is 0 or 1. A collected
/// tile is gone for every later attempt, so no energy tile is ever
/// counted twice, by any robot.
pub proof fn lemma_energy_conservation(
    rs: RobotModel,
    g: GridModel,
    nx: int,
    ny: int,
    now: u128,
)
    requires
        g.wf(),
        rs.wf(g.width, g.height),
        rs.energy < u32::MAX,
    ensures
        ({
            let (rs2, g2) = spec_attempt(rs, g, nx, ny, now);
            &&& rs2.energy - rs.energy == crate::grid::spec_energy_count(g)
                - crate::grid::spec_energy_count(g2)
            &&& 0 <= rs2.energy - rs.energy <= 1
        }),
{
    let target_ok = g.in_bounds(nx, ny) && g.tile(nx, ny).traversable;
    let collected = target_ok && g.tile(nx, ny).tile_type is Energy;
    let g1 = if collected {
        g.spec_set_tile_type(nx, ny, TileType::Empty)
    } else {
        g
    };
    if collected {
        g.lemma_set_tile_type_energy(nx, ny, TileType::Empty);
        g.lemma_set_tile_type_wf(nx, ny, TileType::Empty);
    }
    g1.lemma_discover_energy(nx, ny, now);
}

} // verus!
