//! Which entities a push moves: the chain of movables in front of the
//! player, unless something that does not move ends it.

use crate::events::EntityId;
use crate::resources::Direction;
use crate::systems::occupancy::OccupancyIndex;
use crate::world::{World, WorldState};
use vstd::prelude::*;

verus! {

/// The cell `k` steps from `(x, y)` in direction `d`.
pub open spec fn cell_ahead(x: int, y: int, d: Direction, k: int) -> (int, int) {
    match d {
        Direction::Up => (x, y - k),
        Direction::Down => (x, y + k),
        Direction::Left => (x - k, y),
        Direction::Right => (x + k, y),
    }
}

/// The cell `k` steps ahead lies `k` unit steps of the direction away.
pub proof fn cell_ahead_follows_delta(x: int, y: int, d: Direction, k: int)
    ensures
        cell_ahead(x, y, d, k) == (x + k * d.delta().0, y + k * d.delta().1),
{
    match d {
        Direction::Up => {
            assert(k * 0 == 0 && k * (-1) == -k);
        },
        Direction::Down => {
            assert(k * 0 == 0 && k * 1 == k);
        },
        Direction::Left => {
            assert(k * 0 == 0 && k * (-1) == -k);
        },
        Direction::Right => {
            assert(k * 0 == 0 && k * 1 == k);
        },
    }
}

/// Whether `(x, y)` is a cell of the grid.
pub open spec fn in_grid(c: (int, int)) -> bool {
    0 <= c.0 < 256 && 0 <= c.1 < 256
}

/// A movable stands `k` steps from `(x, y)` in direction `d`.
pub open spec fn movable_ahead(w: WorldState, x: int, y: int, d: Direction, k: int) -> bool {
    let c = cell_ahead(x, y, d, k);
    in_grid(c) && w.has_movable(c.0, c.1)
}

/// The number of steps from `(x, y)`, counting from `k`, to the first cell
/// in direction `d` that is off the grid or holds no movable.
pub open spec fn chain_end(w: WorldState, x: int, y: int, d: Direction, k: int) -> int
    decreases 256 - k,
{
    if 0 <= k < 256 && movable_ahead(w, x, y, d, k) {
        chain_end(w, x, y, d, k + 1)
    } else {
        k
    }
}

/// The length of the push chain that starts on `(x, y)`: the number of
/// consecutive cells in direction `d`, from `(x, y)` on, that hold a movable.
pub open spec fn chain_len(w: WorldState, x: int, y: int, d: Direction) -> int {
    chain_end(w, x, y, d, 0)
}

/// `n` is the length of the push chain from `(x, y)`: movables stand on the
/// first `n` cells, and the next cell is off the grid or holds none.
pub open spec fn is_chain_len(w: WorldState, x: int, y: int, d: Direction, n: int) -> bool {
    &&& 0 <= n
    &&& forall|k: int| 0 <= k < n ==> #[trigger] movable_ahead(w, x, y, d, k)
    &&& !movable_ahead(w, x, y, d, n)
}

/// A cell `k` steps away from a cell of the grid is off the grid once
/// `k` reaches the grid's width.
pub proof fn far_cells_are_off_grid(x: int, y: int, d: Direction, k: int)
    requires
        in_grid((x, y)),
        k >= 256,
    ensures
        !in_grid(cell_ahead(x, y, d, k)),
{
}

proof fn chain_end_bounds(w: WorldState, x: int, y: int, d: Direction, k: int)
    requires
        0 <= k <= 256,
    ensures
        k <= chain_end(w, x, y, d, k) <= 256,
        forall|j: int| k <= j < chain_end(w, x, y, d, k) ==> #[trigger] movable_ahead(w, x, y, d, j),
        chain_end(w, x, y, d, k) < 256 ==> !movable_ahead(w, x, y, d, chain_end(w, x, y, d, k)),
    decreases 256 - k,
{
    if k < 256 && movable_ahead(w, x, y, d, k) {
        chain_end_bounds(w, x, y, d, k + 1);
    }
}

/// The chain length is the one number that `is_chain_len` accepts.
pub proof fn chain_len_is_unique(w: WorldState, x: int, y: int, d: Direction, n: int)
    requires
        in_grid((x, y)),
    ensures
        is_chain_len(w, x, y, d, n) <==> n == chain_len(w, x, y, d),
{
    let m = chain_len(w, x, y, d);
    chain_end_bounds(w, x, y, d, 0);
    far_cells_are_off_grid(x, y, d, 256);
    assert(is_chain_len(w, x, y, d, m));
    if is_chain_len(w, x, y, d, n) {
        if n < m {
            assert(movable_ahead(w, x, y, d, n));
        }
        if m < n {
            assert(movable_ahead(w, x, y, d, m));
        }
    }
}

/// What a push from `(x, y)` in direction `d` resolves to: the entities to
/// move, nearest first, and whether the push ran into an obstacle.
///
/// The chain of movables from `(x, y)` on moves if the cell behind it is a
/// free cell of the grid. An immovable on that cell blocks the push. A
/// chain that reaches the edge of the grid has nowhere to go: nothing
/// moves.
pub open spec fn push_plan(w: WorldState, x: int, y: int, d: Direction) -> (Seq<EntityId>, bool) {
    let n = chain_len(w, x, y, d);
    let end = cell_ahead(x, y, d, n);
    if !in_grid(end) {
        (Seq::empty(), false)
    } else if w.has_immovable(end.0, end.1) {
        (Seq::empty(), true)
    } else {
        (
            Seq::new(
                n as nat,
                |k: int| w.the_movable(cell_ahead(x, y, d, k).0, cell_ahead(x, y, d, k).1) as EntityId,
            ),
            false,
        )
    }
}

/// Where no two movables share a cell, the movable on a cell is the only
/// one there.
pub proof fn movable_is_unique(w: WorldState, e: int, x: int, y: int)
    requires
        w.movables_apart(),
        w.movable_at(e, x, y),
    ensures
        w.has_movable(x, y),
        w.the_movable(x, y) == e,
{
    let f = w.the_movable(x, y);
    assert(w.movable_at(f, x, y));
    if f != e {
        if f < e {
            assert(w.share_cell(f, e));
            let _ = (w.entities[f], w.entities[e]);
        } else {
            assert(w.share_cell(e, f));
            let _ = (w.entities[e], w.entities[f]);
        }
    }
}

/// The cell one step from `(x, y)` in direction `d`, if the grid has one.
pub fn next_cell(x: u8, y: u8, d: Direction) -> (c: Option<(u8, u8)>)
    ensures
        match c {
            Some(c) => in_grid(cell_ahead(x as int, y as int, d, 1)) && (c.0 as int, c.1 as int)
                == cell_ahead(x as int, y as int, d, 1),
            None => !in_grid(cell_ahead(x as int, y as int, d, 1)),
        },
{
    match d {
        Direction::Up => if y > 0 {
            Some((x, y - 1))
        } else {
            None
        },
        Direction::Down => if y < 255 {
            Some((x, y + 1))
        } else {
            None
        },
        Direction::Left => if x > 0 {
            Some((x - 1, y))
        } else {
            None
        },
        Direction::Right => if x < 255 {
            Some((x + 1, y))
        } else {
            None
        },
    }
}

/// Resolves a push from cell `(x, y)` in direction `direction`: walks the
/// cells from `(x, y)` towards the edge of the grid and collects the
/// movables on them, until a cell without one ends the walk.
pub fn resolve_push(
    world: &World,
    index: &OccupancyIndex,
    x: u8,
    y: u8,
    direction: Direction,
) -> (plan: (Vec<EntityId>, bool))
    requires
        world@.movables_apart(),
        index.indexes(world@),
    ensures
        (plan.0@, plan.1) == push_plan(world@, x as int, y as int, direction),
{
    let ghost w = world@;
    let ghost (x0, y0) = (x as int, y as int);
    let mut to_move: Vec<EntityId> = Vec::new();
    let mut cx = x;
    let mut cy = y;
    loop
        invariant
            w == world@,
            w.movables_apart(),
            index.indexes(w),
            x0 == x,
            y0 == y,
            to_move@.len() < 256,
            (cx as int, cy as int) == cell_ahead(x0, y0, direction, to_move@.len() as int),
            chain_len(w, x0, y0, direction) == chain_end(
                w,
                x0,
                y0,
                direction,
                to_move@.len() as int,
            ),
            forall|k: int|
                0 <= k < to_move@.len() ==> to_move@[k] == w.the_movable(
                    cell_ahead(x0, y0, direction, k).0,
                    cell_ahead(x0, y0, direction, k).1,
                ),
        decreases 256 - to_move@.len(),
    {
        let ghost k = to_move@.len() as int;
        match index.movable_at(cx, cy) {
            Some(e) => {
                proof {
                    movable_is_unique(w, e as int, cx as int, cy as int);
                    assert(movable_ahead(w, x0, y0, direction, k));
                }
                to_move.push(e);
                match next_cell(cx, cy, direction) {
                    Some(c) => {
                        cx = c.0;
                        cy = c.1;
                        proof {
                            if k + 1 >= 256 {
                                far_cells_are_off_grid(x0, y0, direction, k + 1);
                            }
                        }
                    },
                    None => {
                        assert(cell_ahead(x0, y0, direction, k + 1) == cell_ahead(
                            cx as int,
                            cy as int,
                            direction,
                            1,
                        ));
                        assert(!movable_ahead(w, x0, y0, direction, k + 1));
                        assert(chain_end(w, x0, y0, direction, k + 1) == k + 1);
                        assert(chain_end(w, x0, y0, direction, k) == k + 1);
                        return (Vec::new(), false);
                    },
                }
            },
            None => {
                assert(index.movable(cx as int, cy as int) is None);
                assert(in_grid((cx as int, cy as int)));
                assert(forall|e: int|
                    0 <= e < w.entities.len() ==> !w.movable_at(e, cx as int, cy as int));
                assert(!w.has_movable(cx as int, cy as int));
                assert(!movable_ahead(w, x0, y0, direction, k));
                assert(chain_end(w, x0, y0, direction, k) == k);
                match index.immovable_at(cx, cy) {
                    Some(i) => {
                        assert(w.immovable_at(i as int, cx as int, cy as int));
                        return (Vec::new(), true);
                    },
                    None => {
                        assert(!w.has_immovable(cx as int, cy as int));
                        assert(to_move@ =~= push_plan(w, x0, y0, direction).0);
                        return (to_move, false);
                    },
                }
            },
        }
    }
}

} // verus!
