//! The input phase of a tick: each player pushes in the requested
//! direction.

use crate::events::{EntityId, Event};
use crate::resources::Direction;
use crate::systems::movement::{all_can_step, apply_moves, lists, shifted};
use crate::systems::occupancy::OccupancyIndex;
use crate::systems::push::{
    cell_ahead, chain_len, chain_len_is_unique, in_grid, movable_ahead, movable_is_unique,
    push_plan, resolve_push,
};
use crate::world::{EntityState, World, WorldState};
use vstd::prelude::*;

verus! {

/// The world after a push in direction `d` from the cell of entity
/// `pusher`. An entity that does not exist or has no position pushes
/// nothing. A blocked push changes no position and queues one
/// `PlayerHitObstacle`.
pub open spec fn pushed(w: WorldState, pusher: int, d: Direction) -> WorldState {
    if 0 <= pusher < w.entities.len() && w.entities[pusher].position is Some {
        let p = w.entities[pusher].position->0;
        let plan = push_plan(w, p.x as int, p.y as int, d);
        if plan.1 {
            WorldState { events: w.events.push(Event::PlayerHitObstacle), ..w }
        } else {
            shifted(w, plan.0, d)
        }
    } else {
        w
    }
}

/// The push of entity `pusher` in direction `d` moves something, and so
/// counts as a move.
pub open spec fn push_moves(w: WorldState, pusher: int, d: Direction) -> bool {
    &&& 0 <= pusher < w.entities.len()
    &&& w.entities[pusher].position matches Some(p)
    &&& !push_plan(w, p.x as int, p.y as int, d).1
    &&& push_plan(w, p.x as int, p.y as int, d).0.len() > 0
}

/// What a resolved push lists: nothing if it is blocked; otherwise the
/// movable of each cell of the chain, each once, all of them free to step,
/// with a free cell of the grid behind the last.
pub proof fn plan_lists_the_chain(w: WorldState, x: int, y: int, d: Direction)
    requires
        w.movables_apart(),
        in_grid((x, y)),
        w.entities.len() <= usize::MAX,
    ensures
        ({
            let plan = push_plan(w, x, y, d);
            let n = chain_len(w, x, y, d);
            let end = cell_ahead(x, y, d, n);
            &&& plan.1 ==> plan.0.len() == 0
            &&& plan.0.len() == 0 || plan.0.len() == n
            &&& plan.0.len() > 0 ==> in_grid(end) && !w.has_movable(end.0, end.1)
                && !w.has_immovable(end.0, end.1)
            &&& forall|k: int|
                0 <= k < plan.0.len() ==> w.movable_at(
                    #[trigger] plan.0[k] as int,
                    cell_ahead(x, y, d, k).0,
                    cell_ahead(x, y, d, k).1,
                )
            &&& plan.0.no_duplicates()
            &&& all_can_step(w, plan.0, d)
        }),
{
    let plan = push_plan(w, x, y, d);
    let n = chain_len(w, x, y, d);
    let end = cell_ahead(x, y, d, n);
    chain_len_is_unique(w, x, y, d, n);
    if plan.0.len() > 0 {
        assert(plan.0.len() == n);
        assert(in_grid(end));
        assert(!movable_ahead(w, x, y, d, n));
        assert forall|k: int| 0 <= k < plan.0.len() implies w.movable_at(
            #[trigger] plan.0[k] as int,
            cell_ahead(x, y, d, k).0,
            cell_ahead(x, y, d, k).1,
        ) by {
            assert(movable_ahead(w, x, y, d, k));
            let c = cell_ahead(x, y, d, k);
            assert(w.movable_at(w.the_movable(c.0, c.1), c.0, c.1));
        }
        assert forall|i: int, j: int|
            0 <= i < plan.0.len() && 0 <= j < plan.0.len() && i != j implies plan.0[i]
            != plan.0[j] by {
            assert(w.movable_at(
                plan.0[i] as int,
                cell_ahead(x, y, d, i).0,
                cell_ahead(x, y, d, i).1,
            ));
            assert(w.movable_at(
                plan.0[j] as int,
                cell_ahead(x, y, d, j).0,
                cell_ahead(x, y, d, j).1,
            ));
        }
        assert forall|k: int|
            0 <= k < plan.0.len() && (#[trigger] plan.0[k]) < w.entities.len() implies (
        w.entities[plan.0[k] as int].position matches Some(p) ==> in_grid(
            cell_ahead(p.x as int, p.y as int, d, 1),
        )) by {
            assert(w.movable_at(
                plan.0[k] as int,
                cell_ahead(x, y, d, k).0,
                cell_ahead(x, y, d, k).1,
            ));
            let p = w.entities[plan.0[k] as int].position->0;
            assert(cell_ahead(p.x as int, p.y as int, d, 1) == cell_ahead(x, y, d, k + 1));
            if k + 1 < n {
                assert(movable_ahead(w, x, y, d, k + 1));
            }
        }
    }
}

/// A push adds and removes no entity, changes no tag and no layer, gives
/// and takes no position, and leaves phase, input and time alone. It
/// counts as at most one move.
pub proof fn push_keeps_the_rest(w: WorldState, pusher: int, d: Direction)
    ensures
        ({
            let w2 = pushed(w, pusher, d);
            &&& w2.entities.len() == w.entities.len()
            &&& w2.keys == w.keys
            &&& w2.millis == w.millis
            &&& w2.gameplay.state == w.gameplay.state
            &&& w2.gameplay.moves_count == w.gameplay.moves_count || w2.gameplay.moves_count == (
            w.gameplay.moves_count + 1) as u32
            &&& forall|e: int|
                0 <= e < w.entities.len() ==> {
                    let old_e = w.entities[e];
                    let new_e = #[trigger] w2.entities[e];
                    &&& new_e == (EntityState { position: new_e.position, ..old_e })
                    &&& new_e.position is Some == old_e.position is Some
                    &&& new_e.position is Some ==> new_e.position->0.z == old_e.position->0.z
                }
        }),
{
}

/// A push never brings two movables onto one cell: it moves a chain only
/// into a cell that holds none.
pub proof fn push_keeps_movables_apart(w: WorldState, pusher: int, d: Direction)
    requires
        w.movables_apart(),
        w.entities.len() <= usize::MAX,
    ensures
        pushed(w, pusher, d).movables_apart(),
{
    let w2 = pushed(w, pusher, d);
    if 0 <= pusher < w.entities.len() && w.entities[pusher].position is Some {
        let p = w.entities[pusher].position->0;
        let (x, y) = (p.x as int, p.y as int);
        let plan = push_plan(w, x, y, d);
        plan_lists_the_chain(w, x, y, d);
        if !plan.1 && plan.0.len() > 0 {
            assert forall|a: int, b: int|
                #![trigger w2.entities[a], w2.entities[b]]
                0 <= a < b < w2.entities.len() && w2.share_cell(a, b) implies !(
            w2.entities[a].movable && w2.entities[b].movable) by {
                let _ = (w.entities[a], w.entities[b]);
                if lists(plan.0, a) && lists(plan.0, b) {
                    movers_stay_apart(w, x, y, d, a, b);
                } else if lists(plan.0, a) {
                    mover_meets_no_movable(w, x, y, d, a, b);
                } else if lists(plan.0, b) {
                    mover_meets_no_movable(w, x, y, d, b, a);
                } else {
                    assert(w.share_cell(a, b));
                }
            }
        } else {
            assert(w2.entities =~= w.entities);
        }
    }
}

/// A push keeps the grid well formed: where no entity is both movable and
/// immovable, no immovable moves, and the movables stay apart.
pub proof fn push_keeps_well_formed(w: WorldState, pusher: int, d: Direction)
    requires
        w.well_formed(),
        w.entities.len() <= usize::MAX,
    ensures
        pushed(w, pusher, d).well_formed(),
{
    push_keeps_the_rest(w, pusher, d);
    push_keeps_movables_apart(w, pusher, d);
    let w2 = pushed(w, pusher, d);
    if 0 <= pusher < w.entities.len() && w.entities[pusher].position is Some {
        let p = w.entities[pusher].position->0;
        let (x, y) = (p.x as int, p.y as int);
        let plan = push_plan(w, x, y, d);
        plan_lists_the_chain(w, x, y, d);
        assert forall|a: int, b: int|
            #![trigger w2.entities[a], w2.entities[b]]
            0 <= a < b < w2.entities.len() && w2.share_cell(a, b) implies !(
        w2.entities[a].immovable && w2.entities[b].immovable) by {
            let _ = (w.entities[a], w.entities[b]);
            if w.entities[a].immovable && w.entities[b].immovable {
                if lists(plan.0, a) {
                    let k = choose|k: int| 0 <= k < plan.0.len() && #[trigger] plan.0[k] == a;
                    assert(w.movable_at(
                        plan.0[k] as int,
                        cell_ahead(x, y, d, k).0,
                        cell_ahead(x, y, d, k).1,
                    ));
                }
                if lists(plan.0, b) {
                    let k = choose|k: int| 0 <= k < plan.0.len() && #[trigger] plan.0[k] == b;
                    assert(w.movable_at(
                        plan.0[k] as int,
                        cell_ahead(x, y, d, k).0,
                        cell_ahead(x, y, d, k).1,
                    ));
                }
                assert(w2.entities[a] == w.entities[a]);
                assert(w2.entities[b] == w.entities[b]);
                assert(w.share_cell(a, b));
            }
        }
    }
    assert forall|e: int| 0 <= e < w2.entities.len() implies !((
    #[trigger] w2.entities[e]).movable && w2.entities[e].immovable) by {
        let _ = w.entities[e];
    }
}

/// Two entities that a push moves do not land on one cell.
proof fn movers_stay_apart(w: WorldState, x: int, y: int, d: Direction, a: int, b: int)
    requires
        w.movables_apart(),
        w.entities.len() <= usize::MAX,
        in_grid((x, y)),
        !push_plan(w, x, y, d).1,
        lists(push_plan(w, x, y, d).0, a),
        lists(push_plan(w, x, y, d).0, b),
        a != b,
    ensures
        !shifted(w, push_plan(w, x, y, d).0, d).share_cell(a, b),
{
    let plan = push_plan(w, x, y, d);
    plan_lists_the_chain(w, x, y, d);
    let ka = choose|k: int| 0 <= k < plan.0.len() && #[trigger] plan.0[k] == a;
    let kb = choose|k: int| 0 <= k < plan.0.len() && #[trigger] plan.0[k] == b;
    assert(w.movable_at(plan.0[ka] as int, cell_ahead(x, y, d, ka).0, cell_ahead(x, y, d, ka).1));
    assert(w.movable_at(plan.0[kb] as int, cell_ahead(x, y, d, kb).0, cell_ahead(x, y, d, kb).1));
    assert(ka != kb);
}

/// An entity `a` that a push moves does not land on the cell of a movable
/// `b` that stays behind.
proof fn mover_meets_no_movable(w: WorldState, x: int, y: int, d: Direction, a: int, b: int)
    requires
        w.movables_apart(),
        w.entities.len() <= usize::MAX,
        in_grid((x, y)),
        !push_plan(w, x, y, d).1,
        lists(push_plan(w, x, y, d).0, a),
        !lists(push_plan(w, x, y, d).0, b),
        0 <= a < w.entities.len(),
        0 <= b < w.entities.len(),
        shifted(w, push_plan(w, x, y, d).0, d).share_cell(a, b)
            || shifted(w, push_plan(w, x, y, d).0, d).share_cell(b, a),
    ensures
        !w.entities[b].movable,
{
    let plan = push_plan(w, x, y, d);
    let n = chain_len(w, x, y, d);
    let w2 = shifted(w, plan.0, d);
    plan_lists_the_chain(w, x, y, d);
    let k = choose|k: int| 0 <= k < plan.0.len() && #[trigger] plan.0[k] == a;
    assert(w.movable_at(plan.0[k] as int, cell_ahead(x, y, d, k).0, cell_ahead(x, y, d, k).1));
    let pa = w.entities[a].position->0;
    assert(cell_ahead(pa.x as int, pa.y as int, d, 1) == cell_ahead(x, y, d, k + 1));
    let c = cell_ahead(x, y, d, k + 1);
    assert(w2.entities[a].position->0.x == c.0 && w2.entities[a].position->0.y == c.1);
    assert(w2.entities[b] == w.entities[b]);
    if w.entities[b].movable {
        assert(w.movable_at(b, c.0, c.1));
        if k + 1 < n {
            movable_is_unique(w, b, c.0, c.1);
            assert(plan.0[k + 1] == b);
        } else {
            assert(w.has_movable(c.0, c.1));
        }
    }
}

/// Lets entity `pusher` push in direction `direction`: the chain of
/// movables that starts on its cell moves one cell if the cell behind the
/// chain is a free cell of the grid.
pub fn push_player(world: &mut World, pusher: EntityId, direction: Direction)
    requires
        old(world)@.movables_apart(),
        push_moves(old(world)@, pusher as int, direction) ==> old(world)@.gameplay.moves_count
            < u32::MAX,
    ensures
        final(world)@ == pushed(old(world)@, pusher as int, direction),
        final(world)@.movables_apart(),
        old(world)@.well_formed() ==> final(world)@.well_formed(),
{
    proof {
        assert(world@.entities.len() == world.entities.len());
        push_keeps_movables_apart(world@, pusher as int, direction);
        if world@.well_formed() {
            push_keeps_well_formed(world@, pusher as int, direction);
        }
    }
    match world.position(pusher) {
        Some(p) => {
            let index = OccupancyIndex::build(world);
            let plan = resolve_push(world, &index, p.x, p.y, direction);
            if plan.1 {
                world.event_queue.events.push(Event::PlayerHitObstacle);
            } else {
                proof {
                    plan_lists_the_chain(world@, p.x as int, p.y as int, direction);
                }
                apply_moves(world, &plan.0, direction);
            }
        },
        None => {},
    }
}

/// The number of players among the first `upto` entities.
pub open spec fn player_count(w: WorldState, upto: int) -> nat
    decreases upto,
{
    if upto <= 0 {
        0
    } else {
        player_count(w, upto - 1) + (if upto <= w.entities.len() && w.entities[upto - 1].player {
            1nat
        } else {
            0nat
        })
    }
}

/// The number of players.
pub fn count_players(world: &World) -> (n: usize)
    ensures
        n == player_count(world@, world@.entities.len() as int),
{
    let total = world.len();
    let mut n: usize = 0;
    let mut id: usize = 0;
    while id < total
        invariant
            id <= total,
            total == world@.entities.len(),
            n == player_count(world@, id as int),
            n <= id,
        decreases total - id,
    {
        if world.is_player(id) {
            n += 1;
        }
        id += 1;
    }
    n
}

/// The world after each player among the first `upto` entities has pushed
/// in direction `d`, one after the other in the order of their identities.
pub open spec fn input_done(w: WorldState, d: Direction, upto: int) -> WorldState
    decreases upto,
{
    if upto <= 0 {
        w
    } else {
        let before = input_done(w, d, upto - 1);
        if upto <= w.entities.len() && w.entities[upto - 1].player {
            pushed(before, upto - 1, d)
        } else {
            before
        }
    }
}

/// The world after every player has pushed in direction `d`.
pub open spec fn after_input(w: WorldState, d: Direction) -> WorldState {
    input_done(w, d, w.entities.len() as int)
}

/// No push of the input phase in direction `d` that moves something finds
/// the move count at its greatest value.
pub open spec fn input_counts_fit(w: WorldState, d: Direction) -> bool {
    forall|k: int|
        0 <= k < w.entities.len() && w.entities[k].player && #[trigger] push_moves(
            input_done(w, d, k),
            k,
            d,
        ) ==> input_done(w, d, k).gameplay.moves_count < u32::MAX
}

/// Where entity `player` is the only player, the input phase is one push,
/// the push of that player, and it asks of the move count what that push
/// asks.
pub proof fn lone_player_input_is_its_push(w: WorldState, d: Direction, player: int)
    requires
        0 <= player < w.entities.len(),
        forall|e: int| 0 <= e < w.entities.len() ==> (#[trigger] w.entities[e]).player == (e == player),
    ensures
        after_input(w, d) == pushed(w, player, d),
        input_counts_fit(w, d) <==> (push_moves(w, player, d) ==> w.gameplay.moves_count
            < u32::MAX),
{
    lone_player_input_upto(w, d, player, w.entities.len() as int);
    lone_player_input_upto(w, d, player, player);
    assert(input_done(w, d, player) == w);
    if push_moves(w, player, d) ==> w.gameplay.moves_count < u32::MAX {
        assert forall|k: int|
            0 <= k < w.entities.len() && w.entities[k].player && #[trigger] push_moves(
                input_done(w, d, k),
                k,
                d,
            ) implies input_done(w, d, k).gameplay.moves_count < u32::MAX by {
            assert(k == player);
        }
    }
    if input_counts_fit(w, d) && push_moves(w, player, d) {
        assert(push_moves(input_done(w, d, player), player, d));
    }
}

proof fn lone_player_input_upto(w: WorldState, d: Direction, player: int, upto: int)
    requires
        0 <= player < w.entities.len(),
        forall|e: int| 0 <= e < w.entities.len() ==> (#[trigger] w.entities[e]).player == (e == player),
        0 <= upto <= w.entities.len(),
    ensures
        input_done(w, d, upto) == (if upto <= player {
            w
        } else {
            pushed(w, player, d)
        }),
    decreases upto,
{
    if upto > 0 {
        lone_player_input_upto(w, d, player, upto - 1);
        let _ = w.entities[upto - 1];
    }
}

proof fn player_count_grows(w: WorldState, i: int, j: int)
    requires
        i <= j,
    ensures
        player_count(w, i) <= player_count(w, j),
    decreases j - i,
{
    if i < j {
        player_count_grows(w, i, j - 1);
    }
}

proof fn input_counts_at_most_players(w: WorldState, d: Direction, upto: int)
    requires
        0 <= upto <= w.entities.len(),
        w.gameplay.moves_count + player_count(w, w.entities.len() as int) <= u32::MAX,
    ensures
        input_done(w, d, upto).gameplay.moves_count <= w.gameplay.moves_count + player_count(
            w,
            upto,
        ),
    decreases upto,
{
    if upto > 0 {
        input_counts_at_most_players(w, d, upto - 1);
        player_count_grows(w, upto, w.entities.len() as int);
        push_keeps_the_rest(input_done(w, d, upto - 1), upto - 1, d);
    }
}

/// Where the move count leaves room for one move of each player, the
/// input phase fits.
pub proof fn room_for_each_player_fits(w: WorldState, d: Direction)
    requires
        w.gameplay.moves_count + player_count(w, w.entities.len() as int) <= u32::MAX,
    ensures
        input_counts_fit(w, d),
{
    assert forall|k: int|
        0 <= k < w.entities.len() && w.entities[k].player && #[trigger] push_moves(
            input_done(w, d, k),
            k,
            d,
        ) implies input_done(w, d, k).gameplay.moves_count < u32::MAX by {
        input_counts_at_most_players(w, d, k);
        player_count_grows(w, k + 1, w.entities.len() as int);
    }
}

/// Each player in turn pushes in direction `direction`.
pub fn run_input(world: &mut World, direction: Direction)
    requires
        old(world)@.movables_apart(),
        input_counts_fit(old(world)@, direction),
    ensures
        final(world)@ == after_input(old(world)@, direction),
        final(world)@.movables_apart(),
        old(world)@.well_formed() ==> final(world)@.well_formed(),
{
    let ghost w = world@;
    let n = world.len();
    let mut id: usize = 0;
    while id < n
        invariant
            id <= n,
            n == w.entities.len(),
            input_counts_fit(w, direction),
            world@ == input_done(w, direction, id as int),
            world@.movables_apart(),
            w.well_formed() ==> world@.well_formed(),
            world@.entities.len() == n,
            forall|e: int| 0 <= e < n ==> (#[trigger] world@.entities[e]).player == w.entities[e].player,
        decreases n - id,
    {
        proof {
            push_keeps_the_rest(world@, id as int, direction);
        }
        if world.is_player(id) {
            push_player(world, id, direction);
        }
        id += 1;
    }
}

/// The world after each player that has a position among the first `upto`
/// entities has taken the newest queued direction and pushed that way;
/// players that find the queue empty do nothing.
pub open spec fn queued_input_done(w: WorldState, upto: int) -> WorldState
    decreases upto,
{
    if upto <= 0 {
        w
    } else {
        let before = queued_input_done(w, upto - 1);
        if upto <= w.entities.len() && w.entities[upto - 1].player && w.entities[upto
            - 1].position is Some && before.keys.len() > 0 {
            pushed(
                WorldState { keys: before.keys.drop_last(), ..before },
                upto - 1,
                before.keys.last(),
            )
        } else {
            before
        }
    }
}

/// The world in which entity `k` pushes during the queued input phase:
/// what the players before it have left, without the direction that
/// entity `k` takes from the queue.
pub open spec fn before_queued_push(w: WorldState, k: int) -> WorldState {
    WorldState {
        keys: queued_input_done(w, k).keys.drop_last(),
        ..queued_input_done(w, k)
    }
}

/// No push of the queued input phase that moves something finds the move
/// count at its greatest value.
pub open spec fn queued_counts_fit(w: WorldState) -> bool {
    forall|k: int|
        0 <= k < w.entities.len() && w.entities[k].player && w.entities[k].position is Some
            && queued_input_done(w, k).keys.len() > 0 && #[trigger] push_moves(
            before_queued_push(w, k),
            k,
            queued_input_done(w, k).keys.last(),
        ) ==> queued_input_done(w, k).gameplay.moves_count < u32::MAX
}

/// Where entity `player` is the only player, the queued input phase is
/// one push at most: the player pushes in the newest queued direction,
/// if it has a position and a direction is queued. The phase asks of the
/// move count what that push asks.
pub proof fn lone_player_queued_input_is_its_push(w: WorldState, player: int)
    requires
        0 <= player < w.entities.len(),
        forall|e: int| 0 <= e < w.entities.len() ==> (#[trigger] w.entities[e]).player == (e == player),
    ensures
        queued_input_done(w, w.entities.len() as int) == (if w.entities[player].position is Some
            && w.keys.len() > 0 {
            pushed(WorldState { keys: w.keys.drop_last(), ..w }, player, w.keys.last())
        } else {
            w
        }),
        queued_counts_fit(w) <==> (w.entities[player].position is Some && w.keys.len() > 0
            && push_moves(WorldState { keys: w.keys.drop_last(), ..w }, player, w.keys.last())
            ==> w.gameplay.moves_count < u32::MAX),
{
    lone_player_queued_upto(w, player, w.entities.len() as int);
    lone_player_queued_upto(w, player, player);
    assert(queued_input_done(w, player) == w);
    assert(before_queued_push(w, player) == (WorldState { keys: w.keys.drop_last(), ..w }));
    let needed = w.entities[player].position is Some && w.keys.len() > 0 && push_moves(
        WorldState { keys: w.keys.drop_last(), ..w },
        player,
        w.keys.last(),
    );
    if needed ==> w.gameplay.moves_count < u32::MAX {
        assert forall|k: int|
            0 <= k < w.entities.len() && w.entities[k].player && w.entities[k].position is Some
                && queued_input_done(w, k).keys.len() > 0 && #[trigger] push_moves(
                before_queued_push(w, k),
                k,
                queued_input_done(w, k).keys.last(),
            ) implies queued_input_done(w, k).gameplay.moves_count < u32::MAX by {
            assert(k == player);
        }
    }
    if queued_counts_fit(w) && needed {
        assert(push_moves(
            before_queued_push(w, player),
            player,
            queued_input_done(w, player).keys.last(),
        ));
    }
}

proof fn lone_player_queued_upto(w: WorldState, player: int, upto: int)
    requires
        0 <= player < w.entities.len(),
        forall|e: int| 0 <= e < w.entities.len() ==> (#[trigger] w.entities[e]).player == (e == player),
        0 <= upto <= w.entities.len(),
    ensures
        queued_input_done(w, upto) == (if upto > player && w.entities[player].position is Some
            && w.keys.len() > 0 {
            pushed(WorldState { keys: w.keys.drop_last(), ..w }, player, w.keys.last())
        } else {
            w
        }),
    decreases upto,
{
    if upto > 0 {
        lone_player_queued_upto(w, player, upto - 1);
        let _ = w.entities[upto - 1];
    }
}

proof fn queued_counts_at_most_players(w: WorldState, upto: int)
    requires
        0 <= upto <= w.entities.len(),
        w.gameplay.moves_count + player_count(w, w.entities.len() as int) <= u32::MAX,
    ensures
        queued_input_done(w, upto).gameplay.moves_count <= w.gameplay.moves_count + player_count(
            w,
            upto,
        ),
    decreases upto,
{
    if upto > 0 {
        queued_counts_at_most_players(w, upto - 1);
        player_count_grows(w, upto, w.entities.len() as int);
        let before = queued_input_done(w, upto - 1);
        if before.keys.len() > 0 {
            push_keeps_the_rest(
                WorldState { keys: before.keys.drop_last(), ..before },
                upto - 1,
                before.keys.last(),
            );
        }
    }
}

/// Where the move count leaves room for one move of each player, the
/// queued input phase fits.
pub proof fn room_for_each_player_fits_queue(w: WorldState)
    requires
        w.gameplay.moves_count + player_count(w, w.entities.len() as int) <= u32::MAX,
    ensures
        queued_counts_fit(w),
{
    assert forall|k: int|
        0 <= k < w.entities.len() && w.entities[k].player && w.entities[k].position is Some
            && queued_input_done(w, k).keys.len() > 0 && #[trigger] push_moves(
            before_queued_push(w, k),
            k,
            queued_input_done(w, k).keys.last(),
        ) implies queued_input_done(w, k).gameplay.moves_count < u32::MAX by {
        queued_counts_at_most_players(w, k);
        player_count_grows(w, k + 1, w.entities.len() as int);
    }
}

/// The input phase of a tick, fed from the input queue.
#[derive(Clone, Copy, Debug)]
pub struct InputSystem {}

impl InputSystem {
    /// Each player that has a position takes the newest queued direction
    /// and pushes that way.
    pub fn run(&mut self, world: &mut World)
        requires
            old(world)@.movables_apart(),
            queued_counts_fit(old(world)@),
        ensures
            final(world)@ == queued_input_done(old(world)@, old(world)@.entities.len() as int),
            final(world)@.movables_apart(),
            old(world)@.well_formed() ==> final(world)@.well_formed(),
    {
        let ghost w = world@;
        let n = world.len();
        let mut id: usize = 0;
        while id < n
            invariant
                id <= n,
                n == w.entities.len(),
                queued_counts_fit(w),
                world@ == queued_input_done(w, id as int),
                world@.movables_apart(),
                w.well_formed() ==> world@.well_formed(),
                world@.entities.len() == n,
                forall|e: int|
                    0 <= e < n ==> {
                        &&& (#[trigger] world@.entities[e]).player == w.entities[e].player
                        &&& world@.entities[e].position is Some == w.entities[e].position is Some
                    },
            decreases n - id,
        {
            let ghost before = world@;
            if world.is_player(id) && world.position(id).is_some() {
                match world.input_queue.keys_pressed.pop() {
                    Some(direction) => {
                        proof {
                            assert(world@ == before_queued_push(w, id as int));
                            assert(direction == before.keys.last());
                            push_keeps_the_rest(world@, id as int, direction);
                        }
                        push_player(world, id, direction);
                    },
                    None => {},
                }
            }
            id += 1;
        }
    }
}

} // verus!
