//! What a push does in the situations that matter to the game: a wall in
//! front of the player, a row of boxes with room behind it, and a row of
//! boxes against a wall.

use crate::events::{EntityId, EntityMoved, Event};
use crate::resources::Direction;
use crate::systems::input::{
    after_input, input_counts_fit, lone_player_input_is_its_push,
    lone_player_queued_input_is_its_push, plan_lists_the_chain, push_moves, pushed,
    queued_counts_fit, queued_input_done,
};
use crate::systems::movement::{lists, stepped_entity};
use crate::systems::push::{
    cell_ahead, chain_len, chain_len_is_unique, in_grid, is_chain_len, movable_ahead,
    movable_is_unique, push_plan,
};
use crate::world::WorldState;
use vstd::prelude::*;

verus! {

/// Entity `pusher` is a movable with a position, and the `boxes` cells in
/// front of it in direction `d` each hold a movable.
pub open spec fn faces_row(w: WorldState, pusher: int, d: Direction, boxes: int) -> bool {
    &&& 0 <= pusher < w.entities.len()
    &&& w.entities[pusher].movable
    &&& w.entities[pusher].position is Some
    &&& 0 <= boxes
    &&& forall|k: int|
        1 <= k <= boxes ==> #[trigger] movable_ahead(
            w,
            w.entities[pusher].position->0.x as int,
            w.entities[pusher].position->0.y as int,
            d,
            k,
        )
}

/// The cell right behind a row of `boxes` boxes in front of `pusher`.
pub open spec fn cell_behind(w: WorldState, pusher: int, d: Direction, boxes: int) -> (int, int) {
    cell_ahead(
        w.entities[pusher].position->0.x as int,
        w.entities[pusher].position->0.y as int,
        d,
        boxes + 1,
    )
}

/// Entity `e` is `pusher` or one of the `boxes` boxes in front of it.
pub open spec fn in_row(w: WorldState, pusher: int, d: Direction, boxes: int, e: int) -> bool {
    exists|k: int|
        0 <= k <= boxes && #[trigger] w.movable_at(
            e,
            cell_ahead(
                w.entities[pusher].position->0.x as int,
                w.entities[pusher].position->0.y as int,
                d,
                k,
            ).0,
            cell_ahead(
                w.entities[pusher].position->0.x as int,
                w.entities[pusher].position->0.y as int,
                d,
                k,
            ).1,
        )
}

proof fn row_is_the_chain(w: WorldState, pusher: int, d: Direction, boxes: int)
    requires
        w.movables_apart(),
        faces_row(w, pusher, d, boxes),
        in_grid(cell_behind(w, pusher, d, boxes)),
        !w.has_movable(cell_behind(w, pusher, d, boxes).0, cell_behind(w, pusher, d, boxes).1),
    ensures
        chain_len(
            w,
            w.entities[pusher].position->0.x as int,
            w.entities[pusher].position->0.y as int,
            d,
        ) == boxes + 1,
{
    let p = w.entities[pusher].position->0;
    let (x, y) = (p.x as int, p.y as int);
    assert(w.movable_at(pusher, x, y));
    assert(movable_ahead(w, x, y, d, 0));
    assert(is_chain_len(w, x, y, d, boxes + 1)) by {
        assert forall|k: int| 0 <= k < boxes + 1 implies #[trigger] movable_ahead(w, x, y, d, k) by {
            if k >= 1 {
                assert(movable_ahead(w, x, y, d, k));
            }
        }
    }
    chain_len_is_unique(w, x, y, d, boxes + 1);
}

/// A player that pushes a row of boxes against an immovable moves
/// nothing: every entity stays as it was, the move count stays, and one
/// `PlayerHitObstacle` is queued behind the events that wait.
pub proof fn push_against_obstacle_moves_nothing(
    w: WorldState,
    pusher: int,
    d: Direction,
    boxes: int,
)
    requires
        w.movables_apart(),
        faces_row(w, pusher, d, boxes),
        in_grid(cell_behind(w, pusher, d, boxes)),
        !w.has_movable(cell_behind(w, pusher, d, boxes).0, cell_behind(w, pusher, d, boxes).1),
        w.has_immovable(cell_behind(w, pusher, d, boxes).0, cell_behind(w, pusher, d, boxes).1),
    ensures
        pushed(w, pusher, d) == (WorldState {
            events: w.events.push(Event::PlayerHitObstacle),
            ..w
        }),
        !push_moves(w, pusher, d),
{
    row_is_the_chain(w, pusher, d, boxes);
}

/// A player that walks straight into an immovable stays where it is, as
/// does every other entity, and exactly one `PlayerHitObstacle` is queued.
pub proof fn push_into_wall_moves_nothing(w: WorldState, pusher: int, d: Direction)
    requires
        w.movables_apart(),
        faces_row(w, pusher, d, 0),
        in_grid(cell_behind(w, pusher, d, 0)),
        !w.has_movable(cell_behind(w, pusher, d, 0).0, cell_behind(w, pusher, d, 0).1),
        w.has_immovable(cell_behind(w, pusher, d, 0).0, cell_behind(w, pusher, d, 0).1),
    ensures
        pushed(w, pusher, d).entities == w.entities,
        pushed(w, pusher, d).gameplay == w.gameplay,
        pushed(w, pusher, d).events == w.events.push(Event::PlayerHitObstacle),
        !push_moves(w, pusher, d),
{
    push_against_obstacle_moves_nothing(w, pusher, d, 0);
}

/// Entity `player` is the only player.
pub open spec fn is_lone_player(w: WorldState, player: int) -> bool {
    &&& 0 <= player < w.entities.len()
    &&& forall|e: int| 0 <= e < w.entities.len() ==> (#[trigger] w.entities[e]).player == (e == player)
}

/// The input phase of a lone player that pushes a row of boxes (or
/// itself alone) against an immovable: every entity stays as it was, the
/// move count stays, whatever its value, and one `PlayerHitObstacle` is
/// queued behind the events that wait.
pub proof fn blocked_input_moves_nothing(w: WorldState, d: Direction, player: int, boxes: int)
    requires
        w.movables_apart(),
        is_lone_player(w, player),
        faces_row(w, player, d, boxes),
        in_grid(cell_behind(w, player, d, boxes)),
        !w.has_movable(cell_behind(w, player, d, boxes).0, cell_behind(w, player, d, boxes).1),
        w.has_immovable(cell_behind(w, player, d, boxes).0, cell_behind(w, player, d, boxes).1),
    ensures
        input_counts_fit(w, d),
        after_input(w, d) == (WorldState { events: w.events.push(Event::PlayerHitObstacle), ..w }),
{
    lone_player_input_is_its_push(w, d, player);
    push_against_obstacle_moves_nothing(w, player, d, boxes);
}

/// The same of the input phase that is fed from the queue: the newest
/// queued direction is taken, every entity stays as it was, the move
/// count stays, whatever its value, and one `PlayerHitObstacle` is queued
/// behind the events that wait.
pub proof fn blocked_queued_input_moves_nothing(w: WorldState, player: int, boxes: int)
    requires
        w.movables_apart(),
        is_lone_player(w, player),
        w.keys.len() > 0,
        faces_row(w, player, w.keys.last(), boxes),
        in_grid(cell_behind(w, player, w.keys.last(), boxes)),
        !w.has_movable(
            cell_behind(w, player, w.keys.last(), boxes).0,
            cell_behind(w, player, w.keys.last(), boxes).1,
        ),
        w.has_immovable(
            cell_behind(w, player, w.keys.last(), boxes).0,
            cell_behind(w, player, w.keys.last(), boxes).1,
        ),
    ensures
        queued_counts_fit(w),
        queued_input_done(w, w.entities.len() as int) == (WorldState {
            keys: w.keys.drop_last(),
            events: w.events.push(Event::PlayerHitObstacle),
            ..w
        }),
{
    let d = w.keys.last();
    let v = WorldState { keys: w.keys.drop_last(), ..w };
    let c = cell_behind(w, player, d, boxes);
    let p = w.entities[player].position->0;
    assert(v.entities == w.entities);
    assert forall|x: int, y: int| v.has_movable(x, y) == w.has_movable(x, y) by {
        if w.has_movable(x, y) {
            let e = choose|e: int| w.movable_at(e, x, y);
            assert(v.movable_at(e, x, y));
        }
        if v.has_movable(x, y) {
            let e = choose|e: int| v.movable_at(e, x, y);
            assert(w.movable_at(e, x, y));
        }
    }
    assert(v.has_immovable(c.0, c.1)) by {
        let e = choose|e: int| w.immovable_at(e, c.0, c.1);
        assert(v.immovable_at(e, c.0, c.1));
    }
    assert(faces_row(v, player, d, boxes)) by {
        assert forall|k: int| 1 <= k <= boxes implies #[trigger] movable_ahead(
            v,
            p.x as int,
            p.y as int,
            d,
            k,
        ) by {
            assert(movable_ahead(w, p.x as int, p.y as int, d, k));
        }
    }
    lone_player_queued_input_is_its_push(w, player);
    push_against_obstacle_moves_nothing(v, player, d, boxes);
}

/// A player that pushes a row of boxes with a free cell behind it moves
/// itself and every box of the row one cell in the direction of the push,
/// and nothing else. The push counts as one move, whatever the length of
/// the row, and an `EntityMoved` is queued for the player and for each
/// box, nearest first.
pub proof fn push_into_room_moves_the_row(w: WorldState, pusher: int, d: Direction, boxes: int)
    requires
        w.movables_apart(),
        w.entities.len() <= usize::MAX,
        w.gameplay.moves_count < u32::MAX,
        faces_row(w, pusher, d, boxes),
        in_grid(cell_behind(w, pusher, d, boxes)),
        !w.has_movable(cell_behind(w, pusher, d, boxes).0, cell_behind(w, pusher, d, boxes).1),
        !w.has_immovable(cell_behind(w, pusher, d, boxes).0, cell_behind(w, pusher, d, boxes).1),
    ensures
        ({
            let after = pushed(w, pusher, d);
            let p = w.entities[pusher].position->0;
            &&& push_moves(w, pusher, d)
            &&& after.entities.len() == w.entities.len()
            &&& forall|e: int|
                0 <= e < w.entities.len() ==> #[trigger] after.entities[e] == (if in_row(
                    w,
                    pusher,
                    d,
                    boxes,
                    e,
                ) {
                    stepped_entity(w.entities[e], d)
                } else {
                    w.entities[e]
                })
            &&& after.gameplay.moves_count == w.gameplay.moves_count + 1
            &&& after.gameplay.state == w.gameplay.state
            &&& after.events == w.events + Seq::new(
                (boxes + 1) as nat,
                |k: int|
                    Event::EntityMoved(
                        EntityMoved {
                            id: w.the_movable(
                                cell_ahead(p.x as int, p.y as int, d, k).0,
                                cell_ahead(p.x as int, p.y as int, d, k).1,
                            ) as EntityId,
                        },
                    ),
            )
        }),
{
    let after = pushed(w, pusher, d);
    let p = w.entities[pusher].position->0;
    let (x, y) = (p.x as int, p.y as int);
    row_is_the_chain(w, pusher, d, boxes);
    plan_lists_the_chain(w, x, y, d);
    let plan = push_plan(w, x, y, d);
    assert(plan.0.len() == boxes + 1);
    assert forall|e: int| 0 <= e < w.entities.len() implies lists(plan.0, e) == in_row(
        w,
        pusher,
        d,
        boxes,
        e,
    ) by {
        if lists(plan.0, e) {
            let k = choose|k: int| 0 <= k < plan.0.len() && #[trigger] plan.0[k] == e;
            assert(w.movable_at(
                plan.0[k] as int,
                cell_ahead(x, y, d, k).0,
                cell_ahead(x, y, d, k).1,
            ));
        }
        if in_row(w, pusher, d, boxes, e) {
            let k = choose|k: int|
                0 <= k <= boxes && #[trigger] w.movable_at(
                    e,
                    cell_ahead(x, y, d, k).0,
                    cell_ahead(x, y, d, k).1,
                );
            movable_is_unique(w, e, cell_ahead(x, y, d, k).0, cell_ahead(x, y, d, k).1);
            assert(plan.0[k] == e);
        }
    }
    assert(after.events =~= w.events + Seq::new(
        (boxes + 1) as nat,
        |k: int|
            Event::EntityMoved(
                EntityMoved {
                    id: w.the_movable(
                        cell_ahead(p.x as int, p.y as int, d, k).0,
                        cell_ahead(p.x as int, p.y as int, d, k).1,
                    ) as EntityId,
                },
            ),
    ));
}

} // verus!
