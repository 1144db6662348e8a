//! Applying a resolved push: the listed entities move one cell, each move
//! is announced, and the push counts as one move.

use crate::components::Position;
use crate::events::{EntityId, EntityMoved, Event};
use crate::resources::{Direction, Gameplay};
use crate::systems::push::{cell_ahead, in_grid};
use crate::world::{EntityState, World, WorldState};
use vstd::prelude::*;

verus! {

/// Whether the grid has a cell one step from `p` in direction `d`.
pub open spec fn can_step(p: Position, d: Direction) -> bool {
    in_grid(cell_ahead(p.x as int, p.y as int, d, 1))
}

/// `p` one step further in direction `d`, on the same layer.
pub open spec fn stepped(p: Position, d: Direction) -> Position
    recommends
        can_step(p, d),
{
    let c = cell_ahead(p.x as int, p.y as int, d, 1);
    Position { x: c.0 as u8, y: c.1 as u8, z: p.z }
}

/// An entity after one step in direction `d`; one without a position
/// stays as it is.
pub open spec fn stepped_entity(s: EntityState, d: Direction) -> EntityState {
    match s.position {
        Some(p) => EntityState { position: Some(stepped(p, d)), ..s },
        None => s,
    }
}

/// One `EntityMoved` for each of `ids`, in their order.
pub open spec fn moved_events(ids: Seq<EntityId>) -> Seq<Event> {
    Seq::new(ids.len(), |k: int| Event::EntityMoved(EntityMoved { id: ids[k] }))
}

/// Whether `ids` lists entity `e`.
pub open spec fn lists(ids: Seq<EntityId>, e: int) -> bool {
    exists|k: int| 0 <= k < ids.len() && #[trigger] ids[k] == e
}

/// The world after the entities `ids` have moved one step in direction
/// `d`: their positions change, the events are queued behind those that
/// wait, and the move count grows by one if anything was listed.
pub open spec fn shifted(w: WorldState, ids: Seq<EntityId>, d: Direction) -> WorldState {
    WorldState {
        entities: Seq::new(
            w.entities.len(),
            |e: int|
                if lists(ids, e) {
                    stepped_entity(w.entities[e], d)
                } else {
                    w.entities[e]
                },
        ),
        gameplay: if ids.len() > 0 {
            Gameplay { moves_count: (w.gameplay.moves_count + 1) as u32, ..w.gameplay }
        } else {
            w.gameplay
        },
        events: w.events + moved_events(ids),
        ..w
    }
}

/// Every listed entity that has a position can step in direction `d`.
pub open spec fn all_can_step(w: WorldState, ids: Seq<EntityId>, d: Direction) -> bool {
    forall|k: int|
        0 <= k < ids.len() && (#[trigger] ids[k]) < w.entities.len() ==> (
        w.entities[ids[k] as int].position matches Some(p) ==> can_step(p, d))
}

/// `position` one step further in direction `direction`.
pub fn step_position(position: Position, direction: Direction) -> (p: Position)
    requires
        can_step(position, direction),
    ensures
        p == stepped(position, direction),
{
    match direction {
        Direction::Up => Position { y: position.y - 1, ..position },
        Direction::Down => Position { y: position.y + 1, ..position },
        Direction::Left => Position { x: position.x - 1, ..position },
        Direction::Right => Position { x: position.x + 1, ..position },
    }
}

/// Moves each entity of `to_move` one step in direction `direction` and
/// queues an `EntityMoved` for it. A list that is not empty counts as one
/// move, however many entities it names.
pub fn apply_moves(world: &mut World, to_move: &Vec<EntityId>, direction: Direction)
    requires
        to_move@.no_duplicates(),
        all_can_step(old(world)@, to_move@, direction),
        to_move@.len() > 0 ==> old(world)@.gameplay.moves_count < u32::MAX,
    ensures
        final(world)@ == shifted(old(world)@, to_move@, direction),
{
    let ghost w = world@;
    let ghost ids = to_move@;
    if to_move.len() > 0 {
        world.gameplay.moves_count = world.gameplay.moves_count + 1;
    }
    let mut i: usize = 0;
    while i < to_move.len()
        invariant
            i <= to_move.len(),
            ids == to_move@,
            ids.no_duplicates(),
            all_can_step(w, ids, direction),
            world@.entities.len() == w.entities.len(),
            forall|e: int|
                0 <= e < w.entities.len() ==> #[trigger] world@.entities[e] == (if lists(
                    ids.take(i as int),
                    e,
                ) {
                    stepped_entity(w.entities[e], direction)
                } else {
                    w.entities[e]
                }),
            world@.events == w.events + moved_events(ids.take(i as int)),
            world@.gameplay == shifted(w, ids, direction).gameplay,
            world@.keys == w.keys,
            world@.millis == w.millis,
        decreases to_move.len() - i,
    {
        let id = to_move[i];
        let ghost before = world@;
        assert(!lists(ids.take(i as int), id as int)) by {
            if lists(ids.take(i as int), id as int) {
                let j = choose|j: int| 0 <= j < i && #[trigger] ids.take(i as int)[j] == id;
                assert(ids[j] == ids[i as int]);
            }
        }
        match world.position(id) {
            Some(p) => {
                assert(ids[i as int] == id);
                world.set_position(id, step_position(p, direction));
            },
            None => {},
        }
        world.event_queue.events.push(Event::EntityMoved(EntityMoved { id }));
        proof {
            assert(ids.take(i + 1) =~= ids.take(i as int).push(id));
            assert(moved_events(ids.take(i + 1)) =~= moved_events(ids.take(i as int)).push(
                Event::EntityMoved(EntityMoved { id }),
            ));
            assert(world@.events =~= w.events + moved_events(ids.take(i + 1)));
            assert forall|e: int| 0 <= e < w.entities.len() implies #[trigger] world@.entities[e]
                == (if lists(ids.take(i + 1), e) {
                stepped_entity(w.entities[e], direction)
            } else {
                w.entities[e]
            }) by {
                if e == id {
                    assert(ids.take(i + 1)[i as int] == id);
                } else {
                    if lists(ids.take(i as int), e) {
                        let j = choose|j: int| 0 <= j < i && #[trigger] ids.take(i as int)[j] == e;
                        assert(ids.take(i + 1)[j] == e);
                    }
                    if lists(ids.take(i + 1), e) {
                        let j = choose|j: int| 0 <= j < i + 1 && #[trigger] ids.take(i + 1)[j] == e;
                        assert(ids.take(i as int)[j] == e);
                    }
                }
            }
        }
        i += 1;
    }
    proof {
        assert(ids.take(i as int) =~= ids);
        assert(world@.entities =~= shifted(w, ids, direction).entities);
    }
}

} // verus!
