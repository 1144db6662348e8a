//! The consumer of `EntityMoved` events.

use crate::events::{select, Event, EventKind};
use crate::systems::events::{
    box_spots_by_position, files_spots, react, reactions, reactions_read_entities, take_events,
};
use crate::world::{World, WorldState};
use vstd::prelude::*;

verus! {

/// Finds the boxes that a move has brought onto a box spot.
#[derive(Clone, Copy, Debug)]
pub struct EventHandlerSystem {}

impl EventHandlerSystem {
    /// Takes the `EntityMoved` events out of the queue and queues, behind
    /// the events that stay, a `BoxPlacedOnSpot` for each moved box that
    /// stands on a box spot.
    pub fn run(&mut self, world: &mut World)
        ensures
            final(world)@ == (WorldState {
                events: select(old(world)@.events, EventKind::EntityMoved, false) + reactions(
                    old(world)@,
                    select(old(world)@.events, EventKind::EntityMoved, true),
                ),
                ..old(world)@
            }),
    {
        let ghost w = world@;
        let taken = take_events(world, EventKind::EntityMoved);
        let ghost v = world@;
        let spots = box_spots_by_position(world);
        let mut placed: Vec<Event> = Vec::new();
        let mut i: usize = 0;
        while i < taken.len()
            invariant
                i <= taken.len(),
                world@ == v,
                files_spots(spots@, v, v.entities.len() as int),
                placed@ == reactions(v, taken@.take(i as int)),
            decreases taken.len() - i,
        {
            proof {
                assert(taken@.take(i + 1).drop_last() =~= taken@.take(i as int));
                assert(taken@.take(i + 1).last() == taken@[i as int]);
            }
            match react(world, &spots, taken[i]) {
                Some(next) => placed.push(next),
                None => {},
            }
            i += 1;
        }
        proof {
            assert(taken@.take(taken@.len() as int) =~= taken@);
            reactions_read_entities(v, w, taken@);
        }
        world.event_queue.events.append(&mut placed);
    }
}

} // verus!
