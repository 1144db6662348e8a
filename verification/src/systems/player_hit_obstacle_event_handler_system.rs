//! The consumer of `PlayerHitObstacle` events.

use crate::events::{select, EventKind};
use crate::systems::events::{sounds_for_all, sounds_of, take_events, Sound};
use crate::world::{World, WorldState};
use vstd::prelude::*;

verus! {

/// Answers each blocked push with a sound.
#[derive(Clone, Copy, Debug)]
pub struct EventHandlerSystem {}

impl EventHandlerSystem {
    /// Takes the `PlayerHitObstacle` events out of the queue and returns
    /// one `Wall` sound for each. Other events stay queued.
    pub fn run(&mut self, world: &mut World) -> (sounds: Vec<Sound>)
        ensures
            final(world)@ == (WorldState {
                events: select(old(world)@.events, EventKind::PlayerHitObstacle, false),
                ..old(world)@
            }),
            sounds@ == sounds_of(select(old(world)@.events, EventKind::PlayerHitObstacle, true)),
    {
        let taken = take_events(world, EventKind::PlayerHitObstacle);
        sounds_for_all(&taken)
    }
}

} // verus!
