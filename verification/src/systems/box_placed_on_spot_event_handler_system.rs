//! The consumer of `BoxPlacedOnSpot` events.

use crate::events::{select, EventKind};
use crate::systems::events::{sounds_for_all, sounds_of, take_events, Sound};
use crate::world::{World, WorldState};
use vstd::prelude::*;

verus! {

/// Answers each placed box with a sound.
#[derive(Clone, Copy, Debug)]
pub struct EventHandlerSystem {}

impl EventHandlerSystem {
    /// Takes the `BoxPlacedOnSpot` events out of the queue and returns
    /// the sound of each: `Correct` for a box on a spot of its colour,
    /// `Incorrect` for another. Other events stay queued.
    pub fn run(&mut self, world: &mut World) -> (sounds: Vec<Sound>)
        ensures
            final(world)@ == (WorldState {
                events: select(old(world)@.events, EventKind::BoxPlacedOnSpot, false),
                ..old(world)@
            }),
            sounds@ == sounds_of(select(old(world)@.events, EventKind::BoxPlacedOnSpot, true)),
    {
        let taken = take_events(world, EventKind::BoxPlacedOnSpot);
        sounds_for_all(&taken)
    }
}

} // verus!
