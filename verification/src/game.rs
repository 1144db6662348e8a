//! One tick of the game: input, win check, events, in that order.

use crate::resources::Direction;
use crate::systems::events::{drain_sounds, events_drained, run_process_events, Sound};
use crate::systems::gameplay_state::{run_gameplay_state, win_checked};
use crate::systems::input::{
    after_input, input_counts_fit, queued_counts_fit, queued_input_done, run_input, InputSystem,
};
use crate::world::{World, WorldState};
use vstd::prelude::*;

verus! {

/// The world after the input phase of a tick in which the players push in
/// direction `d`, or rest if there is none.
pub open spec fn input_applied(w: WorldState, d: Option<Direction>) -> WorldState {
    match d {
        Some(d) => after_input(w, d),
        None => w,
    }
}

/// One tick with the input given by the caller: every player pushes in
/// `direction`, if there is one; then the win check sets the phase; then
/// the event queue is drained. Returns the sounds to play.
pub fn tick(world: &mut World, direction: Option<Direction>) -> (sounds: Vec<Sound>)
    requires
        old(world)@.movables_apart(),
        direction matches Some(d) ==> input_counts_fit(old(world)@, d),
    ensures
        final(world)@ == events_drained(win_checked(input_applied(old(world)@, direction))),
        sounds@ == drain_sounds(win_checked(input_applied(old(world)@, direction))),
        final(world)@.movables_apart(),
        old(world)@.well_formed() ==> final(world)@.well_formed(),
{
    match direction {
        Some(direction) => run_input(world, direction),
        None => {},
    }
    run_gameplay_state(world);
    run_process_events(world)
}

/// A game: the world and the ticks that drive it.
#[derive(Debug)]
pub struct Game {
    pub world: World,
}

impl Game {
    /// Queues `direction` for the next tick.
    pub fn key_down_event(&mut self, direction: Direction)
        ensures
            final(self).world@ == (WorldState {
                keys: old(self).world@.keys.push(direction),
                ..old(self).world@
            }),
    {
        self.world.input_queue.keys_pressed.push(direction);
    }

    /// One tick with the input taken from the queue: every player that
    /// has a position takes the newest queued direction and pushes; then
    /// the win check sets the phase; then the event queue is drained.
    /// Returns the sounds to play.
    pub fn update(&mut self) -> (sounds: Vec<Sound>)
        requires
            old(self).world@.movables_apart(),
            queued_counts_fit(old(self).world@),
        ensures
            final(self).world@ == events_drained(
                win_checked(
                    queued_input_done(old(self).world@, old(self).world@.entities.len() as int),
                ),
            ),
            sounds@ == drain_sounds(
                win_checked(
                    queued_input_done(old(self).world@, old(self).world@.entities.len() as int),
                ),
            ),
            final(self).world@.movables_apart(),
            old(self).world@.well_formed() ==> final(self).world@.well_formed(),
    {
        let mut input = InputSystem {  };
        input.run(&mut self.world);
        run_gameplay_state(&mut self.world);
        run_process_events(&mut self.world)
    }
}

} // verus!
