//! Draining the event queue: some events call for a sound, and a moved box
//! that came to rest on a box spot gives rise to a further event.

use crate::components::BoxColour;
use crate::events::{select, BoxPlacedOnSpot, Event, EventKind};
use crate::systems::occupancy::{cell_key, key_of};
use crate::world::{World, WorldState};
use std::collections::HashMap;
use vstd::prelude::*;

verus! {

broadcast use vstd::std_specs::hash::group_hash_axioms;

/// A sound that the game plays in answer to an event.
#[derive(Clone, Copy, Debug, PartialEq, Eq, Structural)]
pub enum Sound {
    Wall,
    Correct,
    Incorrect,
}

impl Sound {
    /// The name under which the sound is stored.
    pub open spec fn spec_name(self) -> Seq<char> {
        match self {
            Sound::Wall => "wall"@,
            Sound::Correct => "correct"@,
            Sound::Incorrect => "incorrect"@,
        }
    }

    /// The name under which the sound is stored.
    pub fn name(&self) -> (s: String)
        ensures
            s@ == self.spec_name(),
    {
        match self {
            Sound::Wall => String::from_str("wall"),
            Sound::Correct => String::from_str("correct"),
            Sound::Incorrect => String::from_str("incorrect"),
        }
    }

    /// The resource path of the sound's file.
    pub fn path(&self) -> (s: String)
        ensures
            s@ == "/sounds/"@ + self.spec_name() + ".wav"@,
    {
        let name = self.name();
        String::from_str("/sounds/").concat(name.as_str()).concat(".wav")
    }
}

/// The sound that an event calls for, if any.
pub open spec fn sound_of(event: Event) -> Option<Sound> {
    match event {
        Event::PlayerHitObstacle => Some(Sound::Wall),
        Event::EntityMoved(_) => None,
        Event::BoxPlacedOnSpot(placed) => Some(
            if placed.is_correct_spot {
                Sound::Correct
            } else {
                Sound::Incorrect
            },
        ),
    }
}

/// The sounds that `events` call for, in the order of the events.
pub open spec fn sounds_of(events: Seq<Event>) -> Seq<Sound>
    decreases events.len(),
{
    if events.len() == 0 {
        Seq::empty()
    } else {
        let before = sounds_of(events.drop_last());
        match sound_of(events.last()) {
            Some(sound) => before.push(sound),
            None => before,
        }
    }
}

/// The colour of the box spot on cell `(x, y)`, looking only at the first
/// `upto` entities; where several spots share the cell, the one with the
/// greatest identity counts.
pub open spec fn spot_on(w: WorldState, x: int, y: int, upto: int) -> Option<BoxColour>
    decreases upto,
{
    if upto <= 0 {
        None
    } else if w.occupies(upto - 1, x, y) && w.entities[upto - 1].spot_colour is Some {
        w.entities[upto - 1].spot_colour
    } else {
        spot_on(w, x, y, upto - 1)
    }
}

/// The event that `event` gives rise to: a box that was moved onto a box
/// spot has been placed, on the correct spot if the colours agree.
pub open spec fn reaction(w: WorldState, event: Event) -> Option<Event> {
    match event {
        Event::EntityMoved(moved) => {
            if moved.id < w.entities.len() {
                let e = w.entities[moved.id as int];
                match (e.box_colour, e.position) {
                    (Some(colour), Some(p)) => match spot_on(
                        w,
                        p.x as int,
                        p.y as int,
                        w.entities.len() as int,
                    ) {
                        Some(spot_colour) => Some(
                            Event::BoxPlacedOnSpot(
                                BoxPlacedOnSpot { is_correct_spot: spot_colour == colour },
                            ),
                        ),
                        None => None,
                    },
                    _ => None,
                }
            } else {
                None
            }
        },
        _ => None,
    }
}

/// The events that `events` give rise to, in the order of `events`.
pub open spec fn reactions(w: WorldState, events: Seq<Event>) -> Seq<Event>
    decreases events.len(),
{
    if events.len() == 0 {
        Seq::empty()
    } else {
        let before = reactions(w, events.drop_last());
        match reaction(w, events.last()) {
            Some(event) => before.push(event),
            None => before,
        }
    }
}

/// The sound that `event` calls for, if any.
pub fn sound_for(event: Event) -> (sound: Option<Sound>)
    ensures
        sound == sound_of(event),
{
    match event {
        Event::PlayerHitObstacle => Some(Sound::Wall),
        Event::EntityMoved(_) => None,
        Event::BoxPlacedOnSpot(placed) => Some(
            if placed.is_correct_spot {
                Sound::Correct
            } else {
                Sound::Incorrect
            },
        ),
    }
}

/// `spots` holds, for each cell, the colour of the box spot that counts
/// there among the first `upto` entities of `w`.
pub open spec fn files_spots(spots: Map<u16, BoxColour>, w: WorldState, upto: int) -> bool {
    forall|x: int, y: int|
        0 <= x < 256 && 0 <= y < 256 ==> (if spots.contains_key(#[trigger] cell_key(x, y) as u16) {
            Some(spots[cell_key(x, y) as u16])
        } else {
            None
        }) == spot_on(w, x, y, upto)
}

/// The colour of the box spot on each cell that has one.
pub(crate) fn box_spots_by_position(world: &World) -> (spots: HashMap<u16, BoxColour>)
    ensures
        files_spots(spots@, world@, world@.entities.len() as int),
{
    let mut spots: HashMap<u16, BoxColour> = HashMap::new();
    let n = world.len();
    let mut id: usize = 0;
    while id < n
        invariant
            id <= n,
            n == world@.entities.len(),
            files_spots(spots@, world@, id as int),
        decreases n - id,
    {
        let ghost filed = spots@;
        match (world.position(id), world.spot_colour(id)) {
            (Some(p), Some(colour)) => {
                spots.insert(key_of(p.x, p.y), colour);
                assert forall|x: int, y: int| 0 <= x < 256 && 0 <= y < 256 implies (
                if spots@.contains_key(#[trigger] cell_key(x, y) as u16) {
                    Some(spots@[cell_key(x, y) as u16])
                } else {
                    None
                }) == spot_on(world@, x, y, id + 1) by {
                    if x != p.x || y != p.y {
                        assert(cell_key(x, y) != cell_key(p.x as int, p.y as int));
                    }
                }
            },
            _ => {
                assert forall|x: int, y: int| 0 <= x < 256 && 0 <= y < 256 implies (
                if spots@.contains_key(#[trigger] cell_key(x, y) as u16) {
                    Some(spots@[cell_key(x, y) as u16])
                } else {
                    None
                }) == spot_on(world@, x, y, id + 1) by {}
            },
        }
        id += 1;
    }
    spots
}

/// The event that `event` gives rise to in `world`, given the box spots
/// of `world` by position.
pub(crate) fn react(
    world: &World,
    spots: &HashMap<u16, BoxColour>,
    event: Event,
) -> (next: Option<Event>)
    requires
        files_spots(spots@, world@, world@.entities.len() as int),
    ensures
        next == reaction(world@, event),
{
    match event {
        Event::EntityMoved(moved) => {
            match (world.box_colour(moved.id), world.position(moved.id)) {
                (Some(colour), Some(p)) => {
                    let k = key_of(p.x, p.y);
                    assert(k == cell_key(p.x as int, p.y as int) as u16);
                    match spots.get(&k) {
                        Some(spot_colour) => Some(
                            Event::BoxPlacedOnSpot(
                                BoxPlacedOnSpot { is_correct_spot: *spot_colour == colour },
                            ),
                        ),
                        None => None,
                    }
                },
                _ => None,
            }
        },
        _ => None,
    }
}

/// The world after one pass over the event queue: the queued events are
/// gone, and the events that they gave rise to are queued in their place.
pub open spec fn events_processed_once(w: WorldState) -> WorldState {
    WorldState { events: reactions(w, w.events), ..w }
}

/// One pass over the event queue: takes every queued event, queues the
/// events that they give rise to, and returns the sounds to play.
pub fn process_events_once(world: &mut World) -> (sounds: Vec<Sound>)
    ensures
        final(world)@ == events_processed_once(old(world)@),
        sounds@ == sounds_of(old(world)@.events),
{
    let spots = box_spots_by_position(world);
    let mut sounds: Vec<Sound> = Vec::new();
    let mut new_events: Vec<Event> = Vec::new();
    let n = world.event_queue.events.len();
    let mut i: usize = 0;
    while i < n
        invariant
            i <= n,
            world@ == old(world)@,
            n == world@.events.len(),
            files_spots(spots@, world@, world@.entities.len() as int),
            sounds@ == sounds_of(world@.events.take(i as int)),
            new_events@ == reactions(world@, world@.events.take(i as int)),
        decreases n - i,
    {
        let event = world.event_queue.events[i];
        proof {
            assert(world@.events.take(i + 1).drop_last() =~= world@.events.take(i as int));
            assert(world@.events.take(i + 1).last() == event);
        }
        match sound_for(event) {
            Some(sound) => sounds.push(sound),
            None => {},
        }
        match react(world, &spots, event) {
            Some(next) => new_events.push(next),
            None => {},
        }
        i += 1;
    }
    proof {
        assert(world@.events.take(n as int) =~= world@.events);
    }
    world.event_queue.events = new_events;
    sounds
}

/// Takes the events of kind `kind` out of the queue and returns them; the
/// others stay queued. Both keep their order.
pub fn take_events(world: &mut World, kind: EventKind) -> (taken: Vec<Event>)
    ensures
        taken@ == select(old(world)@.events, kind, true),
        final(world)@ == (WorldState {
            events: select(old(world)@.events, kind, false),
            ..old(world)@
        }),
{
    let mut taken: Vec<Event> = Vec::new();
    let mut left: Vec<Event> = Vec::new();
    let n = world.event_queue.events.len();
    let mut i: usize = 0;
    while i < n
        invariant
            i <= n,
            world@ == old(world)@,
            n == world@.events.len(),
            taken@ == select(world@.events.take(i as int), kind, true),
            left@ == select(world@.events.take(i as int), kind, false),
        decreases n - i,
    {
        let event = world.event_queue.events[i];
        proof {
            assert(world@.events.take(i + 1).drop_last() =~= world@.events.take(i as int));
            assert(world@.events.take(i + 1).last() == event);
        }
        if event.kind() == kind {
            taken.push(event);
        } else {
            left.push(event);
        }
        i += 1;
    }
    proof {
        assert(world@.events.take(n as int) =~= world@.events);
    }
    world.event_queue.events = left;
    taken
}

/// The sounds that `events` call for, in the order of the events.
pub fn sounds_for_all(events: &Vec<Event>) -> (sounds: Vec<Sound>)
    ensures
        sounds@ == sounds_of(events@),
{
    let mut sounds: Vec<Sound> = Vec::new();
    let mut i: usize = 0;
    while i < events.len()
        invariant
            i <= events.len(),
            sounds@ == sounds_of(events@.take(i as int)),
        decreases events.len() - i,
    {
        proof {
            assert(events@.take(i + 1).drop_last() =~= events@.take(i as int));
            assert(events@.take(i + 1).last() == events@[i as int]);
        }
        match sound_for(events[i]) {
            Some(sound) => sounds.push(sound),
            None => {},
        }
        i += 1;
    }
    proof {
        assert(events@.take(events@.len() as int) =~= events@);
    }
    sounds
}

/// A box that was placed has no further consequence, and neither has a
/// player that hit an obstacle: only a move gives rise to an event, and
/// that event is a placement.
proof fn reactions_end(w: WorldState, events: Seq<Event>)
    ensures
        forall|i: int|
            0 <= i < reactions(w, events).len() ==> (#[trigger] reactions(
                w,
                events,
            )[i]) is BoxPlacedOnSpot,
        (forall|i: int| 0 <= i < events.len() ==> !((#[trigger] events[i]) is EntityMoved))
            ==> reactions(w, events) == Seq::<Event>::empty(),
    decreases events.len(),
{
    if events.len() > 0 {
        reactions_end(w, events.drop_last());
        if forall|i: int| 0 <= i < events.len() ==> !((#[trigger] events[i]) is EntityMoved) {
            assert forall|i: int| 0 <= i < events.drop_last().len() implies !((
            #[trigger] events.drop_last()[i]) is EntityMoved) by {
                assert(events.drop_last()[i] == events[i]);
            }
            assert(!(events.last() is EntityMoved));
        }
    }
}

proof fn spot_on_reads_entities(w: WorldState, v: WorldState, x: int, y: int, upto: int)
    requires
        w.entities == v.entities,
    ensures
        spot_on(w, x, y, upto) == spot_on(v, x, y, upto),
    decreases upto,
{
    if upto > 0 {
        spot_on_reads_entities(w, v, x, y, upto - 1);
    }
}

/// What events give rise to depends on the entities alone.
pub(crate) proof fn reactions_read_entities(w: WorldState, v: WorldState, events: Seq<Event>)
    requires
        w.entities == v.entities,
    ensures
        reactions(w, events) == reactions(v, events),
    decreases events.len(),
{
    if events.len() > 0 {
        reactions_read_entities(w, v, events.drop_last());
        match events.last() {
            Event::EntityMoved(moved) => {
                if moved.id < w.entities.len() {
                    match w.entities[moved.id as int].position {
                        Some(p) => {
                            spot_on_reads_entities(
                                w,
                                v,
                                p.x as int,
                                p.y as int,
                                w.entities.len() as int,
                            );
                        },
                        None => {},
                    }
                }
            },
            _ => {},
        }
    }
}

/// The most passes over the event queue that one tick makes.
pub const MAX_EVENT_PASSES: usize = 8;

/// The world after the event queue has been drained.
pub open spec fn events_drained(w: WorldState) -> WorldState {
    WorldState { events: Seq::empty(), ..w }
}

/// The sounds that draining the event queue of `w` calls for: those of
/// the queued events, then those of the events that they give rise to.
pub open spec fn drain_sounds(w: WorldState) -> Seq<Sound> {
    sounds_of(w.events) + sounds_of(reactions(w, w.events))
}

/// Drains the event queue: passes over it until a pass leaves it empty,
/// which the second pass does at the latest, and returns the sounds to
/// play in their order.
pub fn run_process_events(world: &mut World) -> (sounds: Vec<Sound>)
    ensures
        final(world)@ == events_drained(old(world)@),
        sounds@ == drain_sounds(old(world)@),
{
    let ghost w = world@;
    let mut sounds: Vec<Sound> = Vec::new();
    let mut pass: usize = 0;
    proof {
        reactions_end(w, w.events);
        reactions_end(w, reactions(w, w.events));
        reactions_read_entities(events_processed_once(w), w, reactions(w, w.events));
    }
    while pass < MAX_EVENT_PASSES && world.event_queue.events.len() > 0
        invariant
            pass <= MAX_EVENT_PASSES,
            reactions(events_processed_once(w), reactions(w, w.events)) == Seq::<Event>::empty(),
            pass == 0 ==> world@ == w && sounds@ == Seq::<Sound>::empty(),
            pass == 1 ==> world@ == events_processed_once(w) && sounds@ == sounds_of(w.events),
            pass >= 2 ==> world@ == events_drained(w) && sounds@ == drain_sounds(w),
        decreases MAX_EVENT_PASSES - pass,
    {
        let mut more = process_events_once(world);
        sounds.append(&mut more);
        pass += 1;
    }
    proof {
        if pass == 0 {
            assert(w.events =~= Seq::empty());
            assert(world@ == events_drained(w));
            assert(sounds@ =~= drain_sounds(w));
        } else if pass == 1 {
            assert(world@.events =~= Seq::empty());
            assert(sounds@ =~= drain_sounds(w));
        }
    }
    sounds
}

/// The event phase of a tick.
#[derive(Clone, Copy, Debug)]
pub struct EventSystem {}

impl EventSystem {
    /// Drains the event queue and returns the sounds to play.
    pub fn run(&mut self, world: &mut World) -> (sounds: Vec<Sound>)
        ensures
            final(world)@ == events_drained(old(world)@),
            sounds@ == drain_sounds(old(world)@),
    {
        run_process_events(world)
    }
}

} // verus!
