//! Events that the simulation emits for its consumers.

use vstd::prelude::*;

verus! {

/// Identity of an entity: its index in the world's arena.
pub type EntityId = usize;

/// An entity changed its cell.
#[derive(Clone, Copy, Debug, PartialEq, Eq, Structural)]
pub struct EntityMoved {
    pub id: EntityId,
}

/// A box came to rest on a box spot.
#[derive(Clone, Copy, Debug, PartialEq, Eq, Structural)]
pub struct BoxPlacedOnSpot {
    pub is_correct_spot: bool,
}

/// What the simulation tells its consumers.
#[derive(Clone, Copy, Debug, PartialEq, Eq, Structural)]
pub enum Event {
    /// The player pushed against something that does not move.
    PlayerHitObstacle,
    /// An entity was moved by a push.
    EntityMoved(EntityMoved),
    /// A box was moved onto a box spot.
    BoxPlacedOnSpot(BoxPlacedOnSpot),
}

/// The kind of an event, without what it carries.
#[derive(Clone, Copy, Debug, PartialEq, Eq, Structural)]
pub enum EventKind {
    PlayerHitObstacle,
    EntityMoved,
    BoxPlacedOnSpot,
}

impl Event {
    /// The kind of the event.
    pub open spec fn spec_kind(self) -> EventKind {
        match self {
            Event::PlayerHitObstacle => EventKind::PlayerHitObstacle,
            Event::EntityMoved(_) => EventKind::EntityMoved,
            Event::BoxPlacedOnSpot(_) => EventKind::BoxPlacedOnSpot,
        }
    }

    /// The kind of the event.
    #[verifier::when_used_as_spec(spec_kind)]
    pub fn kind(self) -> (k: EventKind)
        ensures
            k == self.spec_kind(),
    {
        match self {
            Event::PlayerHitObstacle => EventKind::PlayerHitObstacle,
            Event::EntityMoved(_) => EventKind::EntityMoved,
            Event::BoxPlacedOnSpot(_) => EventKind::BoxPlacedOnSpot,
        }
    }
}

/// The events of `events` that are of kind `kind` (or, with `keep` false,
/// those that are not), in their order.
pub open spec fn select(events: Seq<Event>, kind: EventKind, keep: bool) -> Seq<Event>
    decreases events.len(),
{
    if events.len() == 0 {
        Seq::empty()
    } else {
        let before = select(events.drop_last(), kind, keep);
        if (events.last().spec_kind() == kind) == keep {
            before.push(events.last())
        } else {
            before
        }
    }
}

} // verus!
