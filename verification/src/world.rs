//! The arena that owns every entity and the resources of one game.

use crate::components::{
    Box, BoxColour, BoxSpot, Immovable, Movable, Player, Position, Renderable, Wall,
};
use crate::events::{EntityId, Event};
use crate::resources::{
    duration_millis, Direction, EventQueue, Gameplay, GameplayState, InputQueue, Time,
};
use vstd::prelude::*;

verus! {

/// The components that one entity owns; `None` where it lacks one.
#[derive(Debug)]
pub struct Components {
    pub position: Option<Position>,
    pub renderable: Option<Renderable>,
    pub player: Option<Player>,
    pub wall: Option<Wall>,
    pub the_box: Option<Box>,
    pub box_spot: Option<BoxSpot>,
    pub movable: Option<Movable>,
    pub immovable: Option<Immovable>,
}

/// What the simulation knows of one entity.
pub struct EntityState {
    pub position: Option<Position>,
    /// The image paths, where the entity is drawn.
    pub renderable: Option<Seq<Seq<char>>>,
    pub player: bool,
    pub wall: bool,
    /// The colour of the box, where the entity is one.
    pub box_colour: Option<BoxColour>,
    /// The colour of the box spot, where the entity is one.
    pub spot_colour: Option<BoxColour>,
    pub movable: bool,
    pub immovable: bool,
}

impl View for Components {
    type V = EntityState;

    open spec fn view(&self) -> EntityState {
        EntityState {
            position: self.position,
            renderable: match self.renderable {
                Some(r) => Some(r@),
                None => None,
            },
            player: self.player is Some,
            wall: self.wall is Some,
            box_colour: match self.the_box {
                Some(b) => Some(b.colour),
                None => None,
            },
            spot_colour: match self.box_spot {
                Some(s) => Some(s.colour),
                None => None,
            },
            movable: self.movable is Some,
            immovable: self.immovable is Some,
        }
    }
}

impl Components {
    /// An entity without any component.
    pub fn empty() -> (c: Self)
        ensures
            c@ == (EntityState {
                position: None,
                renderable: None,
                player: false,
                wall: false,
                box_colour: None,
                spot_colour: None,
                movable: false,
                immovable: false,
            }),
    {
        Components {
            position: None,
            renderable: None,
            player: None,
            wall: None,
            the_box: None,
            box_spot: None,
            movable: None,
            immovable: None,
        }
    }
}

/// The state of a game as the simulation sees it.
pub struct WorldState {
    /// The entities, indexed by their identity.
    pub entities: Seq<EntityState>,
    pub gameplay: Gameplay,
    /// The queued events, oldest first.
    pub events: Seq<Event>,
    /// The queued input; the last one is served first.
    pub keys: Seq<Direction>,
    /// The whole milliseconds of game time.
    pub millis: nat,
}

impl WorldState {
    /// The state in which a game starts: no entities, phase `Playing`, no
    /// move made, nothing queued, no time passed.
    pub open spec fn start() -> WorldState {
        WorldState {
            entities: Seq::empty(),
            gameplay: Gameplay { state: GameplayState::Playing, moves_count: 0 },
            events: Seq::empty(),
            keys: Seq::empty(),
            millis: 0,
        }
    }

    /// Entity `e` exists and stands on cell `(x, y)`.
    pub open spec fn occupies(self, e: int, x: int, y: int) -> bool {
        &&& 0 <= e < self.entities.len()
        &&& self.entities[e].position matches Some(p)
        &&& p.x == x
        &&& p.y == y
    }

    /// Entity `e` is a movable on cell `(x, y)`.
    pub open spec fn movable_at(self, e: int, x: int, y: int) -> bool {
        self.occupies(e, x, y) && self.entities[e].movable
    }

    /// Entity `e` is an immovable on cell `(x, y)`.
    pub open spec fn immovable_at(self, e: int, x: int, y: int) -> bool {
        self.occupies(e, x, y) && self.entities[e].immovable
    }

    /// Some movable stands on cell `(x, y)`.
    pub open spec fn has_movable(self, x: int, y: int) -> bool {
        exists|e: int| self.movable_at(e, x, y)
    }

    /// Some immovable stands on cell `(x, y)`.
    pub open spec fn has_immovable(self, x: int, y: int) -> bool {
        exists|e: int| self.immovable_at(e, x, y)
    }

    /// A movable on cell `(x, y)`; the only one where nothing overlaps.
    pub open spec fn the_movable(self, x: int, y: int) -> int {
        choose|e: int| self.movable_at(e, x, y)
    }

    /// Entities `a` and `b` have positions on the same cell.
    pub open spec fn share_cell(self, a: int, b: int) -> bool {
        &&& self.entities[a].position matches Some(p)
        &&& self.entities[b].position matches Some(q)
        &&& p.x == q.x
        &&& p.y == q.y
    }

    /// No two movables share a cell.
    pub open spec fn movables_apart(self) -> bool {
        forall|a: int, b: int|
            #![trigger self.entities[a], self.entities[b]]
            0 <= a < b < self.entities.len() && self.share_cell(a, b) ==> !(
            self.entities[a].movable && self.entities[b].movable)
    }

    /// No two immovables share a cell.
    pub open spec fn immovables_apart(self) -> bool {
        forall|a: int, b: int|
            #![trigger self.entities[a], self.entities[b]]
            0 <= a < b < self.entities.len() && self.share_cell(a, b) ==> !(
            self.entities[a].immovable && self.entities[b].immovable)
    }

    /// No two movables share a cell, and no two immovables do.
    pub open spec fn no_overlaps(self) -> bool {
        self.movables_apart() && self.immovables_apart()
    }

    /// No entity is both movable and immovable.
    pub open spec fn tags_exclusive(self) -> bool {
        forall|e: int|
            0 <= e < self.entities.len() ==> !((#[trigger] self.entities[e]).movable
                && self.entities[e].immovable)
    }

    /// The invariant of the grid: a cell holds at most one movable and at
    /// most one immovable, and they are different entities.
    pub open spec fn well_formed(self) -> bool {
        self.no_overlaps() && self.tags_exclusive()
    }

    /// Every renderable has at least one image.
    pub open spec fn renderables_valid(self) -> bool {
        forall|e: int|
            0 <= e < self.entities.len() ==> (#[trigger] self.entities[e].renderable matches Some(
                paths,
            ) ==> paths.len() > 0)
    }
}

/// A new entity keeps the grid well formed if it is not both movable and
/// immovable and joins no entity of its kind on its cell.
pub proof fn spawn_keeps_well_formed(w: WorldState, s: EntityState)
    requires
        w.well_formed(),
        !(s.movable && s.immovable),
        s.movable ==> (s.position matches Some(p) ==> !w.has_movable(p.x as int, p.y as int)),
        s.immovable ==> (s.position matches Some(p) ==> !w.has_immovable(p.x as int, p.y as int)),
    ensures
        (WorldState { entities: w.entities.push(s), ..w }).well_formed(),
{
    let v = WorldState { entities: w.entities.push(s), ..w };
    let n = w.entities.len() as int;
    assert forall|a: int, b: int|
        #![trigger v.entities[a], v.entities[b]]
        0 <= a < b < v.entities.len() && v.share_cell(a, b) implies !(v.entities[a].movable
        && v.entities[b].movable) by {
        if b < n {
            let _ = (w.entities[a], w.entities[b]);
            assert(w.share_cell(a, b));
        } else {
            let p = s.position->0;
            if w.entities[a].movable {
                assert(w.movable_at(a, p.x as int, p.y as int));
            }
        }
    }
    assert forall|a: int, b: int|
        #![trigger v.entities[a], v.entities[b]]
        0 <= a < b < v.entities.len() && v.share_cell(a, b) implies !(v.entities[a].immovable
        && v.entities[b].immovable) by {
        if b < n {
            let _ = (w.entities[a], w.entities[b]);
            assert(w.share_cell(a, b));
        } else {
            let p = s.position->0;
            if w.entities[a].immovable {
                assert(w.immovable_at(a, p.x as int, p.y as int));
            }
        }
    }
    assert forall|e: int| 0 <= e < v.entities.len() implies !((#[trigger] v.entities[e]).movable
        && v.entities[e].immovable) by {
        if e < n {
            let _ = w.entities[e];
        }
    }
}

/// The entities and resources of one game.
#[derive(Debug)]
pub struct World {
    /// The entities, indexed by their identity.
    pub entities: Vec<Components>,
    pub gameplay: Gameplay,
    pub time: Time,
    pub event_queue: EventQueue,
    pub input_queue: InputQueue,
}

impl View for World {
    type V = WorldState;

    open spec fn view(&self) -> WorldState {
        WorldState {
            entities: Seq::new(self.entities@.len(), |e: int| self.entities@[e]@),
            gameplay: self.gameplay,
            events: self.event_queue.events@,
            keys: self.input_queue.keys_pressed@,
            millis: duration_millis(self.time.delta),
        }
    }
}

impl World {
    /// A world without entities, in phase `Playing`, with no move made and
    /// nothing queued.
    pub fn new() -> (world: Self)
        ensures
            world@ == WorldState::start(),
    {
        let world = World {
            entities: Vec::new(),
            gameplay: Gameplay::default(),
            time: Time::default(),
            event_queue: EventQueue::default(),
            input_queue: InputQueue::default(),
        };
        assert(world@.entities =~= Seq::empty());
        world
    }

    /// The number of entities.
    pub fn len(&self) -> (n: usize)
        ensures
            n == self@.entities.len(),
    {
        self.entities.len()
    }

    /// Adds an entity with the given components and returns its identity.
    pub fn spawn(&mut self, components: Components) -> (id: EntityId)
        ensures
            id == old(self)@.entities.len(),
            final(self)@ == (WorldState {
                entities: old(self)@.entities.push(components@),
                ..old(self)@
            }),
    {
        let id = self.entities.len();
        self.entities.push(components);
        assert(self@.entities =~= old(self)@.entities.push(components@));
        id
    }

    /// The position of entity `id`, if it exists and has one.
    pub fn position(&self, id: EntityId) -> (p: Option<Position>)
        ensures
            p == (if id < self@.entities.len() {
                self@.entities[id as int].position
            } else {
                None
            }),
    {
        if id < self.entities.len() {
            self.entities[id].position
        } else {
            None
        }
    }

    /// Whether entity `id` exists and is a player.
    pub fn is_player(&self, id: EntityId) -> (b: bool)
        ensures
            b == (id < self@.entities.len() && self@.entities[id as int].player),
    {
        id < self.entities.len() && self.entities[id].player.is_some()
    }

    /// Whether entity `id` exists and is movable.
    pub fn is_movable(&self, id: EntityId) -> (b: bool)
        ensures
            b == (id < self@.entities.len() && self@.entities[id as int].movable),
    {
        id < self.entities.len() && self.entities[id].movable.is_some()
    }

    /// Whether entity `id` exists and is immovable.
    pub fn is_immovable(&self, id: EntityId) -> (b: bool)
        ensures
            b == (id < self@.entities.len() && self@.entities[id as int].immovable),
    {
        id < self.entities.len() && self.entities[id].immovable.is_some()
    }

    /// The colour of entity `id`, if it exists and is a box.
    pub fn box_colour(&self, id: EntityId) -> (c: Option<BoxColour>)
        ensures
            c == (if id < self@.entities.len() {
                self@.entities[id as int].box_colour
            } else {
                None
            }),
    {
        if id < self.entities.len() {
            match self.entities[id].the_box {
                Some(b) => Some(b.colour),
                None => None,
            }
        } else {
            None
        }
    }

    /// The colour of entity `id`, if it exists and is a box spot.
    pub fn spot_colour(&self, id: EntityId) -> (c: Option<BoxColour>)
        ensures
            c == (if id < self@.entities.len() {
                self@.entities[id as int].spot_colour
            } else {
                None
            }),
    {
        if id < self.entities.len() {
            match self.entities[id].box_spot {
                Some(s) => Some(s.colour),
                None => None,
            }
        } else {
            None
        }
    }

    /// Whether no two movables share a cell (or, with `movables` false, no
    /// two immovables).
    fn kind_is_apart(&self, movables: bool) -> (ok: bool)
        ensures
            ok == (if movables {
                self@.movables_apart()
            } else {
                self@.immovables_apart()
            }),
    {
        let ghost w = self@;
        let n = self.entities.len();
        let mut a: usize = 0;
        while a < n
            invariant
                a <= n,
                n == w.entities.len(),
                w == self@,
                forall|i: int, j: int|
                    #![trigger w.entities[i], w.entities[j]]
                    0 <= i < j < n && i < a && w.share_cell(i, j) ==> !(if movables {
                        w.entities[i].movable && w.entities[j].movable
                    } else {
                        w.entities[i].immovable && w.entities[j].immovable
                    }),
            decreases n - a,
        {
            let first = &self.entities[a];
            let first_is = if movables {
                first.movable.is_some()
            } else {
                first.immovable.is_some()
            };
            match first.position {
                Some(p) => {
                    let mut b: usize = a + 1;
                    while b < n && first_is
                        invariant
                            a < b <= n,
                            n == w.entities.len(),
                            w == self@,
                            first == self.entities@[a as int],
                            first.position == Some(p),
                            first_is == (if movables {
                                w.entities[a as int].movable
                            } else {
                                w.entities[a as int].immovable
                            }),
                            forall|j: int|
                                #![trigger w.entities[j]]
                                a < j < b && w.share_cell(a as int, j) ==> !(if movables {
                                    w.entities[a as int].movable && w.entities[j].movable
                                } else {
                                    w.entities[a as int].immovable && w.entities[j].immovable
                                }),
                        decreases n - b,
                    {
                        let second = &self.entities[b];
                        let second_is = if movables {
                            second.movable.is_some()
                        } else {
                            second.immovable.is_some()
                        };
                        match second.position {
                            Some(q) => {
                                if p.x == q.x && p.y == q.y && second_is {
                                    assert(w.share_cell(a as int, b as int));
                                    let ghost _e = (w.entities[a as int], w.entities[b as int]);
                                    return false;
                                }
                            },
                            None => {},
                        }
                        b += 1;
                    }
                },
                None => {},
            }
            a += 1;
        }
        true
    }

    /// Whether no two movables share a cell.
    pub fn has_movables_apart(&self) -> (ok: bool)
        ensures
            ok == self@.movables_apart(),
    {
        self.kind_is_apart(true)
    }

    /// Whether no two movables share a cell, no two immovables do, and no
    /// entity is both.
    pub fn is_well_formed(&self) -> (ok: bool)
        ensures
            ok == self@.well_formed(),
    {
        if !self.kind_is_apart(true) || !self.kind_is_apart(false) {
            return false;
        }
        let n = self.entities.len();
        let mut e: usize = 0;
        while e < n
            invariant
                e <= n,
                n == self@.entities.len(),
                forall|k: int|
                    0 <= k < e ==> !((#[trigger] self@.entities[k]).movable
                        && self@.entities[k].immovable),
            decreases n - e,
        {
            if self.entities[e].movable.is_some() && self.entities[e].immovable.is_some() {
                let ghost _e = self@.entities[e as int];
                return false;
            }
            e += 1;
        }
        true
    }

    /// Whether every renderable has at least one image.
    pub fn has_valid_renderables(&self) -> (ok: bool)
        ensures
            ok == self@.renderables_valid(),
    {
        let n = self.entities.len();
        let mut e: usize = 0;
        while e < n
            invariant
                e <= n,
                n == self@.entities.len(),
                forall|k: int|
                    0 <= k < e ==> (#[trigger] self@.entities[k].renderable matches Some(paths)
                        ==> paths.len() > 0),
            decreases n - e,
        {
            match &self.entities[e].renderable {
                Some(renderable) => {
                    if renderable.frames() == 0 {
                        let ghost _r = self@.entities[e as int].renderable;
                        return false;
                    }
                },
                None => {},
            }
            e += 1;
        }
        true
    }

    /// Puts entity `id` on `position`; an entity that does not exist is
    /// left alone.
    pub fn set_position(&mut self, id: EntityId, position: Position)
        ensures
            final(self)@ == (if id < old(self)@.entities.len() {
                WorldState {
                    entities: old(self)@.entities.update(
                        id as int,
                        EntityState { position: Some(position), ..old(self)@.entities[id as int] },
                    ),
                    ..old(self)@
                }
            } else {
                old(self)@
            }),
    {
        if id < self.entities.len() {
            self.entities[id].position = Some(position);
            assert(self@.entities =~= old(self)@.entities.update(
                id as int,
                EntityState { position: Some(position), ..old(self)@.entities[id as int] },
            ));
        }
    }
}

/// Puts the resources of `world` back to where a new game starts: phase
/// `Playing`, no move made, nothing queued, no time passed. The entities
/// stay.
pub fn register_resources(world: &mut World)
    ensures
        final(world)@ == (WorldState { entities: old(world)@.entities, ..WorldState::start() }),
{
    world.gameplay = Gameplay::default();
    world.time = Time::default();
    world.event_queue = EventQueue::default();
    world.input_queue = InputQueue::default();
}

} // verus!
