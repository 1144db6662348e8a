//! The kinds of entity that a level is made of.

use crate::components::{
    Box, BoxColour, BoxSpot, Immovable, Movable, Player, Position, Renderable, Wall,
};
use crate::events::EntityId;
use crate::world::{spawn_keeps_well_formed, Components, EntityState, World, WorldState};
use vstd::prelude::*;

verus! {

/// `position` moved to layer `z`.
pub open spec fn on_layer(position: Position, z: u8) -> Position {
    Position { z, ..position }
}

/// An entity on `position` that owns nothing else.
pub open spec fn bare(position: Position) -> EntityState {
    EntityState {
        position: Some(position),
        renderable: None,
        player: false,
        wall: false,
        box_colour: None,
        spot_colour: None,
        movable: false,
        immovable: false,
    }
}

/// A wall: an immovable on layer 10.
pub open spec fn wall_on(position: Position) -> EntityState {
    EntityState {
        renderable: Some(seq!["/images/wall.png"@]),
        wall: true,
        immovable: true,
        ..bare(on_layer(position, 10))
    }
}

/// A floor tile, on layer 5.
pub open spec fn floor_on(position: Position) -> EntityState {
    EntityState { renderable: Some(seq!["/images/floor.png"@]), ..bare(on_layer(position, 5)) }
}

/// A box of colour `colour`: a movable on layer 10 with two frames.
pub open spec fn box_on(position: Position, colour: BoxColour) -> EntityState {
    EntityState {
        renderable: Some(
            seq![
                "/images/box_"@ + colour.name() + "_1.png"@,
                "/images/box_"@ + colour.name() + "_2.png"@,
            ],
        ),
        box_colour: Some(colour),
        movable: true,
        ..bare(on_layer(position, 10))
    }
}

/// A box spot of colour `colour`, on layer 9.
pub open spec fn box_spot_on(position: Position, colour: BoxColour) -> EntityState {
    EntityState {
        renderable: Some(seq!["/images/box_spot_"@ + colour.name() + ".png"@]),
        spot_colour: Some(colour),
        ..bare(on_layer(position, 9))
    }
}

/// The player: a movable on layer 10 with three frames.
pub open spec fn player_on(position: Position) -> EntityState {
    EntityState {
        renderable: Some(
            seq!["/images/player_1.png"@, "/images/player_2.png"@, "/images/player_3.png"@],
        ),
        player: true,
        movable: true,
        ..bare(on_layer(position, 10))
    }
}

/// `w` with one more entity.
pub open spec fn with_entity(w: WorldState, s: EntityState) -> WorldState {
    WorldState { entities: w.entities.push(s), ..w }
}

/// Adds a wall on the cell of `position`.
pub fn create_wall(world: &mut World, position: Position) -> (id: EntityId)
    ensures
        id == old(world)@.entities.len(),
        final(world)@ == with_entity(old(world)@, wall_on(position)),
        old(world)@.well_formed() && !old(world)@.has_immovable(
            position.x as int,
            position.y as int,
        ) ==> final(world)@.well_formed(),
{
    proof {
        if world@.well_formed() && !world@.has_immovable(position.x as int, position.y as int) {
            spawn_keeps_well_formed(world@, wall_on(position));
        }
    }
    world.spawn(
        Components {
            position: Some(Position { z: 10, ..position }),
            renderable: Some(Renderable::new_static("/images/wall.png")),
            wall: Some(Wall {  }),
            immovable: Some(Immovable),
            ..Components::empty()
        },
    )
}

/// Adds a floor tile on the cell of `position`.
pub fn create_floor(world: &mut World, position: Position) -> (id: EntityId)
    ensures
        id == old(world)@.entities.len(),
        final(world)@ == with_entity(old(world)@, floor_on(position)),
        old(world)@.well_formed() ==> final(world)@.well_formed(),
{
    proof {
        if world@.well_formed() {
            spawn_keeps_well_formed(world@, floor_on(position));
        }
    }
    world.spawn(
        Components {
            position: Some(Position { z: 5, ..position }),
            renderable: Some(Renderable::new_static("/images/floor.png")),
            ..Components::empty()
        },
    )
}

/// Adds a box of colour `colour` on the cell of `position`.
pub fn create_box(world: &mut World, position: Position, colour: BoxColour) -> (id: EntityId)
    ensures
        id == old(world)@.entities.len(),
        final(world)@ == with_entity(old(world)@, box_on(position, colour)),
        old(world)@.well_formed() && !old(world)@.has_movable(
            position.x as int,
            position.y as int,
        ) ==> final(world)@.well_formed(),
{
    proof {
        if world@.well_formed() && !world@.has_movable(position.x as int, position.y as int) {
            spawn_keeps_well_formed(world@, box_on(position, colour));
        }
    }
    let name = colour.to_string();
    let first = String::from_str("/images/box_").concat(name.as_str()).concat("_1.png");
    let second = String::from_str("/images/box_").concat(name.as_str()).concat("_2.png");
    let renderable = Renderable::new_animated(vec![first.as_str(), second.as_str()]);
    assert(renderable@ =~= box_on(position, colour).renderable->0);
    world.spawn(
        Components {
            position: Some(Position { z: 10, ..position }),
            renderable: Some(renderable),
            the_box: Some(Box { colour }),
            movable: Some(Movable),
            ..Components::empty()
        },
    )
}

/// Adds a box spot of colour `colour` on the cell of `position`.
pub fn create_box_spot(world: &mut World, position: Position, colour: BoxColour) -> (id: EntityId)
    ensures
        id == old(world)@.entities.len(),
        final(world)@ == with_entity(old(world)@, box_spot_on(position, colour)),
        old(world)@.well_formed() ==> final(world)@.well_formed(),
{
    proof {
        if world@.well_formed() {
            spawn_keeps_well_formed(world@, box_spot_on(position, colour));
        }
    }
    let name = colour.to_string();
    let path = String::from_str("/images/box_spot_").concat(name.as_str()).concat(".png");
    world.spawn(
        Components {
            position: Some(Position { z: 9, ..position }),
            renderable: Some(Renderable::new_static(path.as_str())),
            box_spot: Some(BoxSpot { colour }),
            ..Components::empty()
        },
    )
}

/// Adds a player on the cell of `position`.
pub fn create_player(world: &mut World, position: Position) -> (id: EntityId)
    ensures
        id == old(world)@.entities.len(),
        final(world)@ == with_entity(old(world)@, player_on(position)),
        old(world)@.well_formed() && !old(world)@.has_movable(
            position.x as int,
            position.y as int,
        ) ==> final(world)@.well_formed(),
{
    proof {
        if world@.well_formed() && !world@.has_movable(position.x as int, position.y as int) {
            spawn_keeps_well_formed(world@, player_on(position));
        }
    }
    let renderable = Renderable::new_animated(
        vec!["/images/player_1.png", "/images/player_2.png", "/images/player_3.png"],
    );
    assert(renderable@ =~= player_on(position).renderable->0);
    world.spawn(
        Components {
            position: Some(Position { z: 10, ..position }),
            renderable: Some(renderable),
            player: Some(Player {  }),
            movable: Some(Movable),
            ..Components::empty()
        },
    )
}

} // verus!
