use rust_sokoban::components::{BoxColour, Position};
use rust_sokoban::entities::{create_box, create_box_spot, create_player};
use rust_sokoban::events::{BoxPlacedOnSpot, EntityMoved, Event, EventKind};
use rust_sokoban::systems::box_placed_on_spot_event_handler_system;
use rust_sokoban::systems::entity_moved_event_handler_system;
use rust_sokoban::systems::events::{
    process_events_once, run_process_events, sound_for, sounds_for_all, take_events, EventSystem,
    Sound, MAX_EVENT_PASSES,
};
use rust_sokoban::systems::player_hit_obstacle_event_handler_system;
use rust_sokoban::world::World;

fn at(x: u8, y: u8) -> Position {
    Position { x, y, z: 0 }
}

fn moved(id: usize) -> Event {
    Event::EntityMoved(EntityMoved { id })
}

fn placed(is_correct_spot: bool) -> Event {
    Event::BoxPlacedOnSpot(BoxPlacedOnSpot { is_correct_spot })
}

/// A red box on a red spot, a blue box on a red spot, a red box on no
/// spot, and a player on a spot.
fn sample() -> (World, usize, usize, usize, usize) {
    let mut world = World::new();
    create_box_spot(&mut world, at(1, 1), BoxColour::Red);
    create_box_spot(&mut world, at(2, 2), BoxColour::Red);
    create_box_spot(&mut world, at(4, 4), BoxColour::Blue);
    let right = create_box(&mut world, at(1, 1), BoxColour::Red);
    let wrong = create_box(&mut world, at(2, 2), BoxColour::Blue);
    let off = create_box(&mut world, at(3, 3), BoxColour::Red);
    let player = create_player(&mut world, at(4, 4));
    (world, right, wrong, off, player)
}

#[test]
fn each_event_has_its_sound() {
    assert_eq!(sound_for(Event::PlayerHitObstacle), Some(Sound::Wall));
    assert_eq!(sound_for(placed(true)), Some(Sound::Correct));
    assert_eq!(sound_for(placed(false)), Some(Sound::Incorrect));
    assert_eq!(sound_for(moved(3)), None);
    assert_eq!(
        sounds_for_all(&vec![placed(false), moved(1), Event::PlayerHitObstacle, placed(true)]),
        vec![Sound::Incorrect, Sound::Wall, Sound::Correct]
    );
}

#[test]
fn sounds_have_names_and_files() {
    assert_eq!(Sound::Wall.name(), "wall");
    assert_eq!(Sound::Correct.name(), "correct");
    assert_eq!(Sound::Incorrect.name(), "incorrect");
    assert_eq!(Sound::Wall.path(), "/sounds/wall.wav");
    assert_eq!(Sound::Correct.path(), "/sounds/correct.wav");
    assert_eq!(Sound::Incorrect.path(), "/sounds/incorrect.wav");
}

#[test]
fn events_have_kinds() {
    assert_eq!(Event::PlayerHitObstacle.kind(), EventKind::PlayerHitObstacle);
    assert_eq!(moved(0).kind(), EventKind::EntityMoved);
    assert_eq!(placed(true).kind(), EventKind::BoxPlacedOnSpot);
}

#[test]
fn one_pass_replaces_the_queue_by_what_the_events_give_rise_to() {
    let (mut world, right, wrong, off, player) = sample();
    world.event_queue.events = vec![
        moved(wrong),
        Event::PlayerHitObstacle,
        moved(off),
        moved(player),
        moved(right),
        placed(true),
        moved(1000),
    ];
    let sounds = process_events_once(&mut world);
    assert_eq!(sounds, vec![Sound::Wall, Sound::Correct]);
    assert_eq!(world.event_queue.events, vec![placed(false), placed(true)]);
    let sounds = process_events_once(&mut world);
    assert_eq!(sounds, vec![Sound::Incorrect, Sound::Correct]);
    assert!(world.event_queue.events.is_empty());
}

#[test]
fn draining_plays_the_sounds_of_both_passes_and_empties_the_queue() {
    let (mut world, right, wrong, _, _) = sample();
    world.event_queue.events = vec![moved(right), Event::PlayerHitObstacle, moved(wrong)];
    assert_eq!(
        run_process_events(&mut world),
        vec![Sound::Wall, Sound::Correct, Sound::Incorrect]
    );
    assert!(world.event_queue.events.is_empty());
    assert_eq!(run_process_events(&mut world), vec![]);

    world.event_queue.events = vec![placed(false)];
    let mut system = EventSystem {};
    assert_eq!(system.run(&mut world), vec![Sound::Incorrect]);
    assert!(world.event_queue.events.is_empty());
    assert!(MAX_EVENT_PASSES >= 2);
}

#[test]
fn where_spots_share_a_cell_the_youngest_counts() {
    let mut world = World::new();
    create_box_spot(&mut world, at(1, 1), BoxColour::Red);
    create_box_spot(&mut world, at(1, 1), BoxColour::Blue);
    let the_box = create_box(&mut world, at(1, 1), BoxColour::Red);
    world.event_queue.events = vec![moved(the_box)];
    assert_eq!(run_process_events(&mut world), vec![Sound::Incorrect]);
}

#[test]
fn taking_events_of_a_kind_leaves_the_others_in_order() {
    let mut world = World::new();
    world.event_queue.events = vec![
        moved(1),
        Event::PlayerHitObstacle,
        placed(true),
        moved(2),
        Event::PlayerHitObstacle,
    ];
    assert_eq!(
        take_events(&mut world, EventKind::EntityMoved),
        vec![moved(1), moved(2)]
    );
    assert_eq!(
        world.event_queue.events,
        vec![Event::PlayerHitObstacle, placed(true), Event::PlayerHitObstacle]
    );
    assert_eq!(take_events(&mut world, EventKind::EntityMoved), vec![]);
    assert_eq!(world.event_queue.events.len(), 3);
}

#[test]
fn each_handler_consumes_its_own_kind() {
    let (mut world, right, wrong, off, _) = sample();
    let queued = vec![
        placed(false),
        moved(right),
        Event::PlayerHitObstacle,
        moved(off),
        moved(wrong),
        placed(true),
    ];
    world.event_queue.events = queued.clone();

    let mut on_placed = box_placed_on_spot_event_handler_system::EventHandlerSystem {};
    assert_eq!(on_placed.run(&mut world), vec![Sound::Incorrect, Sound::Correct]);
    assert_eq!(
        world.event_queue.events,
        vec![moved(right), Event::PlayerHitObstacle, moved(off), moved(wrong)]
    );

    let mut on_hit = player_hit_obstacle_event_handler_system::EventHandlerSystem {};
    assert_eq!(on_hit.run(&mut world), vec![Sound::Wall]);
    assert_eq!(world.event_queue.events, vec![moved(right), moved(off), moved(wrong)]);

    world.event_queue.events.insert(1, Event::PlayerHitObstacle);
    let mut on_moved = entity_moved_event_handler_system::EventHandlerSystem {};
    on_moved.run(&mut world);
    assert_eq!(
        world.event_queue.events,
        vec![Event::PlayerHitObstacle, placed(true), placed(false)]
    );
}
