use rust_sokoban::components::{BoxColour, Immovable, Movable, Player, Position};
use rust_sokoban::entities::{create_box, create_floor, create_player, create_wall};
use rust_sokoban::events::{EntityMoved, Event};
use rust_sokoban::map::load_map;
use rust_sokoban::resources::Direction;
use rust_sokoban::systems::input::{count_players, push_player, run_input, InputSystem};
use rust_sokoban::systems::movement::{apply_moves, step_position};
use rust_sokoban::systems::occupancy::OccupancyIndex;
use rust_sokoban::systems::push::{next_cell, resolve_push};
use rust_sokoban::world::{Components, World};

fn at(x: u8, y: u8) -> Position {
    Position { x, y, z: 0 }
}

fn cell(world: &World, id: usize) -> (u8, u8) {
    let p = world.position(id).unwrap();
    (p.x, p.y)
}

fn cells(world: &World) -> Vec<Option<(u8, u8)>> {
    (0..world.len()).map(|id| world.position(id).map(|p| (p.x, p.y))).collect()
}

fn moved(id: usize) -> Event {
    Event::EntityMoved(EntityMoved { id })
}

#[test]
fn player_pushes_box_until_the_wall_blocks() {
    let mut world = World::new();
    for x in 0..5 {
        create_floor(&mut world, at(x, 0));
    }
    let player = create_player(&mut world, at(0, 0));
    let the_box = create_box(&mut world, at(2, 0), BoxColour::Blue);
    let wall = create_wall(&mut world, at(4, 0));

    run_input(&mut world, Direction::Right);
    assert_eq!(cell(&world, player), (1, 0));
    assert_eq!(cell(&world, the_box), (2, 0));
    assert_eq!(world.gameplay.moves_count, 1);
    assert_eq!(world.event_queue.events, vec![moved(player)]);

    run_input(&mut world, Direction::Right);
    assert_eq!(cell(&world, player), (2, 0));
    assert_eq!(cell(&world, the_box), (3, 0));
    assert_eq!(world.gameplay.moves_count, 2);
    assert_eq!(
        world.event_queue.events,
        vec![moved(player), moved(player), moved(the_box)]
    );

    world.event_queue.events.clear();
    run_input(&mut world, Direction::Right);
    assert_eq!(cell(&world, player), (2, 0));
    assert_eq!(cell(&world, the_box), (3, 0));
    assert_eq!(cell(&world, wall), (4, 0));
    assert_eq!(world.gameplay.moves_count, 2);
    assert_eq!(world.event_queue.events, vec![Event::PlayerHitObstacle]);
}

#[test]
fn one_row_level_plays_the_same_when_loaded_from_text() {
    let mut world = World::new();
    load_map(&mut world, "P . BB . W".to_string());
    // floor, player, floor, floor, box, floor, floor, wall
    let (player, the_box, wall) = (1, 4, 7);
    assert!(world.is_player(player));
    assert_eq!(world.box_colour(the_box), Some(BoxColour::Blue));
    assert!(world.is_immovable(wall));

    run_input(&mut world, Direction::Right);
    run_input(&mut world, Direction::Right);
    let before = cells(&world);
    assert_eq!(cell(&world, player), (2, 0));
    assert_eq!(cell(&world, the_box), (3, 0));
    world.event_queue.events.clear();
    run_input(&mut world, Direction::Right);
    assert_eq!(cells(&world), before);
    assert_eq!(world.event_queue.events, vec![Event::PlayerHitObstacle]);
    assert_eq!(world.gameplay.moves_count, 2);
}

#[test]
fn pushing_into_a_wall_changes_no_position_and_queues_one_event() {
    for direction in [Direction::Up, Direction::Down, Direction::Left, Direction::Right] {
        let mut world = World::new();
        create_player(&mut world, at(5, 5));
        create_wall(&mut world, at(5, 4));
        create_wall(&mut world, at(5, 6));
        create_wall(&mut world, at(4, 5));
        create_wall(&mut world, at(6, 5));
        create_box(&mut world, at(9, 9), BoxColour::Red);
        let before = cells(&world);
        run_input(&mut world, direction);
        assert_eq!(cells(&world), before);
        assert_eq!(world.event_queue.events, vec![Event::PlayerHitObstacle]);
        assert_eq!(world.gameplay.moves_count, 0);
    }
}

#[test]
fn a_row_of_boxes_with_room_behind_moves_as_one_move() {
    let mut world = World::new();
    let player = create_player(&mut world, at(3, 7));
    let a = create_box(&mut world, at(3, 6), BoxColour::Red);
    let b = create_box(&mut world, at(3, 5), BoxColour::Blue);
    let c = create_box(&mut world, at(3, 4), BoxColour::Red);
    let far = create_box(&mut world, at(3, 2), BoxColour::Blue);
    let wall = create_wall(&mut world, at(3, 1));
    run_input(&mut world, Direction::Up);
    assert_eq!(cell(&world, player), (3, 6));
    assert_eq!(cell(&world, a), (3, 5));
    assert_eq!(cell(&world, b), (3, 4));
    assert_eq!(cell(&world, c), (3, 3));
    assert_eq!(cell(&world, far), (3, 2));
    assert_eq!(cell(&world, wall), (3, 1));
    assert_eq!(world.gameplay.moves_count, 1);
    assert_eq!(
        world.event_queue.events,
        vec![moved(player), moved(a), moved(b), moved(c)]
    );
    assert!(world.is_well_formed());
}

#[test]
fn a_row_of_boxes_against_a_wall_does_not_move() {
    let mut world = World::new();
    create_player(&mut world, at(1, 1));
    create_box(&mut world, at(2, 1), BoxColour::Red);
    create_box(&mut world, at(3, 1), BoxColour::Blue);
    create_wall(&mut world, at(4, 1));
    create_floor(&mut world, at(5, 1));
    let before = cells(&world);
    run_input(&mut world, Direction::Right);
    assert_eq!(cells(&world), before);
    assert_eq!(world.gameplay.moves_count, 0);
    assert_eq!(world.event_queue.events, vec![Event::PlayerHitObstacle]);
}

#[test]
fn each_direction_steps_one_cell() {
    let p = Position { x: 10, y: 20, z: 7 };
    assert_eq!(step_position(p, Direction::Up), Position { x: 10, y: 19, z: 7 });
    assert_eq!(step_position(p, Direction::Down), Position { x: 10, y: 21, z: 7 });
    assert_eq!(step_position(p, Direction::Left), Position { x: 9, y: 20, z: 7 });
    assert_eq!(step_position(p, Direction::Right), Position { x: 11, y: 20, z: 7 });
    assert_eq!(next_cell(10, 20, Direction::Up), Some((10, 19)));
    assert_eq!(next_cell(10, 20, Direction::Down), Some((10, 21)));
    assert_eq!(next_cell(10, 20, Direction::Left), Some((9, 20)));
    assert_eq!(next_cell(10, 20, Direction::Right), Some((11, 20)));
}

#[test]
fn the_grid_ends_at_0_and_255() {
    assert_eq!(next_cell(0, 0, Direction::Up), None);
    assert_eq!(next_cell(0, 0, Direction::Left), None);
    assert_eq!(next_cell(255, 255, Direction::Down), None);
    assert_eq!(next_cell(255, 255, Direction::Right), None);
    assert_eq!(next_cell(255, 0, Direction::Down), Some((255, 1)));
    assert_eq!(next_cell(0, 255, Direction::Right), Some((1, 255)));
}

#[test]
fn a_chain_that_reaches_the_edge_of_the_grid_stays() {
    let mut world = World::new();
    let player = create_player(&mut world, at(1, 0));
    let the_box = create_box(&mut world, at(0, 0), BoxColour::Red);
    run_input(&mut world, Direction::Left);
    assert_eq!(cell(&world, player), (1, 0));
    assert_eq!(cell(&world, the_box), (0, 0));
    assert_eq!(world.gameplay.moves_count, 0);
    assert!(world.event_queue.events.is_empty());

    run_input(&mut world, Direction::Up);
    assert_eq!(cell(&world, player), (1, 0));
    assert_eq!(world.gameplay.moves_count, 0);
    assert!(world.event_queue.events.is_empty());

    let mut world = World::new();
    let player = create_player(&mut world, at(255, 255));
    run_input(&mut world, Direction::Right);
    run_input(&mut world, Direction::Down);
    assert_eq!(cell(&world, player), (255, 255));
    run_input(&mut world, Direction::Left);
    assert_eq!(cell(&world, player), (254, 255));
    assert_eq!(world.gameplay.moves_count, 1);
}

#[test]
fn a_player_steps_onto_the_last_cell_of_the_grid() {
    let mut world = World::new();
    let player = create_player(&mut world, at(253, 3));
    let the_box = create_box(&mut world, at(254, 3), BoxColour::Blue);
    run_input(&mut world, Direction::Right);
    assert_eq!(cell(&world, player), (254, 3));
    assert_eq!(cell(&world, the_box), (255, 3));
    run_input(&mut world, Direction::Right);
    assert_eq!(cell(&world, player), (254, 3));
    assert_eq!(cell(&world, the_box), (255, 3));
    assert_eq!(world.gameplay.moves_count, 1);
}

#[test]
fn a_box_resting_on_a_wall_cell_is_pushed_like_any_other() {
    let mut world = World::new();
    let player = create_player(&mut world, at(0, 0));
    let the_box = create_box(&mut world, at(1, 0), BoxColour::Red);
    create_wall(&mut world, at(1, 0));
    run_input(&mut world, Direction::Right);
    assert_eq!(cell(&world, player), (1, 0));
    assert_eq!(cell(&world, the_box), (2, 0));
}

#[test]
fn a_player_that_is_not_movable_does_not_move() {
    let mut world = World::new();
    let player = world.spawn(Components {
        position: Some(at(2, 2)),
        player: Some(Player {}),
        ..Components::empty()
    });
    run_input(&mut world, Direction::Right);
    assert_eq!(cell(&world, player), (2, 2));
    assert!(world.event_queue.events.is_empty());

    let mut world = World::new();
    let stuck = world.spawn(Components {
        position: Some(at(2, 2)),
        player: Some(Player {}),
        immovable: Some(Immovable),
        ..Components::empty()
    });
    run_input(&mut world, Direction::Right);
    assert_eq!(cell(&world, stuck), (2, 2));
    assert_eq!(world.event_queue.events, vec![Event::PlayerHitObstacle]);
}

#[test]
fn a_player_without_a_position_pushes_nothing() {
    let mut world = World::new();
    world.spawn(Components {
        player: Some(Player {}),
        movable: Some(Movable),
        ..Components::empty()
    });
    let the_box = create_box(&mut world, at(0, 0), BoxColour::Red);
    run_input(&mut world, Direction::Down);
    assert_eq!(cell(&world, the_box), (0, 0));
    assert_eq!(world.gameplay.moves_count, 0);
    assert!(world.event_queue.events.is_empty());
}

#[test]
fn players_push_one_after_the_other() {
    let mut world = World::new();
    let first = create_player(&mut world, at(0, 0));
    let the_box = create_box(&mut world, at(1, 0), BoxColour::Red);
    let second = create_player(&mut world, at(2, 0));
    assert_eq!(count_players(&world), 2);
    run_input(&mut world, Direction::Right);
    // the first player pushes the box and the second player; then the
    // second player, now on cell 3, steps once more
    assert_eq!(cell(&world, first), (1, 0));
    assert_eq!(cell(&world, the_box), (2, 0));
    assert_eq!(cell(&world, second), (4, 0));
    assert_eq!(world.gameplay.moves_count, 2);
    assert_eq!(
        world.event_queue.events,
        vec![moved(first), moved(the_box), moved(second), moved(second)]
    );
    assert!(world.is_well_formed());
}

#[test]
fn queued_input_is_served_newest_first_one_per_player() {
    let mut world = World::new();
    let first = create_player(&mut world, at(5, 5));
    let second = create_player(&mut world, at(9, 9));
    let third = create_player(&mut world, at(20, 20));
    world.input_queue.keys_pressed.push(Direction::Up);
    world.input_queue.keys_pressed.push(Direction::Left);
    let mut system = InputSystem {};
    system.run(&mut world);
    assert_eq!(cell(&world, first), (4, 5));
    assert_eq!(cell(&world, second), (9, 8));
    assert_eq!(cell(&world, third), (20, 20));
    assert!(world.input_queue.keys_pressed.is_empty());
    assert_eq!(world.gameplay.moves_count, 2);

    system.run(&mut world);
    assert_eq!(cell(&world, first), (4, 5));
    assert_eq!(world.gameplay.moves_count, 2);
}

#[test]
fn the_index_finds_the_entity_on_each_cell() {
    let mut world = World::new();
    create_floor(&mut world, at(1, 2));
    let wall = create_wall(&mut world, at(1, 2));
    let the_box = create_box(&mut world, at(2, 1), BoxColour::Blue);
    let index = OccupancyIndex::build(&world);
    assert_eq!(index.immovable_at(1, 2), Some(wall));
    assert_eq!(index.movable_at(1, 2), None);
    assert_eq!(index.movable_at(2, 1), Some(the_box));
    assert_eq!(index.immovable_at(2, 1), None);
    assert_eq!(index.movable_at(0, 0), None);
    assert_eq!(index.movable_at(255, 255), None);
}

#[test]
fn resolving_a_push_lists_the_chain_nearest_first() {
    let mut world = World::new();
    let far = create_box(&mut world, at(7, 3), BoxColour::Blue);
    let near = create_box(&mut world, at(6, 3), BoxColour::Red);
    let player = create_player(&mut world, at(5, 3));
    create_wall(&mut world, at(2, 3));
    let index = OccupancyIndex::build(&world);
    assert_eq!(
        resolve_push(&world, &index, 5, 3, Direction::Right),
        (vec![player, near, far], false)
    );
    assert_eq!(resolve_push(&world, &index, 5, 3, Direction::Left), (vec![player], false));
    // nothing stands on the starting cell: the walk ends there
    assert_eq!(resolve_push(&world, &index, 3, 3, Direction::Left), (vec![], false));
    assert_eq!(resolve_push(&world, &index, 4, 3, Direction::Up), (vec![], false));
    assert_eq!(resolve_push(&world, &index, 2, 3, Direction::Up), (vec![], true));
}

#[test]
fn applying_moves_counts_one_move_and_announces_each_entity() {
    let mut world = World::new();
    let a = create_box(&mut world, at(1, 1), BoxColour::Red);
    let b = create_box(&mut world, at(2, 2), BoxColour::Red);
    let floor = create_floor(&mut world, at(3, 3));
    world.event_queue.events.push(Event::PlayerHitObstacle);
    apply_moves(&mut world, &vec![b, a], Direction::Down);
    assert_eq!(cell(&world, a), (1, 2));
    assert_eq!(cell(&world, b), (2, 3));
    assert_eq!(cell(&world, floor), (3, 3));
    assert_eq!(world.position(a).unwrap().z, 10);
    assert_eq!(world.gameplay.moves_count, 1);
    assert_eq!(
        world.event_queue.events,
        vec![Event::PlayerHitObstacle, moved(b), moved(a)]
    );

    apply_moves(&mut world, &vec![], Direction::Down);
    assert_eq!(world.gameplay.moves_count, 1);
    assert_eq!(world.event_queue.events.len(), 3);
}

#[test]
fn any_entity_can_be_made_to_push() {
    let mut world = World::new();
    let a = create_box(&mut world, at(1, 1), BoxColour::Red);
    let b = create_box(&mut world, at(1, 2), BoxColour::Red);
    push_player(&mut world, a, Direction::Down);
    assert_eq!(cell(&world, a), (1, 2));
    assert_eq!(cell(&world, b), (1, 3));
    push_player(&mut world, 99, Direction::Down);
    assert_eq!(world.gameplay.moves_count, 1);
}

#[test]
fn pushes_keep_the_grid_well_formed() {
    let mut world = World::new();
    load_map(&mut world, "W W W W W\nW P BB . W\nW RB . BS W\nW W W W W".to_string());
    assert!(world.is_well_formed());
    let moves = [
        Direction::Right,
        Direction::Right,
        Direction::Down,
        Direction::Left,
        Direction::Left,
        Direction::Up,
        Direction::Up,
        Direction::Right,
        Direction::Down,
    ];
    for direction in moves {
        run_input(&mut world, direction);
        assert!(world.is_well_formed());
    }
}

#[test]
fn overlapping_movables_are_not_well_formed() {
    let mut world = World::new();
    create_box(&mut world, at(1, 1), BoxColour::Red);
    create_wall(&mut world, at(1, 1));
    assert!(world.is_well_formed());
    assert!(world.has_movables_apart());
    create_player(&mut world, at(1, 1));
    assert!(!world.is_well_formed());
    assert!(!world.has_movables_apart());

    let mut world = World::new();
    create_wall(&mut world, at(1, 1));
    create_wall(&mut world, at(1, 1));
    assert!(!world.is_well_formed());
    assert!(world.has_movables_apart());

    let mut world = World::new();
    world.spawn(Components {
        movable: Some(Movable),
        immovable: Some(Immovable),
        ..Components::empty()
    });
    assert!(!world.is_well_formed());
}

#[test]
fn movables_stay_apart_even_where_tags_overlap() {
    let mut world = World::new();
    let player = create_player(&mut world, at(0, 0));
    let both = world.spawn(Components {
        position: Some(at(1, 0)),
        movable: Some(Movable),
        immovable: Some(Immovable),
        ..Components::empty()
    });
    let the_box = create_box(&mut world, at(2, 0), BoxColour::Red);
    create_wall(&mut world, at(2, 0));
    assert!(world.has_movables_apart());
    assert!(!world.is_well_formed());
    run_input(&mut world, Direction::Right);
    assert_eq!(cell(&world, player), (1, 0));
    assert_eq!(cell(&world, both), (2, 0));
    assert_eq!(cell(&world, the_box), (3, 0));
    assert!(world.has_movables_apart());
}

#[test]
fn a_blocked_push_needs_no_room_in_the_move_count() {
    let mut world = World::new();
    let player = create_player(&mut world, at(1, 1));
    let the_box = create_box(&mut world, at(2, 1), BoxColour::Red);
    create_wall(&mut world, at(3, 1));
    world.gameplay.moves_count = u32::MAX;
    run_input(&mut world, Direction::Right);
    assert_eq!(cell(&world, player), (1, 1));
    assert_eq!(cell(&world, the_box), (2, 1));
    assert_eq!(world.gameplay.moves_count, u32::MAX);
    assert_eq!(world.event_queue.events, vec![Event::PlayerHitObstacle]);

    world.input_queue.keys_pressed.push(Direction::Right);
    let mut system = InputSystem {};
    system.run(&mut world);
    assert_eq!(cell(&world, player), (1, 1));
    assert_eq!(world.gameplay.moves_count, u32::MAX);
    assert_eq!(
        world.event_queue.events,
        vec![Event::PlayerHitObstacle, Event::PlayerHitObstacle]
    );
    assert!(world.input_queue.keys_pressed.is_empty());
}

#[test]
fn the_last_move_that_the_count_can_hold_is_made() {
    let mut world = World::new();
    let player = create_player(&mut world, at(1, 1));
    world.gameplay.moves_count = u32::MAX - 1;
    run_input(&mut world, Direction::Down);
    assert_eq!(cell(&world, player), (1, 2));
    assert_eq!(world.gameplay.moves_count, u32::MAX);
}
