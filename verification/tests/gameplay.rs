use rust_sokoban::components::{BoxColour, Position};
use rust_sokoban::entities::{create_box, create_box_spot, create_player};
use rust_sokoban::game::{tick, Game};
use rust_sokoban::map::load_map;
use rust_sokoban::resources::{Direction, Gameplay, GameplayState};
use rust_sokoban::systems::events::Sound;
use rust_sokoban::systems::gameplay_state::{run_gameplay_state, GameplayStateSystem};
use rust_sokoban::world::{register_resources, World};

fn at(x: u8, y: u8) -> Position {
    Position { x, y, z: 0 }
}

#[test]
fn a_box_loaded_on_a_spot_of_its_colour_wins_at_once() {
    let mut world = World::new();
    create_box_spot(&mut world, at(3, 4), BoxColour::Blue);
    create_box(&mut world, at(3, 4), BoxColour::Blue);
    assert_eq!(world.gameplay.state, GameplayState::Playing);
    run_gameplay_state(&mut world);
    assert_eq!(world.gameplay.state, GameplayState::Won);
}

#[test]
fn a_red_box_on_a_blue_spot_never_wins() {
    let mut world = World::new();
    create_box(&mut world, at(3, 4), BoxColour::Red);
    create_box_spot(&mut world, at(3, 4), BoxColour::Blue);
    create_box_spot(&mut world, at(6, 6), BoxColour::Red);
    create_box(&mut world, at(6, 6), BoxColour::Red);
    run_gameplay_state(&mut world);
    assert_eq!(world.gameplay.state, GameplayState::Playing);
    world.gameplay.state = GameplayState::Won;
    run_gameplay_state(&mut world);
    assert_eq!(world.gameplay.state, GameplayState::Playing);
}

#[test]
fn an_uncovered_spot_keeps_the_game_going() {
    let mut world = World::new();
    create_box_spot(&mut world, at(1, 1), BoxColour::Red);
    create_box(&mut world, at(1, 2), BoxColour::Red);
    world.gameplay.state = GameplayState::Won;
    run_gameplay_state(&mut world);
    assert_eq!(world.gameplay.state, GameplayState::Playing);
}

#[test]
fn a_level_without_spots_is_won() {
    let mut world = World::new();
    create_box(&mut world, at(1, 2), BoxColour::Red);
    run_gameplay_state(&mut world);
    assert_eq!(world.gameplay.state, GameplayState::Won);
}

#[test]
fn the_win_check_reads_cell_and_colour_not_the_layer() {
    let mut world = World::new();
    create_box_spot(&mut world, Position { x: 2, y: 2, z: 77 }, BoxColour::Red);
    create_box(&mut world, Position { x: 2, y: 2, z: 1 }, BoxColour::Red);
    // same number under another pair of coordinates
    create_box_spot(&mut world, at(0, 1), BoxColour::Blue);
    create_box(&mut world, at(0, 1), BoxColour::Blue);
    run_gameplay_state(&mut world);
    assert_eq!(world.gameplay.state, GameplayState::Won);

    let mut world = World::new();
    create_box_spot(&mut world, at(0, 1), BoxColour::Blue);
    create_box(&mut world, at(1, 0), BoxColour::Blue);
    run_gameplay_state(&mut world);
    assert_eq!(world.gameplay.state, GameplayState::Playing);
}

#[test]
fn checking_twice_gives_the_same_phase() {
    for covered in [false, true] {
        let mut world = World::new();
        create_box_spot(&mut world, at(1, 1), BoxColour::Red);
        create_box(&mut world, at(if covered { 1 } else { 2 }, 1), BoxColour::Red);
        let mut system = GameplayStateSystem {};
        system.run(&mut world);
        let first = world.gameplay;
        system.run(&mut world);
        assert_eq!(world.gameplay, first);
        assert_eq!(first.state == GameplayState::Won, covered);
        assert_eq!(first.moves_count, 0);
    }
}

#[test]
fn pushing_a_box_off_its_spot_sets_the_phase_back() {
    let mut world = World::new();
    load_map(&mut world, "P BB BS .".to_string());
    assert_eq!(tick(&mut world, None), vec![]);
    assert_eq!(world.gameplay.state, GameplayState::Playing);
    assert_eq!(tick(&mut world, Some(Direction::Right)), vec![Sound::Correct]);
    assert_eq!(world.gameplay, Gameplay { state: GameplayState::Won, moves_count: 1 });
    assert_eq!(tick(&mut world, Some(Direction::Right)), vec![]);
    assert_eq!(world.gameplay, Gameplay { state: GameplayState::Playing, moves_count: 2 });
    assert!(world.event_queue.events.is_empty());
}

#[test]
fn a_tick_plays_the_wall_sound_for_a_blocked_push() {
    let mut world = World::new();
    load_map(&mut world, "W P RB RS W".to_string());
    assert_eq!(tick(&mut world, Some(Direction::Left)), vec![Sound::Wall]);
    assert_eq!(tick(&mut world, Some(Direction::Right)), vec![Sound::Correct]);
    assert_eq!(tick(&mut world, Some(Direction::Right)), vec![Sound::Wall]);
    assert_eq!(world.gameplay, Gameplay { state: GameplayState::Won, moves_count: 1 });
}

#[test]
fn a_box_on_a_spot_of_the_other_colour_sounds_incorrect() {
    let mut world = World::new();
    load_map(&mut world, "P BB RS".to_string());
    assert_eq!(tick(&mut world, Some(Direction::Right)), vec![Sound::Incorrect]);
    assert_eq!(world.gameplay.state, GameplayState::Playing);
}

#[test]
fn the_game_takes_its_input_from_the_queue() {
    let mut world = World::new();
    let player = create_player(&mut world, at(4, 4));
    let mut game = Game { world };
    game.key_down_event(Direction::Down);
    game.key_down_event(Direction::Right);
    assert_eq!(
        game.world.input_queue.keys_pressed,
        vec![Direction::Down, Direction::Right]
    );
    assert_eq!(game.update(), vec![]);
    let p = game.world.position(player).unwrap();
    assert_eq!((p.x, p.y), (5, 4));
    assert_eq!(game.update(), vec![]);
    let p = game.world.position(player).unwrap();
    assert_eq!((p.x, p.y), (5, 5));
    assert_eq!(game.update(), vec![]);
    let p = game.world.position(player).unwrap();
    assert_eq!((p.x, p.y), (5, 5));
    assert_eq!(game.world.gameplay.moves_count, 2);
    assert_eq!(game.world.gameplay.state, GameplayState::Won);
}

#[test]
fn a_new_world_starts_playing_with_nothing_queued() {
    let world = World::new();
    assert_eq!(world.len(), 0);
    assert_eq!(world.gameplay, Gameplay { state: GameplayState::Playing, moves_count: 0 });
    assert_eq!(world.gameplay, Gameplay::default());
    assert_eq!(GameplayState::default(), GameplayState::Playing);
    assert!(world.event_queue.events.is_empty());
    assert!(world.input_queue.keys_pressed.is_empty());
    assert_eq!(world.time.millis(), 0);
}

#[test]
fn registering_resources_resets_them_and_keeps_the_entities() {
    let mut world = World::new();
    let player = create_player(&mut world, at(4, 4));
    world.input_queue.keys_pressed.push(Direction::Up);
    tick(&mut world, Some(Direction::Up));
    world.time.delta = std::time::Duration::from_millis(1234);
    register_resources(&mut world);
    assert_eq!(world.len(), 1);
    assert_eq!(world.position(player), Some(Position { x: 4, y: 3, z: 10 }));
    assert_eq!(world.gameplay, Gameplay::default());
    assert!(world.input_queue.keys_pressed.is_empty());
    assert!(world.event_queue.events.is_empty());
    assert_eq!(world.time.millis(), 0);
}

#[test]
fn phases_have_names() {
    assert_eq!(GameplayState::Playing.to_string(), "Playing");
    assert_eq!(GameplayState::Won.to_string(), "Won");
}
