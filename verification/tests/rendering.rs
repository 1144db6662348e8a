use rust_sokoban::components::{BoxColour, Position, Renderable, RenderableKind};
use rust_sokoban::entities::{
    create_box, create_box_spot, create_floor, create_player, create_wall,
};
use rust_sokoban::resources::Time;
use rust_sokoban::systems::rendering::{get_image, image_at, render_order, run_rendering};
use rust_sokoban::world::{Components, World};
use std::time::Duration;

fn at(x: u8, y: u8) -> Position {
    Position { x, y, z: 0 }
}

#[test]
fn a_renderable_with_one_image_is_static() {
    let r = Renderable::new_static("/images/wall.png");
    assert_eq!(r.kind(), RenderableKind::Static);
    assert_eq!(r.frames(), 1);
    assert_eq!(r.path(0), "/images/wall.png");
    assert_eq!(r.path(1), "/images/wall.png");
    assert_eq!(r.path(usize::MAX), "/images/wall.png");
}

#[test]
fn a_renderable_with_more_images_is_animated_and_wraps_around() {
    let r = Renderable::new_animated(vec!["a", "b", "c"]);
    assert_eq!(r.kind(), RenderableKind::Animated);
    assert_eq!(r.frames(), 3);
    assert_eq!(r.path(0), "a");
    assert_eq!(r.path(1), "b");
    assert_eq!(r.path(2), "c");
    assert_eq!(r.path(3), "a");
    assert_eq!(r.path(7), "b");
    let two = Renderable::new_animated(vec!["x", "y"]);
    assert_eq!(two.kind(), RenderableKind::Animated);
    let one = Renderable::new_animated(vec!["x"]);
    assert_eq!(one.kind(), RenderableKind::Static);
    assert_eq!(Renderable::new_animated(vec![]).frames(), 0);
}

#[test]
fn the_frame_changes_every_quarter_of_a_second() {
    let r = Renderable::new_animated(vec!["0", "1", "2", "3", "4"]);
    assert_eq!(image_at(&r, 0), "0");
    assert_eq!(image_at(&r, 249), "0");
    assert_eq!(image_at(&r, 250), "1");
    assert_eq!(image_at(&r, 499), "1");
    assert_eq!(image_at(&r, 500), "2");
    assert_eq!(image_at(&r, 750), "3");
    assert_eq!(image_at(&r, 999), "3");
    assert_eq!(image_at(&r, 1000), "0");
    assert_eq!(image_at(&r, 123_456_789_750), "3");
    assert_eq!(image_at(&r, u128::MAX), "1");
}

#[test]
fn frames_are_counted_round_the_images_there_are() {
    let three = Renderable::new_animated(vec!["a", "b", "c"]);
    assert_eq!(image_at(&three, 500), "c");
    assert_eq!(image_at(&three, 750), "a");
    let two = Renderable::new_animated(vec!["a", "b"]);
    assert_eq!(image_at(&two, 500), "a");
    assert_eq!(image_at(&two, 750), "b");
    let fixed = Renderable::new_static("only");
    assert_eq!(image_at(&fixed, 750), "only");
}

#[test]
fn the_image_goes_by_the_whole_milliseconds_of_the_time() {
    let r = Renderable::new_animated(vec!["a", "b", "c"]);
    assert_eq!(get_image(&r, Duration::from_millis(0)), "a");
    assert_eq!(get_image(&r, Duration::from_micros(249_999)), "a");
    assert_eq!(get_image(&r, Duration::from_millis(300)), "b");
    assert_eq!(get_image(&r, Duration::from_millis(3_600_600)), "c");
    assert_eq!(get_image(&r, Duration::new(7, 800_000_000)), "a");
}

#[test]
fn time_starts_at_zero_and_counts_whole_milliseconds() {
    assert_eq!(Time::default().delta, Duration::ZERO);
    assert_eq!(Time::default().millis(), 0);
    let later = Time { delta: Duration::from_micros(12_345_678) };
    assert_eq!(later.millis(), 12_345);
}

#[test]
fn lower_layers_are_drawn_first_and_older_entities_within_a_layer() {
    let mut world = World::new();
    let player = create_player(&mut world, at(1, 1));
    let spot = create_box_spot(&mut world, at(2, 2), BoxColour::Red);
    let wall = create_wall(&mut world, at(0, 0));
    let floor = create_floor(&mut world, at(1, 1));
    let the_box = create_box(&mut world, at(3, 3), BoxColour::Blue);
    let second_floor = create_floor(&mut world, at(0, 0));
    let unseen = world.spawn(Components { position: Some(at(9, 9)), ..Components::empty() });
    let nowhere = world.spawn(Components {
        renderable: Some(Renderable::new_static("x")),
        ..Components::empty()
    });
    let top = world.spawn(Components {
        position: Some(Position { x: 4, y: 4, z: 255 }),
        renderable: Some(Renderable::new_static("top")),
        ..Components::empty()
    });
    let bottom = world.spawn(Components {
        position: Some(Position { x: 4, y: 4, z: 0 }),
        renderable: Some(Renderable::new_static("bottom")),
        ..Components::empty()
    });
    let order = render_order(&world);
    assert_eq!(
        order,
        vec![bottom, floor, second_floor, spot, player, wall, the_box, top]
    );
    assert!(!order.contains(&unseen) && !order.contains(&nowhere));
}

#[test]
fn sprites_carry_position_and_the_image_of_the_moment() {
    let mut world = World::new();
    let player = create_player(&mut world, at(1, 2));
    let floor = create_floor(&mut world, at(1, 2));
    let the_box = create_box(&mut world, at(3, 3), BoxColour::Blue);
    let spot = create_box_spot(&mut world, at(3, 4), BoxColour::Red);
    world.time.delta = Duration::from_millis(2_600);
    let sprites = run_rendering(&world);
    let seen: Vec<(usize, Position, &str)> = sprites
        .iter()
        .map(|s| (s.entity, s.position, s.image_path.as_str()))
        .collect();
    assert_eq!(
        seen,
        vec![
            (floor, Position { x: 1, y: 2, z: 5 }, "/images/floor.png"),
            (spot, Position { x: 3, y: 4, z: 9 }, "/images/box_spot_red.png"),
            (player, Position { x: 1, y: 2, z: 10 }, "/images/player_3.png"),
            (the_box, Position { x: 3, y: 3, z: 10 }, "/images/box_blue_1.png"),
        ]
    );
    world.time.delta = Duration::from_millis(2_800);
    let sprites = run_rendering(&world);
    assert_eq!(sprites[2].image_path, "/images/player_1.png");
    assert_eq!(sprites[3].image_path, "/images/box_blue_2.png");
}
