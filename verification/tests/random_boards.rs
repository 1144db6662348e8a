use rust_sokoban::components::{BoxColour, Position};
use rust_sokoban::entities::{create_box, create_box_spot, create_player, create_wall};
use rust_sokoban::events::{EntityMoved, Event};
use rust_sokoban::resources::{Direction, GameplayState};
use rust_sokoban::systems::gameplay_state::run_gameplay_state;
use rust_sokoban::systems::input::run_input;
use rust_sokoban::world::World;

/// A small generator of numbers that look random and are the same on
/// every run.
struct Numbers(u64);

impl Numbers {
    fn next(&mut self, below: u64) -> u64 {
        self.0 = self.0.wrapping_mul(6364136223846793005).wrapping_add(1442695040888963407);
        (self.0 >> 33) % below
    }
}

#[derive(Clone, Copy, PartialEq, Debug)]
enum Kind {
    Player,
    Box(BoxColour),
    Wall,
    Spot(BoxColour),
}

#[derive(Clone, Copy, PartialEq, Debug)]
struct Piece {
    kind: Kind,
    x: i32,
    y: i32,
}

const SIDE: i32 = 6;

fn colour(n: u64) -> BoxColour {
    if n == 0 {
        BoxColour::Red
    } else {
        BoxColour::Blue
    }
}

/// A board with one player in which no two movables and no two
/// immovables share a cell. It lies in a corner of the grid, so that
/// chains reach the edge.
fn board(numbers: &mut Numbers) -> Vec<Piece> {
    let mut pieces: Vec<Piece> = Vec::new();
    let count = 4 + numbers.next(14);
    for i in 0..count {
        let kind = if i == 0 {
            Kind::Player
        } else {
            match numbers.next(4) {
                0 | 1 => Kind::Box(colour(numbers.next(2))),
                2 => Kind::Wall,
                _ => Kind::Spot(colour(numbers.next(2))),
            }
        };
        let x = numbers.next(SIDE as u64) as i32;
        let y = numbers.next(SIDE as u64) as i32;
        let movable = |k: Kind| matches!(k, Kind::Player | Kind::Box(_));
        let clash = pieces.iter().any(|p| {
            p.x == x
                && p.y == y
                && ((movable(p.kind) && movable(kind))
                    || (p.kind == Kind::Wall && kind == Kind::Wall))
        });
        if !clash {
            pieces.push(Piece { kind, x, y });
        }
    }
    pieces
}

fn world_of(pieces: &[Piece]) -> World {
    let mut world = World::new();
    for p in pieces {
        let position = Position { x: p.x as u8, y: p.y as u8, z: 0 };
        match p.kind {
            Kind::Player => create_player(&mut world, position),
            Kind::Box(c) => create_box(&mut world, position, c),
            Kind::Wall => create_wall(&mut world, position),
            Kind::Spot(c) => create_box_spot(&mut world, position, c),
        };
    }
    world
}

/// The push, written out plainly: returns the events of the push.
fn push(pieces: &mut Vec<Piece>, direction: Direction) -> Vec<Event> {
    let (dx, dy) = match direction {
        Direction::Up => (0, -1),
        Direction::Down => (0, 1),
        Direction::Left => (-1, 0),
        Direction::Right => (1, 0),
    };
    let player = pieces.iter().position(|p| p.kind == Kind::Player).unwrap();
    let (mut x, mut y) = (pieces[player].x, pieces[player].y);
    let mut chain: Vec<usize> = Vec::new();
    loop {
        if !(0..256).contains(&x) || !(0..256).contains(&y) {
            return vec![];
        }
        let movable = pieces.iter().position(|p| {
            p.x == x && p.y == y && matches!(p.kind, Kind::Player | Kind::Box(_))
        });
        match movable {
            Some(e) => chain.push(e),
            None => {
                if pieces.iter().any(|p| p.x == x && p.y == y && p.kind == Kind::Wall) {
                    return vec![Event::PlayerHitObstacle];
                }
                break;
            }
        }
        x += dx;
        y += dy;
    }
    for &e in &chain {
        pieces[e].x += dx;
        pieces[e].y += dy;
    }
    chain.iter().map(|&id| Event::EntityMoved(EntityMoved { id })).collect()
}

fn solved(pieces: &[Piece]) -> bool {
    pieces.iter().all(|s| match s.kind {
        Kind::Spot(c) => pieces
            .iter()
            .any(|b| b.kind == Kind::Box(c) && b.x == s.x && b.y == s.y),
        _ => true,
    })
}

#[test]
fn random_boards_play_as_the_plain_rules_say() {
    let mut numbers = Numbers(2024);
    let directions = [Direction::Up, Direction::Down, Direction::Left, Direction::Right];
    for _ in 0..300 {
        let mut pieces = board(&mut numbers);
        let mut world = world_of(&pieces);
        assert!(world.is_well_formed());
        let mut moves = 0;
        for _ in 0..12 {
            let direction = directions[numbers.next(4) as usize];
            world.event_queue.events.clear();
            let events = push(&mut pieces, direction);
            run_input(&mut world, direction);
            assert_eq!(world.event_queue.events, events);
            if matches!(events.first(), Some(Event::EntityMoved(_))) {
                moves += 1;
            }
            assert_eq!(world.gameplay.moves_count, moves);
            for (id, p) in pieces.iter().enumerate() {
                let position = world.position(id).unwrap();
                assert_eq!((i32::from(position.x), i32::from(position.y)), (p.x, p.y));
            }
            assert!(world.is_well_formed());
            run_gameplay_state(&mut world);
            assert_eq!(world.gameplay.state == GameplayState::Won, solved(&pieces));
        }
    }
}
