//! State that belongs to the world as a whole rather than to one entity.

use crate::events::Event;
use std::time::Duration;
use vstd::prelude::*;

verus! {

/// A requested move of the player, one cell along an axis.
#[derive(Clone, Copy, Debug, PartialEq, Eq, Structural)]
pub enum Direction {
    Up,
    Down,
    Left,
    Right,
}

impl Direction {
    /// The unit step of the direction; `y` grows downwards.
    pub open spec fn delta(self) -> (int, int) {
        match self {
            Direction::Up => (0, -1),
            Direction::Down => (0, 1),
            Direction::Left => (-1, 0),
            Direction::Right => (1, 0),
        }
    }

    /// The direction of the first key that is held down, taking the keys
    /// in the order up, down, left, right.
    pub fn from_pressed(up: bool, down: bool, left: bool, right: bool) -> (d: Option<Self>)
        ensures
            d == (if up {
                Some(Direction::Up)
            } else if down {
                Some(Direction::Down)
            } else if left {
                Some(Direction::Left)
            } else if right {
                Some(Direction::Right)
            } else {
                None::<Direction>
            }),
    {
        if up {
            Some(Direction::Up)
        } else if down {
            Some(Direction::Down)
        } else if left {
            Some(Direction::Left)
        } else if right {
            Some(Direction::Right)
        } else {
            None
        }
    }
}

/// Directions requested since the last tick; the newest is served first.
#[derive(Debug)]
pub struct InputQueue {
    pub keys_pressed: Vec<Direction>,
}

impl Default for InputQueue {
    fn default() -> (q: Self)
        ensures
            q.keys_pressed@ == Seq::<Direction>::empty(),
    {
        InputQueue { keys_pressed: Vec::new() }
    }
}

/// Phase of the game.
#[derive(Clone, Copy, Debug, PartialEq, Eq, Structural)]
pub enum GameplayState {
    Playing,
    Won,
}

impl Default for GameplayState {
    fn default() -> (s: Self)
        ensures
            s == GameplayState::Playing,
    {
        GameplayState::Playing
    }
}

impl GameplayState {
    /// The name of the phase as it is shown to the player.
    pub open spec fn name(self) -> Seq<char> {
        match self {
            GameplayState::Playing => "Playing"@,
            GameplayState::Won => "Won"@,
        }
    }

    /// The name of the phase.
    pub fn to_string(&self) -> (s: String)
        ensures
            s@ == self.name(),
    {
        match self {
            GameplayState::Playing => String::from_str("Playing"),
            GameplayState::Won => String::from_str("Won"),
        }
    }
}

/// Phase and number of moves made so far.
#[derive(Clone, Copy, Debug, PartialEq, Eq, Structural)]
pub struct Gameplay {
    pub state: GameplayState,
    pub moves_count: u32,
}

impl Default for Gameplay {
    fn default() -> (g: Self)
        ensures
            g == (Gameplay { state: GameplayState::Playing, moves_count: 0 }),
    {
        Gameplay { state: GameplayState::Playing, moves_count: 0 }
    }
}

/// Events waiting for their consumers, oldest first.
#[derive(Debug)]
pub struct EventQueue {
    pub events: Vec<Event>,
}

impl Default for EventQueue {
    fn default() -> (q: Self)
        ensures
            q.events@ == Seq::<Event>::empty(),
    {
        EventQueue { events: Vec::new() }
    }
}

/// The whole milliseconds that a duration spans.
pub uninterp spec fn duration_millis(d: Duration) -> nat;

/// `Duration::from_millis`: the duration that spans `millis` milliseconds.
#[verifier::external_body]
pub(crate) fn duration_from_millis(millis: u64) -> (d: Duration)
    ensures
        duration_millis(d) == millis,
{
    Duration::from_millis(millis)
}

/// `Duration::as_millis`: the whole milliseconds in `d`.
#[verifier::external_body]
pub(crate) fn duration_as_millis(d: &Duration) -> (millis: u128)
    ensures
        millis == duration_millis(*d),
{
    d.as_millis()
}

/// Time that has passed since the game started.
#[derive(Clone, Copy, Debug)]
pub struct Time {
    pub delta: Duration,
}

impl Default for Time {
    fn default() -> (t: Self)
        ensures
            duration_millis(t.delta) == 0,
    {
        Time { delta: duration_from_millis(0) }
    }
}

impl Time {
    /// The whole milliseconds that have passed.
    pub fn millis(&self) -> (millis: u128)
        ensures
            millis == duration_millis(self.delta),
    {
        duration_as_millis(&self.delta)
    }
}

} // verus!
