//! The win check: the puzzle is solved when every box spot is covered by a
//! box of its colour.

use crate::components::BoxColour;
use crate::resources::{Gameplay, GameplayState};
use crate::world::{World, WorldState};
use std::collections::HashSet;
use vstd::prelude::*;

verus! {

broadcast use vstd::std_specs::hash::group_hash_axioms;

/// Entity `b` is a box of colour `c` on cell `(x, y)`.
pub open spec fn box_at(w: WorldState, b: int, x: int, y: int, c: BoxColour) -> bool {
    w.occupies(b, x, y) && w.entities[b].box_colour == Some(c)
}

/// Entity `s` is a box spot of colour `c` on cell `(x, y)`.
pub open spec fn spot_at(w: WorldState, s: int, x: int, y: int, c: BoxColour) -> bool {
    w.occupies(s, x, y) && w.entities[s].spot_colour == Some(c)
}

/// Some box of colour `c` stands on cell `(x, y)`.
pub open spec fn covered(w: WorldState, x: int, y: int, c: BoxColour) -> bool {
    exists|b: int| box_at(w, b, x, y, c)
}

/// Every box spot is covered by a box of its colour.
pub open spec fn solved(w: WorldState) -> bool {
    forall|s: int, x: int, y: int, c: BoxColour| #[trigger]
        spot_at(w, s, x, y, c) ==> covered(w, x, y, c)
}

/// The world after the win check: the phase is `Won` if the puzzle is
/// solved and `Playing` if it is not.
pub open spec fn win_checked(w: WorldState) -> WorldState {
    WorldState {
        gameplay: Gameplay {
            state: if solved(w) {
                GameplayState::Won
            } else {
                GameplayState::Playing
            },
            ..w.gameplay
        },
        ..w
    }
}

/// A second win check without a move in between changes nothing.
pub proof fn win_check_is_idempotent(w: WorldState)
    ensures
        win_checked(win_checked(w)) == win_checked(w),
{
    let v = win_checked(w);
    assert(solved(v) == solved(w)) by {
        if solved(w) {
            assert forall|s: int, x: int, y: int, c: BoxColour| #[trigger]
                spot_at(v, s, x, y, c) implies covered(v, x, y, c) by {
                assert(spot_at(w, s, x, y, c));
                let b = choose|b: int| box_at(w, b, x, y, c);
                assert(box_at(v, b, x, y, c));
            }
        }
        if solved(v) {
            assert forall|s: int, x: int, y: int, c: BoxColour| #[trigger]
                spot_at(w, s, x, y, c) implies covered(w, x, y, c) by {
                assert(spot_at(v, s, x, y, c));
                let b = choose|b: int| box_at(v, b, x, y, c);
                assert(box_at(w, b, x, y, c));
            }
        }
    }
}

/// The number under which a box of colour `c` on cell `(x, y)` is filed.
pub open spec fn box_key(x: int, y: int, c: BoxColour) -> int {
    (x * 256 + y) * 2 + (match c {
        BoxColour::Red => 0int,
        BoxColour::Blue => 1int,
    })
}

fn key_of(x: u8, y: u8, c: BoxColour) -> (k: u32)
    ensures
        k == box_key(x as int, y as int, c),
{
    let bit: u32 = match c {
        BoxColour::Red => 0,
        BoxColour::Blue => 1,
    };
    ((x as u32) * 256 + (y as u32)) * 2 + bit
}

/// Sets the phase to `Won` if every box spot is covered by a box of its
/// colour, and to `Playing` if one is not.
pub fn run_gameplay_state(world: &mut World)
    ensures
        final(world)@ == win_checked(old(world)@),
{
    let ghost w = world@;
    let mut boxes_by_position: HashSet<u32> = HashSet::new();
    let n = world.len();
    let mut id: usize = 0;
    while id < n
        invariant
            id <= n,
            n == w.entities.len(),
            w == world@,
            forall|x: int, y: int, c: BoxColour|
                0 <= x < 256 && 0 <= y < 256 ==> (boxes_by_position@.contains(
                    #[trigger] box_key(x, y, c) as u32,
                ) <==> exists|b: int| 0 <= b < id && box_at(w, b, x, y, c)),
        decreases n - id,
    {
        let ghost filed = boxes_by_position@;
        match (world.position(id), world.box_colour(id)) {
            (Some(p), Some(colour)) => {
                boxes_by_position.insert(key_of(p.x, p.y, colour));
                assert forall|x: int, y: int, c: BoxColour|
                    0 <= x < 256 && 0 <= y < 256 implies (boxes_by_position@.contains(
                    #[trigger] box_key(x, y, c) as u32,
                ) <==> exists|b: int| 0 <= b < id + 1 && box_at(w, b, x, y, c)) by {
                    if x == p.x && y == p.y && c == colour {
                        assert(box_at(w, id as int, x, y, c));
                    } else {
                        assert(box_key(x, y, c) != box_key(p.x as int, p.y as int, colour));
                        assert(!box_at(w, id as int, x, y, c));
                        if filed.contains(box_key(x, y, c) as u32) {
                            let b = choose|b: int| 0 <= b < id && box_at(w, b, x, y, c);
                            assert(0 <= b < id + 1 && box_at(w, b, x, y, c));
                        }
                    }
                }
            },
            _ => {
                assert forall|x: int, y: int, c: BoxColour|
                    0 <= x < 256 && 0 <= y < 256 implies (boxes_by_position@.contains(
                    #[trigger] box_key(x, y, c) as u32,
                ) <==> exists|b: int| 0 <= b < id + 1 && box_at(w, b, x, y, c)) by {
                    assert(!box_at(w, id as int, x, y, c));
                    if filed.contains(box_key(x, y, c) as u32) {
                        let b = choose|b: int| 0 <= b < id && box_at(w, b, x, y, c);
                        assert(0 <= b < id + 1 && box_at(w, b, x, y, c));
                    }
                }
            },
        }
        id += 1;
    }
    let mut all_covered = true;
    let mut id: usize = 0;
    while id < n && all_covered
        invariant
            id <= n,
            n == w.entities.len(),
            w == world@,
            forall|x: int, y: int, c: BoxColour|
                0 <= x < 256 && 0 <= y < 256 ==> (boxes_by_position@.contains(
                    #[trigger] box_key(x, y, c) as u32,
                ) <==> covered(w, x, y, c)),
            all_covered ==> forall|s: int, x: int, y: int, c: BoxColour|
                0 <= s < id && #[trigger] spot_at(w, s, x, y, c) ==> covered(w, x, y, c),
            !all_covered ==> !solved(w),
        decreases
                (n - id) + (if all_covered {
                    1int
                } else {
                    0int
                }),
    {
        match (world.position(id), world.spot_colour(id)) {
            (Some(p), Some(colour)) => {
                let k = key_of(p.x, p.y, colour);
                assert(spot_at(w, id as int, p.x as int, p.y as int, colour));
                if !boxes_by_position.contains(&k) {
                    assert(!covered(w, p.x as int, p.y as int, colour));
                    all_covered = false;
                }
            },
            _ => {},
        }
        if all_covered {
            id += 1;
        }
    }
    world.gameplay.state = if all_covered {
        GameplayState::Won
    } else {
        GameplayState::Playing
    };
}

/// The win check as a phase of the tick.
#[derive(Clone, Copy, Debug)]
pub struct GameplayStateSystem {}

impl GameplayStateSystem {
    /// Sets the phase to `Won` if every box spot is covered by a box of
    /// its colour, and to `Playing` if one is not.
    pub fn run(&mut self, world: &mut World)
        ensures
            final(world)@ == win_checked(old(world)@),
    {
        run_gameplay_state(world);
    }
}

} // verus!
