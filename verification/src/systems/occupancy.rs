//! The lookup from grid cells to the entities that stand on them.

use crate::events::EntityId;
use crate::world::{World, WorldState};
use std::collections::HashMap;
use vstd::prelude::*;

verus! {

broadcast use vstd::std_specs::hash::group_hash_axioms;

/// The number under which cell `(x, y)` is filed.
pub open spec fn cell_key(x: int, y: int) -> int {
    x * 256 + y
}

/// The number under which cell `(x, y)` is filed.
pub(crate) fn key_of(x: u8, y: u8) -> (k: u16)
    ensures
        k == cell_key(x as int, y as int),
{
    (x as u16) * 256 + (y as u16)
}

/// For each cell, a movable and an immovable that stand on it, if any.
/// It describes the world it was built from until an entity moves.
pub struct OccupancyIndex {
    movables: HashMap<u16, EntityId>,
    immovables: HashMap<u16, EntityId>,
}

impl OccupancyIndex {
    /// The movable that is filed under cell `(x, y)`.
    pub closed spec fn movable(&self, x: int, y: int) -> Option<EntityId> {
        let k = cell_key(x, y) as u16;
        if self.movables@.contains_key(k) {
            Some(self.movables@[k])
        } else {
            None
        }
    }

    /// The immovable that is filed under cell `(x, y)`.
    pub closed spec fn immovable(&self, x: int, y: int) -> Option<EntityId> {
        let k = cell_key(x, y) as u16;
        if self.immovables@.contains_key(k) {
            Some(self.immovables@[k])
        } else {
            None
        }
    }

    /// The first `n` entities of `w` are filed: a cell has an entry of a
    /// kind exactly if one of them stands on it with that kind, and the
    /// entry is such an entity.
    pub open spec fn indexes_prefix(&self, w: WorldState, n: int) -> bool {
        forall|x: int, y: int|
            #![trigger self.movable(x, y)]
            #![trigger self.immovable(x, y)]
            0 <= x < 256 && 0 <= y < 256 ==> {
                &&& match self.movable(x, y) {
                    Some(e) => e < n && w.movable_at(e as int, x, y),
                    None => forall|e: int| 0 <= e < n ==> !w.movable_at(e, x, y),
                }
                &&& match self.immovable(x, y) {
                    Some(e) => e < n && w.immovable_at(e as int, x, y),
                    None => forall|e: int| 0 <= e < n ==> !w.immovable_at(e, x, y),
                }
            }
    }

    /// Every entity of `w` is filed.
    pub open spec fn indexes(&self, w: WorldState) -> bool {
        self.indexes_prefix(w, w.entities.len() as int)
    }

    /// Files every movable and every immovable of `world` under its cell.
    pub fn build(world: &World) -> (index: Self)
        ensures
            index.indexes(world@),
    {
        let mut index = OccupancyIndex { movables: HashMap::new(), immovables: HashMap::new() };
        let mut id: usize = 0;
        while id < world.entities.len()
            invariant
                id <= world.entities.len(),
                index.indexes_prefix(world@, id as int),
            decreases world.entities.len() - id,
        {
            let ghost before = index;
            match world.entities[id].position {
                Some(p) => {
                    let k = key_of(p.x, p.y);
                    if world.entities[id].movable.is_some() {
                        index.movables.insert(k, id);
                    }
                    if world.entities[id].immovable.is_some() {
                        index.immovables.insert(k, id);
                    }
                    assert forall|x: int, y: int|
                        #![trigger index.movable(x, y)]
                        #![trigger index.immovable(x, y)]
                        0 <= x < 256 && 0 <= y < 256 implies {
                        &&& match index.movable(x, y) {
                            Some(e) => e < id + 1 && world@.movable_at(e as int, x, y),
                            None => forall|e: int| 0 <= e < id + 1 ==> !world@.movable_at(e, x, y),
                        }
                        &&& match index.immovable(x, y) {
                            Some(e) => e < id + 1 && world@.immovable_at(e as int, x, y),
                            None => forall|e: int|
                                0 <= e < id + 1 ==> !world@.immovable_at(e, x, y),
                        }
                    } by {
                        let _ = before.movable(x, y);
                        let _ = before.immovable(x, y);
                        if x != p.x || y != p.y {
                            assert(cell_key(x, y) != cell_key(p.x as int, p.y as int));
                        }
                    }
                },
                None => {
                    assert forall|x: int, y: int|
                        #![trigger index.movable(x, y)]
                        #![trigger index.immovable(x, y)]
                        0 <= x < 256 && 0 <= y < 256 implies {
                        &&& match index.movable(x, y) {
                            Some(e) => e < id + 1 && world@.movable_at(e as int, x, y),
                            None => forall|e: int| 0 <= e < id + 1 ==> !world@.movable_at(e, x, y),
                        }
                        &&& match index.immovable(x, y) {
                            Some(e) => e < id + 1 && world@.immovable_at(e as int, x, y),
                            None => forall|e: int|
                                0 <= e < id + 1 ==> !world@.immovable_at(e, x, y),
                        }
                    } by {
                        let _ = before.movable(x, y);
                        let _ = before.immovable(x, y);
                    }
                },
            }
            id += 1;
        }
        index
    }

    /// The movable filed under cell `(x, y)`.
    pub fn movable_at(&self, x: u8, y: u8) -> (e: Option<EntityId>)
        ensures
            e == self.movable(x as int, y as int),
    {
        let k = key_of(x, y);
        match self.movables.get(&k) {
            Some(id) => Some(*id),
            None => None,
        }
    }

    /// The immovable filed under cell `(x, y)`.
    pub fn immovable_at(&self, x: u8, y: u8) -> (e: Option<EntityId>)
        ensures
            e == self.immovable(x as int, y as int),
    {
        let k = key_of(x, y);
        match self.immovables.get(&k) {
            Some(id) => Some(*id),
            None => None,
        }
    }
}

} // verus!
