//! What is to be drawn, in which order and with which image. Drawing
//! itself is left to the caller.

use crate::components::{frame_of, Position, Renderable, RenderableKind};
use crate::events::EntityId;
use crate::resources::{duration_as_millis, duration_millis};
use crate::world::{World, WorldState};
use itertools::Itertools;
use std::time::Duration;
use vstd::prelude::*;

verus! {

/// The frame of an animation that is shown `millis` milliseconds into the
/// game: frames change every quarter of a second, four to the second.
pub open spec fn frame_index(millis: nat) -> int {
    (millis % 1000) as int / 250
}

/// The image that shows `paths` at `millis` milliseconds: the only one,
/// or the frame of that moment, counted round the frames there are.
pub open spec fn image_of(paths: Seq<Seq<char>>, millis: nat) -> Seq<char> {
    if paths.len() == 1 {
        paths[0]
    } else {
        frame_of(paths, frame_index(millis))
    }
}

/// The image that shows `renderable` at `millis` milliseconds.
pub fn image_at(renderable: &Renderable, millis: u128) -> (path: String)
    requires
        renderable.is_valid(),
    ensures
        path@ == image_of(renderable@, millis as nat),
{
    let path_index: usize = match renderable.kind() {
        RenderableKind::Static => 0,
        RenderableKind::Animated => ((millis % 1000) / 250) as usize,
    };
    renderable.path(path_index)
}

/// The image that shows `renderable` when the game has run for `delta`.
pub fn get_image(renderable: &Renderable, delta: Duration) -> (path: String)
    requires
        renderable.is_valid(),
    ensures
        path@ == image_of(renderable@, duration_millis(delta)),
{
    image_at(renderable, duration_as_millis(&delta))
}

/// Entity `e` is drawn: it has a position and a renderable.
pub open spec fn drawable(w: WorldState, e: int) -> bool {
    &&& 0 <= e < w.entities.len()
    &&& w.entities[e].position is Some
    &&& w.entities[e].renderable is Some
}

/// The layer of entity `e`.
pub open spec fn layer(w: WorldState, e: int) -> u8 {
    w.entities[e].position->0.z
}

/// Entity `a` is drawn before entity `b`: it lies on a lower layer, or on
/// the same layer and is the older one.
pub open spec fn draws_before(w: WorldState, a: int, b: int) -> bool {
    layer(w, a) < layer(w, b) || (layer(w, a) == layer(w, b) && a < b)
}

/// `order` names every entity that is drawn, each once, lower layers
/// first and within a layer the older entity first.
pub open spec fn is_render_order(w: WorldState, order: Seq<EntityId>) -> bool {
    &&& forall|k: int| 0 <= k < order.len() ==> drawable(w, #[trigger] order[k] as int)
    &&& forall|e: int| #[trigger]
        drawable(w, e) ==> exists|k: int| 0 <= k < order.len() && #[trigger] order[k] == e
    &&& forall|i: int, j: int|
        0 <= i < j < order.len() ==> draws_before(
            w,
            #[trigger] order[i] as int,
            #[trigger] order[j] as int,
        )
}

/// There is one render order: two sequences that both are one are equal.
pub proof fn render_order_is_unique(w: WorldState, a: Seq<EntityId>, b: Seq<EntityId>)
    requires
        is_render_order(w, a),
        is_render_order(w, b),
    ensures
        a == b,
{
    render_orders_agree(w, a, b, 0);
    render_orders_agree(w, b, a, 0);
    render_order_is_no_longer(w, a, b);
    render_order_is_no_longer(w, b, a);
    assert(a =~= b);
}

/// Two render orders name the same entity at every index that both have.
proof fn render_orders_agree(w: WorldState, a: Seq<EntityId>, b: Seq<EntityId>, k: int)
    requires
        is_render_order(w, a),
        is_render_order(w, b),
        0 <= k,
        forall|i: int| 0 <= i < k && i < a.len() && i < b.len() ==> a[i] == b[i],
    ensures
        forall|i: int| 0 <= i < a.len() && i < b.len() ==> a[i] == b[i],
    decreases a.len() - k,
{
    if k < a.len() && k < b.len() {
        if a[k] != b[k] {
            // each of the two entities stands in the other order, behind index k
            assert(drawable(w, a[k] as int));
            assert(drawable(w, b[k] as int));
            let i = choose|i: int| 0 <= i < b.len() && #[trigger] b[i] == a[k] as int;
            let j = choose|j: int| 0 <= j < a.len() && #[trigger] a[j] == b[k] as int;
            if i < k {
                assert(a[i] == b[i]);
                assert(draws_before(w, a[i] as int, a[k] as int));
            }
            if j < k {
                assert(b[j] == a[j]);
                assert(draws_before(w, b[j] as int, b[k] as int));
            }
            assert(draws_before(w, b[k] as int, b[i] as int));
            assert(draws_before(w, a[k] as int, a[j] as int));
            assert(false);
        }
        render_orders_agree(w, a, b, k + 1);
    }
}

/// A render order that agrees with another at every index that both
/// have is no longer than the other.
proof fn render_order_is_no_longer(w: WorldState, a: Seq<EntityId>, b: Seq<EntityId>)
    requires
        is_render_order(w, a),
        is_render_order(w, b),
        forall|i: int| 0 <= i < a.len() && i < b.len() ==> a[i] == b[i],
    ensures
        b.len() <= a.len(),
{
    if a.len() < b.len() {
        let extra = b[a.len() as int];
        assert(drawable(w, extra as int));
        let i = choose|i: int| 0 <= i < a.len() && #[trigger] a[i] == extra as int;
        assert(b[i] == a[i]);
        assert(draws_before(w, b[i] as int, b[a.len() as int] as int));
    }
}

/// The order of pairs: by the first part, and by the second where the
/// first parts are equal.
pub open spec fn pair_le(a: (u8, usize), b: (u8, usize)) -> bool {
    a.0 < b.0 || (a.0 == b.0 && a.1 <= b.1)
}

/// `Itertools::sorted` on pairs of integers: the result holds the items
/// of `items`, each as often as `items` does, in ascending order.
#[verifier::external_body]
fn sorted_pairs(items: Vec<(u8, usize)>) -> (sorted: Vec<(u8, usize)>)
    ensures
        sorted@.to_multiset() == items@.to_multiset(),
        forall|i: int, j: int| 0 <= i < j < sorted@.len() ==> pair_le(sorted@[i], sorted@[j]),
{
    items.into_iter().sorted().collect()
}

/// The entities to draw, in the order in which to draw them.
pub fn render_order(world: &World) -> (order: Vec<EntityId>)
    ensures
        is_render_order(world@, order@),
{
    let ghost w = world@;
    let mut items: Vec<(u8, usize)> = Vec::new();
    let n = world.len();
    let mut id: usize = 0;
    while id < n
        invariant
            id <= n,
            n == w.entities.len(),
            w == world@,
            forall|k: int|
                0 <= k < items@.len() ==> {
                    &&& (#[trigger] items@[k]).1 < id
                    &&& drawable(w, items@[k].1 as int)
                    &&& items@[k].0 == layer(w, items@[k].1 as int)
                },
            forall|e: int|
                0 <= e < id && drawable(w, e) ==> exists|k: int|
                    0 <= k < items@.len() && (#[trigger] items@[k]).1 == e,
            items@.no_duplicates(),
        decreases n - id,
    {
        match world.entities[id].position {
            Some(p) => {
                if world.entities[id].renderable.is_some() {
                    let ghost before = items@;
                    items.push((p.z, id));
                    assert forall|e: int| 0 <= e < id + 1 && drawable(w, e) implies exists|k: int|
                        0 <= k < items@.len() && (#[trigger] items@[k]).1 == e by {
                        if e < id {
                            let k = choose|k: int|
                                0 <= k < before.len() && (#[trigger] before[k]).1 == e;
                            assert(items@[k].1 == e);
                        } else {
                            assert(items@[before.len() as int].1 == e);
                        }
                    }
                }
            },
            None => {},
        }
        id += 1;
    }
    let sorted = sorted_pairs(items);
    proof {
        items@.to_multiset_ensures();
        sorted@.to_multiset_ensures();
        items@.lemma_multiset_has_no_duplicates();
        sorted@.lemma_multiset_has_no_duplicates_conv();
        assert forall|k: int| 0 <= k < sorted@.len() implies {
            &&& drawable(w, (#[trigger] sorted@[k]).1 as int)
            &&& sorted@[k].0 == layer(w, sorted@[k].1 as int)
        } by {
            assert(sorted@.contains(sorted@[k]));
            assert(sorted@.to_multiset().count(sorted@[k]) > 0);
            assert(items@.to_multiset().count(sorted@[k]) > 0);
            assert(items@.contains(sorted@[k]));
            let j = choose|j: int| 0 <= j < items@.len() && items@[j] == sorted@[k];
            assert(items@[j].1 < n);
        }
    }
    let mut order: Vec<EntityId> = Vec::new();
    let mut k: usize = 0;
    while k < sorted.len()
        invariant
            k <= sorted.len(),
            order@.len() == k,
            forall|j: int| 0 <= j < k ==> (#[trigger] order@[j]) == sorted@[j].1,
        decreases sorted.len() - k,
    {
        order.push(sorted[k].1);
        k += 1;
    }
    proof {
        assert forall|e: int| #[trigger] drawable(w, e) implies exists|k: int|
            0 <= k < order@.len() && #[trigger] order@[k] == e by {
            let j = choose|j: int| 0 <= j < items@.len() && (#[trigger] items@[j]).1 == e;
            assert(items@.contains(items@[j]));
            assert(items@.to_multiset().count(items@[j]) > 0);
            assert(sorted@.to_multiset().count(items@[j]) > 0);
            assert(sorted@.contains(items@[j]));
            let k = choose|k: int| 0 <= k < sorted@.len() && sorted@[k] == items@[j];
            assert(order@[k] == e);
        }
        assert forall|i: int, j: int| 0 <= i < j < order@.len() implies draws_before(
            w,
            #[trigger] order@[i] as int,
            #[trigger] order@[j] as int,
        ) by {
            assert(pair_le(sorted@[i], sorted@[j]));
            assert(sorted@[i] != sorted@[j]);
        }
    }
    order
}

/// One image to draw, and where.
#[derive(Debug)]
pub struct Sprite {
    /// The entity that the sprite shows.
    pub entity: EntityId,
    pub position: Position,
    pub image_path: String,
}

/// The entities that `sprites` show, in the order of the sprites.
pub open spec fn shown(sprites: Seq<Sprite>) -> Seq<EntityId> {
    Seq::new(sprites.len(), |k: int| sprites[k].entity)
}

/// What to draw right now: the sprite of each entity that has a position
/// and a renderable, in drawing order, each with the image of the moment.
pub fn run_rendering(world: &World) -> (sprites: Vec<Sprite>)
    requires
        world@.renderables_valid(),
    ensures
        is_render_order(world@, shown(sprites@)),
        forall|k: int|
            0 <= k < sprites@.len() ==> {
                let e = world@.entities[(#[trigger] sprites@[k]).entity as int];
                &&& sprites@[k].position == e.position->0
                &&& sprites@[k].image_path@ == image_of(e.renderable->0, world@.millis)
            },
{
    let order = render_order(world);
    let mut sprites: Vec<Sprite> = Vec::new();
    let mut k: usize = 0;
    while k < order.len()
        invariant
            k <= order.len(),
            is_render_order(world@, order@),
            world@.renderables_valid(),
            sprites@.len() == k,
            forall|j: int|
                0 <= j < k ==> {
                    let e = world@.entities[order@[j] as int];
                    &&& (#[trigger] sprites@[j]).entity == order@[j]
                    &&& sprites@[j].position == e.position->0
                    &&& sprites@[j].image_path@ == image_of(e.renderable->0, world@.millis)
                },
        decreases order.len() - k,
    {
        let id = order[k];
        assert(drawable(world@, order@[k as int] as int));
        let ghost _e = world@.entities[id as int];
        match (world.entities[id].position, &world.entities[id].renderable) {
            (Some(position), Some(renderable)) => {
                let image_path = get_image(renderable, world.time.delta);
                sprites.push(Sprite { entity: id, position, image_path });
            },
            _ => {
                assert(false);
            },
        }
        k += 1;
    }
    proof {
        assert(shown(sprites@) =~= order@);
    }
    sprites
}

/// The rendering readout as a phase of the tick.
#[derive(Clone, Copy, Debug)]
pub struct RenderingSystem {}

impl RenderingSystem {
    /// The image that shows `renderable` when the game has run for `delta`.
    pub fn get_image(&mut self, renderable: &Renderable, delta: Duration) -> (path: String)
        requires
            renderable.is_valid(),
        ensures
            path@ == image_of(renderable@, duration_millis(delta)),
    {
        get_image(renderable, delta)
    }

    /// What to draw right now, in drawing order.
    pub fn run(&mut self, world: &World) -> (sprites: Vec<Sprite>)
        requires
            world@.renderables_valid(),
        ensures
            is_render_order(world@, shown(sprites@)),
            forall|k: int|
                0 <= k < sprites@.len() ==> {
                    let e = world@.entities[(#[trigger] sprites@[k]).entity as int];
                    &&& sprites@[k].position == e.position->0
                    &&& sprites@[k].image_path@ == image_of(e.renderable->0, world@.millis)
                },
    {
        run_rendering(world)
    }
}

} // verus!
