//! Loading: clearing what must not survive, applying a scene, mending references.

use vstd::prelude::*;
use crate::entity::{copy_components, holds_kind, Component, Entity};
use crate::loaded::Loaded;
use crate::request::Request;
use crate::save::Scene;
use crate::store::{
    dead_meta, has_one_per_kind, lemma_same_slots_wf, next_generation, one_per_kind, LoadState,
    Meta, Store,
};

verus! {

/// Slot `j` of `post` is empty if it was chosen, and as in `pre` if not.
pub open spec fn slot_cleared(post: Store, pre: Store, chosen: Seq<bool>, j: int) -> bool {
    if chosen[j] {
        post.meta@[j] == dead_meta(pre.meta@[j].generation) && post.components@[j]@
            == Seq::<Component>::empty()
    } else {
        post.same_slot(pre, j)
    }
}

/// Empties the chosen slots.
fn clear_slots(store: &mut Store, chosen: &Vec<bool>)
    requires
        chosen@.len() == old(store).slots(),
        old(store).components@.len() == old(store).slots(),
    ensures
        final(store).slots() == old(store).slots(),
        final(store).components@.len() == old(store).slots(),
        final(store).same_rest(*old(store)),
        forall|j: int|
            0 <= j < old(store).slots() ==> #[trigger] slot_cleared(
                *final(store),
                *old(store),
                chosen@,
                j,
            ),
{
    let n = store.meta.len();
    let mut i: usize = 0;
    while i < n
        invariant
            i <= n,
            n == old(store).slots(),
            store.meta@.len() == n,
            store.components@.len() == n,
            chosen@.len() == n,
            forall|j: int|
                0 <= j < i ==> #[trigger] slot_cleared(*store, *old(store), chosen@, j),
            forall|j: int| i <= j < n ==> #[trigger] store.same_slot(*old(store), j),
            store.same_rest(*old(store)),
        decreases n - i,
    {
        let ghost before = *store;
        if chosen[i] {
            let generation = store.meta[i].generation;
            assert(before.same_slot(*old(store), i as int));
            store.meta.set(
                i,
                Meta {
                    generation,
                    alive: false,
                    save: false,
                    unload: false,
                    restored: None,
                    parent: None,
                    depth: 0,
                },
            );
            store.components.set(i, Vec::new());
        }
        proof {
            assert forall|j: int| 0 <= j < i + 1 implies #[trigger] slot_cleared(
                *store,
                *old(store),
                chosen@,
                j,
            ) by {
                if j < i {
                    assert(slot_cleared(before, *old(store), chosen@, j));
                } else {
                    assert(before.same_slot(*old(store), j));
                }
            }
            assert forall|j: int| i + 1 <= j < n implies #[trigger] store.same_slot(
                *old(store),
                j,
            ) by {
                assert(before.same_slot(*old(store), j));
            }
        }
        i += 1;
    }
}

/// Despawns every entity marked to be saved or unloaded, with all that it contains.
/// Every other entity stays as it is.
pub fn unload_world(store: &mut Store)
    requires
        old(store).wf(),
    ensures
        final(store).wf(),
        final(store).unloaded_from(*old(store)),
{
    let n = store.meta.len();
    let mut flags: Vec<bool> = Vec::new();
    let mut i: usize = 0;
    while i < n
        invariant
            i <= n,
            n == store.slots(),
            *store == *old(store),
            store.wf(),
            flags@.len() == i,
            forall|j: int| 0 <= j < i ==> #[trigger] flags@[j] == store.doomed(j),
        decreases n - i,
    {
        let d = store.is_doomed(i);
        flags.push(d);
        i += 1;
    }
    clear_slots(store, &flags);
    proof {
        assert forall|j: int| 0 <= j < old(store).slots() implies #[trigger] store.slot_unloaded(
            *old(store),
            j,
        ) by {
            assert(slot_cleared(*store, *old(store), flags@, j));
        }
        assert forall|j: int| 0 <= j < store.slots() implies #[trigger] store.link_ok(j) by {
            assert(store.slot_unloaded(*old(store), j));
            assert(old(store).link_ok(j));
            if !old(store).doomed(j) && old(store).meta@[j].alive {
                match old(store).meta@[j].parent {
                    Some(p) => {
                        assert(store.slot_unloaded(*old(store), p as int));
                    },
                    None => {},
                }
            }
        }
    }
}

/// `post` is `pre` after the entity in slot `root` was despawned with all that it
/// contains: their slots are empty, every other slot is as it was.
pub open spec fn despawned_from(post: Store, pre: Store, root: int) -> bool {
    &&& post.slots() == pre.slots()
    &&& post.components@.len() == pre.components@.len()
    &&& forall|j: int|
        #![trigger pre.within(j, root)]
        #![trigger post.meta@[j]]
        #![trigger post.components@[j]]
        0 <= j < pre.slots() ==> if pre.within(j, root) {
            post.meta@[j] == dead_meta(pre.meta@[j].generation) && post.components@[j]@
                == Seq::<Component>::empty()
        } else {
            post.same_slot(pre, j)
        }
    &&& post.same_rest(pre)
}

/// Despawns `entity` with all that it contains, whatever their markers are. Does
/// nothing, and says so, when `entity` is not alive.
pub fn despawn_recursive(store: &mut Store, entity: Entity) -> (done: bool)
    requires
        old(store).wf(),
    ensures
        final(store).wf(),
        done == old(store).has(entity),
        done ==> despawned_from(*final(store), *old(store), entity.index as int),
        !done ==> *final(store) == *old(store),
{
    if !store.contains(entity) {
        return false;
    }
    let root = entity.index as usize;
    let n = store.meta.len();
    let mut flags: Vec<bool> = Vec::new();
    let mut i: usize = 0;
    while i < n
        invariant
            i <= n,
            n == store.slots(),
            root < n,
            *store == *old(store),
            store.wf(),
            flags@.len() == i,
            forall|j: int| 0 <= j < i ==> #[trigger] flags@[j] == store.within(j, root as int),
        decreases n - i,
    {
        let inside = store.is_within(i, root);
        flags.push(inside);
        i += 1;
    }
    clear_slots(store, &flags);
    proof {
        assert forall|j: int| 0 <= j < old(store).slots() implies if #[trigger] old(store).within(
            j,
            root as int,
        ) {
            store.meta@[j] == dead_meta(old(store).meta@[j].generation) && store.components@[j]@
                == Seq::<Component>::empty()
        } else {
            store.same_slot(*old(store), j)
        } by {
            assert(slot_cleared(*store, *old(store), flags@, j));
        }
        assert forall|j: int| 0 <= j < store.slots() implies #[trigger] store.link_ok(j) by {
            assert(slot_cleared(*store, *old(store), flags@, j));
            assert(old(store).link_ok(j));
            if !old(store).within(j, root as int) && old(store).meta@[j].alive {
                match old(store).meta@[j].parent {
                    Some(p) => {
                        assert(slot_cleared(*store, *old(store), flags@, p as int));
                    },
                    None => {},
                }
            }
        }
    }
    true
}

/// Why a load was given up.
#[derive(Clone, Copy, Debug, PartialEq, Eq, Structural)]
pub enum LoadError {
    /// The file could not be opened or read.
    Io,
    /// The bytes are not a scene, or the scene holds an index twice or gives an entity
    /// two components of one kind.
    Format,
    /// The scene holds a component of a kind that is not registered.
    Schema,
    /// The store has no room for the entities of the scene.
    StoreFull,
}

/// The state of a slot right after a load created an entity in it: marked to be saved,
/// and tagged with the index it was saved under.
pub open spec fn restored_meta(generation: u32, saved: u32) -> Meta {
    Meta {
        generation,
        alive: true,
        save: true,
        unload: false,
        restored: Some(saved),
        parent: None,
        depth: 0,
    }
}

/// The mapping that the first `n` entries of a scene give: each saved index maps to the
/// entity created for it.
pub open spec fn mapping(scene: Seq<(u32, Seq<Component>)>, created: Seq<Entity>, n: int) -> Map<
    u32,
    Entity,
>
    decreases n,
{
    if n <= 0 {
        Map::empty()
    } else {
        mapping(scene, created, n - 1).insert(scene[n - 1].0, created[n - 1])
    }
}

/// Every component of the scene is of a registered kind.
pub open spec fn scene_known(scene: Seq<(u32, Seq<Component>)>, kinds: Seq<u32>) -> bool {
    forall|a: int, b: int|
        0 <= a < scene.len() && 0 <= b < scene[a].1.len() ==> kinds.contains(
            (#[trigger] scene[a].1[b]).kind,
        )
}

/// No two entries of the scene have one index, and no entry holds two components of
/// one kind.
pub open spec fn scene_well_formed(scene: Seq<(u32, Seq<Component>)>) -> bool {
    &&& forall|a: int| 0 <= a < scene.len() ==> one_per_kind((#[trigger] scene[a]).1)
    &&& forall|a: int, b: int|
        0 <= a < b < scene.len() ==> (#[trigger] scene[a]).0 != (#[trigger] scene[b]).0
}

/// Whether no two entries of the scene have one index and no entry holds two components
/// of one kind.
pub fn scene_is_well_formed(scene: &Scene) -> (yes: bool)
    ensures
        yes == scene_well_formed(scene@),
{
    let mut b: usize = 0;
    while b < scene.entities.len()
        invariant
            b <= scene.entities@.len(),
            forall|x: int| 0 <= x < b ==> one_per_kind((#[trigger] scene@[x]).1),
            forall|x: int, y: int|
                0 <= x < y < b ==> (#[trigger] scene@[x]).0 != (#[trigger] scene@[y]).0,
        decreases scene.entities.len() - b,
    {
        assert(scene@[b as int] == (scene.entities@[b as int].index, scene.entities@[b as int].components@));
        if !has_one_per_kind(&scene.entities[b].components) {
            return false;
        }
        let mut a: usize = 0;
        while a < b
            invariant
                a <= b,
                b < scene.entities@.len(),
                forall|x: int| 0 <= x < a ==> (#[trigger] scene@[x]).0 != scene@[b as int].0,
            decreases b - a,
        {
            assert(scene@[a as int].0 == scene.entities@[a as int].index);
            if scene.entities[a].index == scene.entities[b].index {
                assert(scene@[a as int].0 == scene@[b as int].0);
                return false;
            }
            a += 1;
        }
        b += 1;
    }
    true
}

/// An entity that lived in slot `j` of `pre` lives on in `post`, unchanged.
pub open spec fn survives(post: Store, pre: Store, j: int) -> bool {
    pre.meta@[j].alive ==> post.same_slot(pre, j)
}

/// The entity created for entry `a` of the scene is alive in `post`, in the lowest slot
/// that was free when its turn came, under the generation that follows that of the
/// slot; it holds the entry's components, is marked to be saved, and is tagged with the
/// entry's index.
pub open spec fn created_ok(
    post: Store,
    pre: Store,
    scene: Seq<(u32, Seq<Component>)>,
    created: Seq<Entity>,
    a: int,
) -> bool {
    let c = created[a];
    &&& (c.index as int) < post.slots()
    &&& post.meta@[c.index as int] == restored_meta(c.generation, scene[a].0)
    &&& post.components@[c.index as int]@ == scene[a].1
    &&& (c.index as int) < pre.slots() ==> !pre.meta@[c.index as int].alive && c.generation
        == next_generation(pre.meta@[c.index as int].generation)
    &&& (c.index as int) >= pre.slots() ==> c.generation == 0
    &&& forall|j: int| 0 <= j < c.index ==> #[trigger] taken_before(pre, created, a, j)
}

/// Slot `j` is not free when entry `a` of the scene gets its entity: it held an entity
/// in `pre`, or the entity of an earlier entry lives in it.
pub open spec fn taken_before(pre: Store, created: Seq<Entity>, a: int, j: int) -> bool {
    (j < pre.slots() && pre.meta@[j].alive) || exists|b: int|
        0 <= b < a && (#[trigger] created[b]).index == j
}

/// Slot `j` held an entity in `pre`, or one of `created` lives in it.
pub open spec fn accounted(pre: Store, created: Seq<Entity>, j: int) -> bool {
    (j < pre.slots() && pre.meta@[j].alive) || exists|a: int|
        0 <= a < created.len() && (#[trigger] created[a]).index == j
}

/// `post` is `pre` after the scene was applied: the entities of `pre` are untouched, one
/// new entity stands for each entry of the scene, nothing else is alive, and the mapping
/// of the store is that of the scene.
pub open spec fn applied_from(
    post: Store,
    pre: Store,
    scene: Seq<(u32, Seq<Component>)>,
    created: Seq<Entity>,
) -> bool {
    &&& created.len() == scene.len()
    &&& post.slots() >= pre.slots()
    &&& forall|j: int|
        #![trigger survives(post, pre, j)]
        #![trigger post.meta@[j]]
        #![trigger post.components@[j]]
        0 <= j < pre.slots() ==> survives(post, pre, j)
    &&& forall|a: int|
        #![trigger created_ok(post, pre, scene, created, a)]
        #![trigger created[a]]
        0 <= a < created.len() ==> created_ok(post, pre, scene, created, a)
    &&& forall|a: int, b: int|
        0 <= a < b < created.len() ==> (#[trigger] created[a]).index != (#[trigger] created[b]).index
    &&& forall|j: int|
        0 <= j < post.slots() && (#[trigger] post.meta@[j]).alive ==> accounted(pre, created, j)
    &&& post.loaded is Some
    &&& post.loaded->0@ == mapping(scene, created, scene.len() as int)
    &&& post.same_registry(pre)
}

/// The mapping of the first `n` entries looks at no later entity.
pub proof fn lemma_mapping_prefix(
    scene: Seq<(u32, Seq<Component>)>,
    first: Seq<Entity>,
    second: Seq<Entity>,
    n: int,
)
    requires
        n <= first.len(),
        n <= second.len(),
        forall|a: int| 0 <= a < n ==> first[a] == second[a],
    ensures
        mapping(scene, first, n) == mapping(scene, second, n),
    decreases n,
{
    if n > 0 {
        lemma_mapping_prefix(scene, first, second, n - 1);
    }
}

/// Whether every component of the scene is of a registered kind.
pub fn scene_is_known(scene: &Scene, kinds: &Vec<u32>) -> (known: bool)
    ensures
        known == scene_known(scene@, kinds@),
{
    let mut a: usize = 0;
    while a < scene.entities.len()
        invariant
            a <= scene.entities@.len(),
            forall|x: int, y: int|
                0 <= x < a && 0 <= y < scene@[x].1.len() ==> kinds@.contains(
                    (#[trigger] scene@[x].1[y]).kind,
                ),
        decreases scene.entities.len() - a,
    {
        let list = &scene.entities[a].components;
        assert(list@ == scene@[a as int].1);
        let mut b: usize = 0;
        while b < list.len()
            invariant
                b <= list.len(),
                a < scene.entities@.len(),
                list@ == scene@[a as int].1,
                forall|y: int| 0 <= y < b ==> kinds@.contains((#[trigger] list@[y]).kind),
            decreases list.len() - b,
        {
            if !holds_kind(kinds, list[b].kind) {
                assert(!kinds@.contains(scene@[a as int].1[b as int].kind));
                return false;
            }
            b += 1;
        }
        a += 1;
    }
    true
}

/// Creates one entity for each entry of the scene and records the mapping.
pub(crate) fn apply_scene(store: &mut Store, scene: &Scene) -> (created: Vec<Entity>)
    requires
        old(store).wf(),
        old(store).slots() + scene@.len() <= u32::MAX,
        scene_well_formed(scene@),
    ensures
        final(store).wf(),
        final(store).state == old(store).state,
        applied_from(*final(store), *old(store), scene@, created@),
{
    let ghost pre = *store;
    let mut created: Vec<Entity> = Vec::new();
    let mut loaded = Loaded::empty();
    let mut k: usize = 0;
    while k < scene.entities.len()
        invariant
            k <= scene.entities@.len(),
            scene@.len() == scene.entities@.len(),
            scene_well_formed(scene@),
            store.wf(),
            pre.slots() <= store.slots() <= pre.slots() + k,
            pre.slots() + scene@.len() <= u32::MAX,
            created@.len() == k,
            forall|j: int| 0 <= j < pre.slots() ==> #[trigger] survives(*store, pre, j),
            forall|a: int| 0 <= a < k ==> #[trigger] created_ok(*store, pre, scene@, created@, a),
            forall|a: int, b: int|
                0 <= a < b < k ==> (#[trigger] created@[a]).index != (#[trigger] created@[b]).index,
            forall|j: int|
                0 <= j < store.slots() && (#[trigger] store.meta@[j]).alive ==> accounted(
                    pre,
                    created@,
                    j,
                ),
            forall|j: int|
                0 <= j < pre.slots() && !(#[trigger] store.meta@[j]).alive ==> store.meta@[j]
                    == pre.meta@[j],
            forall|j: int| pre.slots() <= j < store.slots() ==> (#[trigger] store.meta@[j]).alive,
            loaded@ == mapping(scene@, created@, k as int),
            store.same_registry(pre),
            store.loaded == pre.loaded,
            store.state == pre.state,
        decreases scene.entities.len() - k,
    {
        let ghost s0 = *store;
        let ghost c0 = created@;
        let spawned = store.spawn_in(None, 0);
        let e = match spawned {
            Some(e) => e,
            None => unreached(),
        };
        let ghost s1 = *store;
        let entry = &scene.entities[k];
        let list = copy_components(&entry.components);
        assert(scene@[k as int] == (entry.index, entry.components@));
        store.set_components(e.index as usize, list);
        let ghost s2 = *store;
        store.set_meta(
            e.index as usize,
            Meta {
                generation: e.generation,
                alive: true,
                save: true,
                unload: false,
                restored: Some(entry.index),
                parent: None,
                depth: 0,
            },
        );
        loaded.record(entry.index, e);
        created.push(e);
        proof {
            let i = e.index as int;
            assert(scene@[k as int] == (entry.index, entry.components@));
            assert forall|j: int| 0 <= j < s0.slots() && j != i implies store.same_slot(s0, j) by {
                assert(s1.same_slot(s0, j));
                assert(s2.same_slot(s1, j));
            }
            assert forall|j: int| 0 <= j < pre.slots() implies #[trigger] survives(
                *store,
                pre,
                j,
            ) by {
                assert(survives(s0, pre, j));
                if pre.meta@[j].alive {
                    assert(s0.same_slot(pre, j));
                    assert(j != i);
                    assert(store.same_slot(s0, j));
                }
            }
            assert(i < pre.slots() ==> !pre.meta@[i].alive) by {
                if i < pre.slots() {
                    assert(survives(s0, pre, i));
                }
            }
            assert forall|j: int|
                0 <= j < pre.slots() && !(#[trigger] store.meta@[j]).alive implies store.meta@[j]
                == pre.meta@[j] by {
                assert(j != i);
                assert(store.same_slot(s0, j));
            }
            assert forall|j: int| pre.slots() <= j < store.slots() implies (
            #[trigger] store.meta@[j]).alive by {
                if j != i {
                    assert(j < s0.slots());
                    assert(store.same_slot(s0, j));
                }
            }
            assert forall|a: int| 0 <= a < k + 1 implies #[trigger] created_ok(
                *store,
                pre,
                scene@,
                created@,
                a,
            ) by {
                if a < k {
                    assert(created_ok(s0, pre, scene@, c0, a));
                    assert(created@[a] == c0[a]);
                    assert(c0[a].index as int != i);
                    assert(store.same_slot(s0, c0[a].index as int));
                    assert forall|j: int| 0 <= j < created@[a].index implies #[trigger] taken_before(
                        pre,
                        created@,
                        a,
                        j,
                    ) by {
                        assert(taken_before(pre, c0, a, j));
                        if !(j < pre.slots() && pre.meta@[j].alive) {
                            let b = choose|b: int| 0 <= b < a && (#[trigger] c0[b]).index == j;
                            assert(created@[b].index == j);
                        }
                    }
                } else {
                    assert forall|j: int| 0 <= j < i implies #[trigger] taken_before(
                        pre,
                        created@,
                        a,
                        j,
                    ) by {
                        assert(s0.meta@[j].alive);
                        assert(accounted(pre, c0, j));
                        if !(j < pre.slots() && pre.meta@[j].alive) {
                            let b = choose|b: int|
                                0 <= b < c0.len() && (#[trigger] c0[b]).index == j;
                            assert(created@[b].index == j);
                        }
                    }
                    assert(created@[a] == e);
                    assert(store.meta@[i] == restored_meta(e.generation, entry.index));
                    assert(s2.components@[i]@ == entry.components@);
                }
            }
            assert forall|a: int, b: int| 0 <= a < b < k + 1 implies (#[trigger] created@[a]).index
                != (#[trigger] created@[b]).index by {
                assert(created@[a] == c0[a]);
                if b < k {
                    assert(created@[b] == c0[b]);
                } else {
                    assert(created_ok(s0, pre, scene@, c0, a));
                }
            }
            assert forall|j: int|
                0 <= j < store.slots() && (#[trigger] store.meta@[j]).alive implies accounted(
                pre,
                created@,
                j,
            ) by {
                if j == i {
                    assert(created@[k as int].index == j);
                } else {
                    assert(j < s0.slots());
                    assert(store.same_slot(s0, j));
                    assert(accounted(pre, c0, j));
                    if !(j < pre.slots() && pre.meta@[j].alive) {
                        let a = choose|a: int| 0 <= a < c0.len() && (#[trigger] c0[a]).index == j;
                        assert(created@[a].index == j);
                    }
                }
            }
            lemma_mapping_prefix(scene@, c0, created@, k as int);
        }
        k += 1;
    }
    let ghost last = *store;
    store.loaded = Some(loaded);
    proof {
        assert forall|j: int| 0 <= j < store.slots() implies #[trigger] store.link_ok(j) by {
            assert(last.link_ok(j));
        }
        assert forall|j: int| 0 <= j < pre.slots() implies #[trigger] survives(*store, pre, j) by {
            assert(survives(last, pre, j));
        }
        assert forall|a: int| 0 <= a < created@.len() implies #[trigger] created_ok(
            *store,
            pre,
            scene@,
            created@,
            a,
        ) by {
            assert(created_ok(last, pre, scene@, created@, a));
        }
    }
    created
}

/// Loads a scene: despawns every entity marked to be saved or unloaded, with all that it
/// contains, then creates one entity for each entry of the scene, marked to be saved and
/// tagged with the index it was saved under, and keeps the mapping from those indices to
/// the new entities. Returns the new entities in the order of the scene.
///
/// The load is given up after the despawning when two entries of the scene have one
/// index or an entry holds two components of one kind, when the scene holds a component
/// of an unregistered kind, or when the store cannot take that many entities.
pub fn load_world(store: &mut Store, scene: Scene) -> (result: Result<Vec<Entity>, LoadError>)
    requires
        old(store).wf(),
    ensures
        final(store).wf(),
        match result {
            Ok(created) => {
                &&& scene_well_formed(scene@)
                &&& scene_known(scene@, old(store).serializable@)
                &&& old(store).slots() + scene@.len() <= u32::MAX
                &&& final(store).state == LoadState::AwaitingFixup
                &&& exists|mid: Store|
                    mid.wf() && #[trigger] mid.cleared_from(*old(store)) && applied_from(
                        *final(store),
                        mid,
                        scene@,
                        created@,
                    )
            },
            Err(error) => {
                &&& final(store).cleared_from(*old(store))
                &&& final(store).loaded == old(store).loaded
                &&& final(store).state == LoadState::Idle
                &&& error == (if !scene_well_formed(scene@) {
                    LoadError::Format
                } else if !scene_known(scene@, old(store).serializable@) {
                    LoadError::Schema
                } else {
                    LoadError::StoreFull
                })
                &&& !scene_well_formed(scene@) || !scene_known(scene@, old(store).serializable@)
                    || old(store).slots() + scene@.len() > u32::MAX
            },
        },
{
    unload_world(store);
    let ghost cleared = *store;
    if !scene_is_well_formed(&scene) {
        store.state = LoadState::Idle;
        proof {
            lemma_state_only(*store, cleared, *old(store));
        }
        return Err(LoadError::Format);
    }
    if !scene_is_known(&scene, &store.serializable) {
        store.state = LoadState::Idle;
        proof {
            lemma_state_only(*store, cleared, *old(store));
        }
        return Err(LoadError::Schema);
    }
    if scene.entities.len() > u32::MAX as usize - store.meta.len() {
        store.state = LoadState::Idle;
        proof {
            lemma_state_only(*store, cleared, *old(store));
        }
        return Err(LoadError::StoreFull);
    }
    store.state = LoadState::Applying;
    proof {
        lemma_state_only(*store, cleared, *old(store));
    }
    let ghost mid = *store;
    let created = apply_scene(store, &scene);
    let ghost applied = *store;
    store.state = LoadState::AwaitingFixup;
    proof {
        assert forall|j: int| 0 <= j < store.slots() implies #[trigger] store.link_ok(j) by {
            assert(applied.link_ok(j));
        }
        assert forall|j: int| 0 <= j < mid.slots() implies #[trigger] survives(*store, mid, j) by {
            assert(survives(applied, mid, j));
        }
        assert forall|a: int| 0 <= a < created@.len() implies #[trigger] created_ok(
            *store,
            mid,
            scene@,
            created@,
            a,
        ) by {
            assert(created_ok(applied, mid, scene@, created@, a));
        }
        assert(mid.cleared_from(*old(store)));
    }
    Ok(created)
}

/// Starts a pending load: despawns every entity marked to be saved or unloaded, with all
/// that it contains, and returns the path of the file to read. The scene read from it
/// goes to [`load_world`]; a failure to read it goes to [`read_failed`]. Without a load
/// request nothing happens.
pub fn load(store: &mut Store) -> (path: Option<String>)
    requires
        old(store).wf(),
    ensures
        final(store).wf(),
        match old(store).request {
            Some(Request::Load { path: wanted }) => {
                &&& path == Some(wanted)
                &&& final(store).cleared_from(*old(store))
                &&& final(store).loaded == old(store).loaded
                &&& final(store).state == LoadState::Reading
            },
            _ => path is None && *final(store) == *old(store),
        },
{
    let path = match &store.request {
        Some(Request::Load { path }) => path.clone(),
        _ => {
            return None;
        },
    };
    store.state = LoadState::Unloading;
    proof {
        assert forall|j: int| 0 <= j < store.slots() implies #[trigger] store.link_ok(j) by {
            assert(old(store).link_ok(j));
        }
    }
    let ghost entered = *store;
    unload_world(store);
    let ghost cleared = *store;
    store.state = LoadState::Reading;
    proof {
        assert forall|j: int| 0 <= j < old(store).slots() implies #[trigger] entered.doomed(j)
            == old(store).doomed(j) by {
            lemma_doomed_by_meta(entered, *old(store), j);
        }
        lemma_state_only(*store, cleared, entered);
        assert forall|j: int| 0 <= j < old(store).slots() implies #[trigger] store.slot_unloaded(
            *old(store),
            j,
        ) by {
            assert(store.slot_unloaded(entered, j));
        }
    }
    Some(path)
}

/// Gives up a load whose file could not be read or understood. The entities that the
/// start of the load despawned stay despawned; nothing else changes.
pub fn read_failed(store: &mut Store)
    ensures
        final(store).state == LoadState::Idle,
        final(store).meta == old(store).meta,
        final(store).components == old(store).components,
        final(store).serializable == old(store).serializable,
        final(store).fixup == old(store).fixup,
        final(store).request == old(store).request,
        final(store).loaded == old(store).loaded,
        old(store).wf() ==> final(store).wf(),
{
    store.state = LoadState::Idle;
    proof {
        if old(store).wf() {
            lemma_same_slots_wf(*store, *old(store));
        }
    }
}

/// Which entities are doomed depends on the slots' state alone.
pub proof fn lemma_doomed_by_meta(first: Store, second: Store, j: int)
    requires
        first.meta@ == second.meta@,
    ensures
        first.doomed(j) == second.doomed(j),
    decreases
        (if 0 <= j < first.slots() {
            first.meta@[j].depth as int
        } else {
            0
        }),
{
    if 0 <= j < first.slots() && first.meta@[j].alive {
        match first.meta@[j].parent {
            Some(p) => {
                if (p as int) < first.slots() && first.meta@[p as int].depth < first.meta@[j].depth {
                    lemma_doomed_by_meta(first, second, p as int);
                }
            },
            None => {},
        }
    }
}

/// A store that differs from a cleared one in its load state only is cleared too.
proof fn lemma_state_only(now: Store, was: Store, pre: Store)
    requires
        was.wf(),
        was.unloaded_from(pre),
        now.meta == was.meta,
        now.components == was.components,
        now.serializable == was.serializable,
        now.fixup == was.fixup,
        now.request == was.request,
        now.loaded == was.loaded,
    ensures
        now.wf(),
        now.cleared_from(pre),
        now.loaded == pre.loaded,
{
    assert forall|j: int| 0 <= j < now.slots() implies #[trigger] now.link_ok(j) by {
        assert(was.link_ok(j));
    }
    assert forall|j: int| 0 <= j < pre.slots() implies #[trigger] now.slot_unloaded(pre, j) by {
        assert(was.slot_unloaded(pre, j));
    }
}

} // verus!
