//! Saving: choosing the entities and extracting them into a scene.

use vstd::prelude::*;
use crate::entity::{holds_kind, Component, Entity};
use crate::request::{Request, SaveMode};
use crate::store::Store;

verus! {

/// One entity of a scene: the index it had in the store it was taken from, and its
/// serializable components.
#[derive(Debug)]
pub struct SceneEntity {
    pub index: u32,
    pub components: Vec<Component>,
}

/// A detached capture of selected entities and their components.
#[derive(Debug)]
pub struct Scene {
    pub entities: Vec<SceneEntity>,
}

impl View for SceneEntity {
    type V = (u32, Seq<Component>);

    open spec fn view(&self) -> (u32, Seq<Component>) {
        (self.index, self.components@)
    }
}

impl View for Scene {
    type V = Seq<(u32, Seq<Component>)>;

    open spec fn view(&self) -> Seq<(u32, Seq<Component>)> {
        Seq::new(self.entities@.len(), |j: int| self.entities@[j]@)
    }
}

/// The components of `list` whose kind is among `kinds`, in their order.
pub open spec fn keep_kinds(list: Seq<Component>, kinds: Seq<u32>) -> Seq<Component>
    decreases list.len(),
{
    if list.len() == 0 {
        Seq::empty()
    } else if kinds.contains(list.last().kind) {
        keep_kinds(list.drop_last(), kinds).push(list.last())
    } else {
        keep_kinds(list.drop_last(), kinds)
    }
}

/// One of `entities` has the index `i`.
pub open spec fn lists_index(entities: Seq<Entity>, i: int) -> bool {
    exists|j: int| 0 <= j < entities.len() && (#[trigger] entities[j]).index == i
}

/// What extracting `entities` gives among the first `n` slots of `store`: one entry for
/// each slot whose index a listed entity has, by rising index, with the index and the
/// components of a serializable kind that the slot holds.
pub open spec fn extraction_upto(store: Store, entities: Seq<Entity>, n: int) -> Seq<
    (u32, Seq<Component>),
>
    decreases n,
{
    if n <= 0 {
        Seq::empty()
    } else if lists_index(entities, n - 1) {
        extraction_upto(store, entities, n - 1).push(
            ((n - 1) as u32, keep_kinds(store.components@[n - 1]@, store.serializable@)),
        )
    } else {
        extraction_upto(store, entities, n - 1)
    }
}

/// What extracting `entities` from `store` gives: one entry for each entity listed,
/// however often it is listed, by rising index.
pub open spec fn extraction(store: Store, entities: Seq<Entity>) -> Seq<(u32, Seq<Component>)> {
    extraction_upto(store, entities, store.slots())
}

/// What an extraction among the first `n` slots holds: each entry has the index of a
/// listed entity, below `n`, and the serializable components of that slot; the indices
/// rise strictly; and every listed index below `n` has an entry.
pub proof fn lemma_extraction(store: Store, entities: Seq<Entity>, n: int)
    requires
        0 <= n <= store.slots(),
        store.slots() <= u32::MAX,
    ensures
        forall|k: int|
            0 <= k < extraction_upto(store, entities, n).len() ==> {
                let entry = #[trigger] extraction_upto(store, entities, n)[k];
                &&& (entry.0 as int) < n
                &&& lists_index(entities, entry.0 as int)
                &&& entry.1 == keep_kinds(store.components@[entry.0 as int]@, store.serializable@)
            },
        forall|a: int, b: int|
            0 <= a < b < extraction_upto(store, entities, n).len() ==> (#[trigger] extraction_upto(
                store,
                entities,
                n,
            )[a]).0 < (#[trigger] extraction_upto(store, entities, n)[b]).0,
        forall|i: int|
            0 <= i < n && #[trigger] lists_index(entities, i) ==> exists|k: int|
                0 <= k < extraction_upto(store, entities, n).len() && (#[trigger] extraction_upto(
                    store,
                    entities,
                    n,
                )[k]).0 == i,
    decreases n,
{
    if n > 0 {
        lemma_extraction(store, entities, n - 1);
        let before = extraction_upto(store, entities, n - 1);
        let now = extraction_upto(store, entities, n);
        if lists_index(entities, n - 1) {
            assert(now[before.len() as int].0 == n - 1);
            assert forall|i: int| 0 <= i < n && #[trigger] lists_index(entities, i) implies exists|
                k: int,
            | 0 <= k < now.len() && (#[trigger] now[k]).0 == i by {
                if i < n - 1 {
                    let k = choose|k: int| 0 <= k < before.len() && (#[trigger] before[k]).0 == i;
                    assert(now[k].0 == i);
                } else {
                    assert(now[before.len() as int].0 == i);
                }
            }
        } else {
            assert(now == before);
        }
    }
}

/// The entities that a save in `mode` captures among the first `n` slots, by rising
/// index: all that are alive for a dump, else those marked to be saved.
pub open spec fn selected(store: Store, mode: SaveMode, n: int) -> Seq<Entity>
    decreases n,
{
    if n <= 0 {
        Seq::empty()
    } else {
        let m = store.meta@[n - 1];
        if m.alive && (mode == SaveMode::Dump || m.save) {
            selected(store, mode, n - 1).push(store.entity_at(n - 1))
        } else {
            selected(store, mode, n - 1)
        }
    }
}

/// The components of `list` that a scene may hold.
pub fn extract_components(list: &Vec<Component>, kinds: &Vec<u32>) -> (out: Vec<Component>)
    ensures
        out@ == keep_kinds(list@, kinds@),
{
    let mut out: Vec<Component> = Vec::new();
    let mut k: usize = 0;
    while k < list.len()
        invariant
            k <= list.len(),
            out@ == keep_kinds(list@.subrange(0, k as int), kinds@),
        decreases list.len() - k,
    {
        let c = list[k];
        proof {
            assert(list@.subrange(0, k + 1).drop_last() =~= list@.subrange(0, k as int));
            assert(list@.subrange(0, k + 1).last() == c);
        }
        if holds_kind(kinds, c.kind) {
            out.push(c);
        }
        k += 1;
    }
    assert(list@.subrange(0, list.len() as int) =~= list@);
    out
}

/// Whether one of `entities` has the index `i`.
pub fn lists(entities: &Vec<Entity>, i: u32) -> (yes: bool)
    ensures
        yes == lists_index(entities@, i as int),
{
    let mut j: usize = 0;
    while j < entities.len()
        invariant
            j <= entities.len(),
            forall|a: int| 0 <= a < j ==> (#[trigger] entities@[a]).index != i,
        decreases entities.len() - j,
    {
        if entities[j].index == i {
            return true;
        }
        j += 1;
    }
    false
}

/// Extracts `entities` from `store` into a scene: exactly those entities, one entry for
/// each however often it is listed, by rising index, each with exactly its components
/// of a serializable kind. The store is not changed.
pub fn save_world(store: &Store, entities: Vec<Entity>) -> (scene: Scene)
    requires
        store.wf(),
        forall|j: int| 0 <= j < entities@.len() ==> store.has(#[trigger] entities@[j]),
    ensures
        scene@ == extraction(*store, entities@),
        forall|i: u32|
            (exists|k: int| 0 <= k < scene@.len() && (#[trigger] scene@[k]).0 == i) <==> #[trigger]
            lists_index(entities@, i as int),
        forall|a: int, b: int|
            0 <= a < b < scene@.len() ==> (#[trigger] scene@[a]).0 < (#[trigger] scene@[b]).0,
        forall|k: int|
            0 <= k < scene@.len() ==> (#[trigger] scene@[k]).1 == keep_kinds(
                store.components@[scene@[k].0 as int]@,
                store.serializable@,
            ),
{
    let n = store.meta.len();
    let mut out: Vec<SceneEntity> = Vec::new();
    let mut i: usize = 0;
    while i < n
        invariant
            i <= n,
            n == store.slots(),
            store.wf(),
            out@.len() == extraction_upto(*store, entities@, i as int).len(),
            forall|a: int|
                0 <= a < out@.len() ==> (#[trigger] out@[a])@ == extraction_upto(
                    *store,
                    entities@,
                    i as int,
                )[a],
        decreases n - i,
    {
        if lists(&entities, i as u32) {
            let components = extract_components(&store.components[i], &store.serializable);
            out.push(SceneEntity { index: i as u32, components });
        }
        i += 1;
    }
    let scene = Scene { entities: out };
    proof {
        assert(scene@ =~= extraction(*store, entities@));
        lemma_extraction(*store, entities@, store.slots());
        assert forall|i: u32| #[trigger] lists_index(entities@, i as int) implies exists|k: int|
            0 <= k < scene@.len() && (#[trigger] scene@[k]).0 == i by {
            let j = choose|j: int| 0 <= j < entities@.len() && (#[trigger] entities@[j]).index == i;
            assert(store.has(entities@[j]));
        }
    }
    scene
}

/// The entities that a save in `mode` captures, by rising index.
pub fn select(store: &Store, mode: SaveMode) -> (chosen: Vec<Entity>)
    requires
        store.wf(),
    ensures
        chosen@ == selected(*store, mode, store.slots()),
        forall|j: int| 0 <= j < chosen@.len() ==> store.has(#[trigger] chosen@[j]),
{
    let mut chosen: Vec<Entity> = Vec::new();
    let mut i: usize = 0;
    while i < store.meta.len()
        invariant
            i <= store.slots(),
            store.wf(),
            chosen@ == selected(*store, mode, i as int),
            forall|j: int| 0 <= j < chosen@.len() ==> store.has(#[trigger] chosen@[j]),
        decreases store.slots() - i,
    {
        let m = store.meta[i];
        let dump = match mode {
            SaveMode::Dump => true,
            SaveMode::Filtered => false,
        };
        if m.alive && (dump || m.save) {
            chosen.push(Entity { index: i as u32, generation: m.generation });
        }
        i += 1;
    }
    chosen
}

/// A scene to be written to a path.
#[derive(Debug)]
pub struct SaveJob {
    pub path: String,
    pub scene: Scene,
}

/// Serves a pending save request: takes it out of the store and returns the path with
/// the scene to write there. The scene holds the entities marked to be saved, or every
/// entity for a dump. Without a save request nothing happens. Entities and components
/// are never changed.
pub fn save(store: &mut Store) -> (job: Option<SaveJob>)
    requires
        old(store).wf(),
    ensures
        final(store).wf(),
        final(store).same_slots(*old(store)),
        final(store).serializable@ == old(store).serializable@,
        final(store).fixup@ == old(store).fixup@,
        final(store).loaded == old(store).loaded,
        final(store).state == old(store).state,
        match old(store).request {
            Some(Request::Save { path, mode }) => {
                &&& final(store).request is None
                &&& job is Some
                &&& job->0.path == path
                &&& job->0.scene@ == extraction(
                    *old(store),
                    selected(*old(store), mode, old(store).slots()),
                )
            },
            _ => job is None && final(store).request == old(store).request,
        },
{
    let mode = match &store.request {
        Some(Request::Save { mode, .. }) => *mode,
        _ => {
            assert forall|j: int| 0 <= j < store.slots() implies #[trigger] store.same_slot(
                *old(store),
                j,
            ) by {}
            return None;
        },
    };
    let chosen = select(store, mode);
    let scene = save_world(store, chosen);
    let request = store.request.take();
    proof {
        assert forall|j: int| 0 <= j < store.slots() implies #[trigger] store.same_slot(
            *old(store),
            j,
        ) by {}
        assert forall|j: int| 0 <= j < store.slots() implies #[trigger] store.link_ok(j) by {
            assert(old(store).link_ok(j));
        }
    }
    match request {
        Some(Request::Save { path, .. }) => Some(SaveJob { path, scene }),
        _ => None,
    }
}

} // verus!
