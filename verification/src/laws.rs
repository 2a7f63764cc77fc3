//! What holds of saving, loading and mending taken together.

use vstd::prelude::*;
use crate::entity::{Component, Entity};
use crate::fixup::{
    finished_from, fixed_from, live, mended, mended_from, mended_list, slot_mended, IntegrityFault,
};
use crate::load::{
    accounted, applied_from, created_ok, mapping, scene_known, scene_well_formed, survives,
};
use crate::request::SaveMode;
use crate::save::{extraction, keep_kinds, lemma_extraction, lists_index, selected};
use crate::store::{next_generation, one_per_kind, Save, Store};

verus! {

/// What a selection among the first `n` slots holds: each chosen entity is the live
/// entity of its slot and fits the mode; the indices rise strictly; and every live
/// entity that fits the mode is chosen.
pub proof fn lemma_selected(store: Store, mode: SaveMode, n: int)
    requires
        store.wf(),
        0 <= n <= store.slots(),
    ensures
        forall|k: int|
            0 <= k < selected(store, mode, n).len() ==> {
                let e = #[trigger] selected(store, mode, n)[k];
                &&& (e.index as int) < n
                &&& e == store.entity_at(e.index as int)
                &&& store.meta@[e.index as int].alive
                &&& (mode == SaveMode::Dump || store.meta@[e.index as int].save)
            },
        forall|a: int, b: int|
            0 <= a < b < selected(store, mode, n).len() ==> (#[trigger] selected(
                store,
                mode,
                n,
            )[a]).index < (#[trigger] selected(store, mode, n)[b]).index,
        forall|i: int|
            0 <= i < n && (#[trigger] store.meta@[i]).alive && (mode == SaveMode::Dump
                || store.meta@[i].save) ==> exists|k: int|
                0 <= k < selected(store, mode, n).len() && (#[trigger] selected(
                    store,
                    mode,
                    n,
                )[k]).index == i,
    decreases n,
{
    if n > 0 {
        lemma_selected(store, mode, n - 1);
        let before = selected(store, mode, n - 1);
        let now = selected(store, mode, n);
        let m = store.meta@[n - 1];
        if m.alive && (mode == SaveMode::Dump || m.save) {
            assert(now == before.push(store.entity_at(n - 1)));
            assert(now[before.len() as int].index == n - 1);
            assert forall|i: int|
                0 <= i < n && (#[trigger] store.meta@[i]).alive && (mode == SaveMode::Dump
                    || store.meta@[i].save) implies exists|k: int|
                0 <= k < now.len() && (#[trigger] now[k]).index == i by {
                if i < n - 1 {
                    let k = choose|k: int| 0 <= k < before.len() && (#[trigger] before[k]).index == i;
                    assert(now[k].index == i);
                } else {
                    assert(now[before.len() as int].index == i);
                }
            }
        } else {
            assert(now == before);
        }
    }
}

/// Where no two of the first `n` entries of a scene share an index, the mapping sends
/// the index of entry `k` to the entity created for entry `k`.
pub proof fn lemma_mapping_lookup(
    scene: Seq<(u32, Seq<Component>)>,
    created: Seq<Entity>,
    n: int,
    k: int,
)
    requires
        0 <= k < n <= scene.len(),
        forall|a: int, b: int| 0 <= a < b < n ==> (#[trigger] scene[a]).0 != (#[trigger] scene[b]).0,
    ensures
        mapping(scene, created, n).contains_key(scene[k].0),
        mapping(scene, created, n)[scene[k].0] == created[k],
    decreases n,
{
    if k < n - 1 {
        lemma_mapping_lookup(scene, created, n - 1, k);
        assert(scene[k].0 != scene[n - 1].0);
    }
}

/// The mapping of a load holds the indices of the scene and no others: nothing of an
/// earlier load is in it.
pub proof fn lemma_mapping_domain(scene: Seq<(u32, Seq<Component>)>, created: Seq<Entity>, n: int)
    requires
        0 <= n <= scene.len(),
    ensures
        forall|i: u32| #[trigger]
            mapping(scene, created, n).contains_key(i) <==> exists|k: int|
                0 <= k < n && (#[trigger] scene[k]).0 == i,
    decreases n,
{
    if n > 0 {
        lemma_mapping_domain(scene, created, n - 1);
        assert forall|i: u32| #[trigger] mapping(scene, created, n).contains_key(i) implies exists|
            k: int,
        | 0 <= k < n && (#[trigger] scene[k]).0 == i by {
            if i == scene[n - 1].0 {
                assert(scene[n - 1].0 == i);
            } else {
                assert(mapping(scene, created, n - 1).contains_key(i));
                let k = choose|k: int| 0 <= k < n - 1 && (#[trigger] scene[k]).0 == i;
                assert(scene[k].0 == i);
            }
        }
        assert forall|i: u32| (exists|k: int| 0 <= k < n && (#[trigger] scene[k]).0 == i) implies #[trigger]
            mapping(scene, created, n).contains_key(i) by {
            let k = choose|k: int| 0 <= k < n && (#[trigger] scene[k]).0 == i;
            if k < n - 1 {
                assert(scene[k].0 == i);
                assert(mapping(scene, created, n - 1).contains_key(i));
            }
        }
    }
}

/// One entry for each entity of the scene. After a load the mapping sends the index of
/// every entry of the scene to the entity created for that entry.
pub proof fn every_entry_is_mapped(
    post: Store,
    pre: Store,
    scene: Seq<(u32, Seq<Component>)>,
    created: Seq<Entity>,
    k: int,
)
    requires
        scene_well_formed(scene),
        applied_from(post, pre, scene, created),
        0 <= k < scene.len(),
    ensures
        post.loaded is Some,
        post.loaded->0@.contains_key(scene[k].0),
        post.loaded->0@[scene[k].0] == created[k],
        post.has(created[k]),
{
    lemma_mapping_lookup(scene, created, scene.len() as int, k);
    assert(created_ok(post, pre, scene, created, k));
}

/// A list whose components are all of a kept kind is kept whole.
pub proof fn lemma_keep_all(list: Seq<Component>, kinds: Seq<u32>)
    requires
        forall|b: int| 0 <= b < list.len() ==> kinds.contains((#[trigger] list[b]).kind),
    ensures
        keep_kinds(list, kinds) == list,
    decreases list.len(),
{
    if list.len() > 0 {
        lemma_keep_all(list.drop_last(), kinds);
        assert(kinds.contains(list[list.len() - 1].kind));
        assert(list.drop_last().push(list.last()) =~= list);
    }
}

/// A component of a kept kind is among the kept ones.
pub proof fn lemma_kept_contains(list: Seq<Component>, kinds: Seq<u32>, p: int)
    requires
        0 <= p < list.len(),
        kinds.contains(list[p].kind),
    ensures
        keep_kinds(list, kinds).contains(list[p]),
    decreases list.len(),
{
    let kept = keep_kinds(list, kinds);
    if p == list.len() - 1 {
        assert(kept == keep_kinds(list.drop_last(), kinds).push(list.last()));
        assert(kept[kept.len() - 1] == list[p]);
    } else {
        lemma_kept_contains(list.drop_last(), kinds, p);
        let inner = keep_kinds(list.drop_last(), kinds);
        let q = choose|q: int| 0 <= q < inner.len() && inner[q] == list.drop_last()[p];
        if kinds.contains(list.last().kind) {
            assert(kept[q] == list[p]);
        } else {
            assert(kept[q] == list[p]);
        }
    }
}

/// Keeping the components of given kinds leaves components of the list, all of those
/// kinds, and no two of one kind if the list had no such two.
pub proof fn lemma_keep_kinds(list: Seq<Component>, kinds: Seq<u32>)
    ensures
        forall|a: int|
            0 <= a < keep_kinds(list, kinds).len() ==> kinds.contains(
                (#[trigger] keep_kinds(list, kinds)[a]).kind,
            ) && list.contains(keep_kinds(list, kinds)[a]),
        one_per_kind(list) ==> one_per_kind(keep_kinds(list, kinds)),
    decreases list.len(),
{
    if list.len() > 0 {
        let front = list.drop_last();
        lemma_keep_kinds(front, kinds);
        let kept = keep_kinds(front, kinds);
        assert forall|a: int| 0 <= a < kept.len() implies list.contains(#[trigger] kept[a]) by {
            let k = choose|k: int| 0 <= k < front.len() && front[k] == kept[a];
            assert(list[k] == kept[a]);
        }
        if kinds.contains(list.last().kind) {
            assert(list[list.len() - 1] == list.last());
        }
        if one_per_kind(list) {
            assert forall|a: int, b: int| 0 <= a < b < front.len() implies (#[trigger] front[a]).kind
                != (#[trigger] front[b]).kind by {
                assert(list[a].kind != list[b].kind);
            }
            assert forall|a: int| 0 <= a < kept.len() implies (#[trigger] kept[a]).kind
                != list.last().kind by {
                let k = choose|k: int| 0 <= k < front.len() && front[k] == kept[a];
                assert(list[k].kind != list[list.len() - 1].kind);
            }
        }
    }
}

/// A saved scene can be loaded. The scene that a save takes from a store, in either
/// mode, holds no index twice, gives no entity two components of one kind and holds
/// only components of the kinds that the store has registered as serializable: a load
/// into a store with these registrations is given up only for want of room.
pub proof fn saved_scene_loads(source: Store, mode: SaveMode)
    requires
        source.wf(),
    ensures
        scene_well_formed(extraction(source, selected(source, mode, source.slots()))),
        scene_known(
            extraction(source, selected(source, mode, source.slots())),
            source.serializable@,
        ),
{
    let chosen = selected(source, mode, source.slots());
    let scene = extraction(source, chosen);
    lemma_selected(source, mode, source.slots());
    lemma_extraction(source, chosen, source.slots());
    assert forall|a: int| 0 <= a < scene.len() implies one_per_kind((#[trigger] scene[a]).1) by {
        let i = scene[a].0 as int;
        let j = choose|j: int| 0 <= j < chosen.len() && (#[trigger] chosen[j]).index == i;
        assert(source.meta@[chosen[j].index as int].alive);
        assert(source.link_ok(i));
        lemma_keep_kinds(source.components@[i]@, source.serializable@);
    }
    assert forall|a: int, b: int|
        0 <= a < scene.len() && 0 <= b < scene[a].1.len() implies source.serializable@.contains(
        (#[trigger] scene[a].1[b]).kind,
    ) by {
        lemma_keep_kinds(source.components@[scene[a].0 as int]@, source.serializable@);
    }
    assert forall|a: int, b: int| 0 <= a < b < scene.len() implies (#[trigger] scene[a]).0 != (
    #[trigger] scene[b]).0 by {
        assert(scene[a].0 < scene[b].0);
    }
}

/// Round trip. Save a store in filtered mode and apply the scene to any store: every
/// entity of the first store that was marked to be saved has one entry in the mapping,
/// under its index, and the entity that the entry names is alive, marked to be saved,
/// tagged with that index, and holds the serializable components of the saved entity
/// with the same values, all of them if all were of a serializable kind.
pub proof fn round_trip(source: Store, before: Store, after: Store, created: Seq<Entity>, i: int)
    requires
        source.wf(),
        0 <= i < source.slots(),
        source.meta@[i].alive,
        source.meta@[i].save,
        applied_from(
            after,
            before,
            extraction(source, selected(source, SaveMode::Filtered, source.slots())),
            created,
        ),
    ensures
        after.loaded is Some,
        after.loaded->0@.contains_key(i as u32),
        ({
            let e = after.loaded->0@[i as u32];
            &&& created.contains(e)
            &&& after.has(e)
            &&& Save::on(after, e)
            &&& after.meta@[e.index as int].restored == Some(i as u32)
            &&& after.components_of(e) == keep_kinds(source.components@[i]@, source.serializable@)
            &&& (forall|b: int|
                0 <= b < source.components@[i]@.len() ==> source.serializable@.contains(
                    (#[trigger] source.components@[i]@[b]).kind,
                )) ==> after.components_of(e) == source.components@[i]@
        }),
{
    let chosen = selected(source, SaveMode::Filtered, source.slots());
    let scene = extraction(source, chosen);
    lemma_selected(source, SaveMode::Filtered, source.slots());
    lemma_extraction(source, chosen, source.slots());
    let j = choose|j: int| 0 <= j < chosen.len() && (#[trigger] chosen[j]).index == i;
    assert(lists_index(chosen, i));
    let k = choose|k: int| 0 <= k < scene.len() && (#[trigger] scene[k]).0 == i;
    assert forall|a: int, b: int| 0 <= a < b < scene.len() implies (#[trigger] scene[a]).0 != (
    #[trigger] scene[b]).0 by {
        assert(scene[a].0 < scene[b].0);
    }
    lemma_mapping_lookup(scene, created, scene.len() as int, k);
    assert(created_ok(after, before, scene, created, k));
    if forall|b: int|
        0 <= b < source.components@[i]@.len() ==> source.serializable@.contains(
            (#[trigger] source.components@[i]@[b]).kind,
        ) {
        lemma_keep_all(source.components@[i]@, source.serializable@);
    }
}

/// Reference integrity. Let `a` and `b` be entities of a store, both marked to be saved,
/// and let a component of `a`, of a kind that is serializable and registered for
/// mending, refer to `b`. After a filtered save, applying the scene to any store and
/// mending, the entity created for `a` holds that component with a reference to the
/// entity created for `b`, and that entity is alive and holds the serializable
/// components of `b`, mended in turn.
pub proof fn reference_integrity(
    source: Store,
    before: Store,
    after: Store,
    mended_store: Store,
    created: Seq<Entity>,
    a: int,
    b: int,
    p: int,
)
    requires
        source.wf(),
        0 <= a < source.slots(),
        0 <= b < source.slots(),
        source.meta@[a].alive && source.meta@[a].save,
        source.meta@[b].alive && source.meta@[b].save,
        0 <= p < source.components@[a]@.len(),
        source.serializable@.contains(source.components@[a]@[p].kind),
        after.fixup@.contains(source.components@[a]@[p].kind),
        source.components@[a]@[p].reference is Some,
        source.components@[a]@[p].reference->0.index == b,
        applied_from(
            after,
            before,
            extraction(source, selected(source, SaveMode::Filtered, source.slots())),
            created,
        ),
        after.loaded is Some,
        mended_from(mended_store, after, after.loaded->0@),
    ensures
        ({
            let map = after.loaded->0@;
            let c = source.components@[a]@[p];
            &&& map.contains_key(a as u32)
            &&& map.contains_key(b as u32)
            &&& mended_store.has(map[b as u32])
            &&& mended_store.components_of(map[a as u32]).contains(
                Component { kind: c.kind, value: c.value, reference: Some(map[b as u32]) },
            )
            &&& mended_store.components_of(map[b as u32]) == mended_list(
                keep_kinds(source.components@[b]@, source.serializable@),
                after.fixup@,
                map,
            )
        }),
{
    let map = after.loaded->0@;
    let c = source.components@[a]@[p];
    round_trip(source, before, after, created, a);
    round_trip(source, before, after, created, b);
    let ea = map[a as u32];
    let eb = map[b as u32];
    assert(slot_mended(mended_store, after, map, ea.index as int));
    assert(slot_mended(mended_store, after, map, eb.index as int));
    assert(live(after, ea.index as int));
    assert(live(after, eb.index as int));
    let kept = keep_kinds(source.components@[a]@, source.serializable@);
    lemma_kept_contains(source.components@[a]@, source.serializable@, p);
    let q = choose|q: int| 0 <= q < kept.len() && kept[q] == c;
    let fixed = mended_list(kept, after.fixup@, map);
    assert(fixed[q] == mended(c, after.fixup@, map));
    assert(fixed[q] == Component { kind: c.kind, value: c.value, reference: Some(eb) });
}

/// An entity that is marked to be saved or unloaded is doomed, and so is every entity
/// that lies within a doomed one, whatever its own markers are.
pub proof fn contained_is_doomed(store: Store, i: int, root: int)
    requires
        store.wf(),
        store.within(i, root),
        store.doomed(root),
    ensures
        store.doomed(i),
    decreases
        (if 0 <= i < store.slots() {
            store.meta@[i].depth as int
        } else {
            0
        }),
{
    if i != root {
        match store.meta@[i].parent {
            Some(parent) => {
                contained_is_doomed(store, parent as int, root);
            },
            None => {},
        }
    }
}

/// Recursive despawn. When a store is cleared for a load, every entity that lies
/// within an entity marked to be saved or unloaded is despawned with it, whatever its
/// own markers are.
pub proof fn unload_is_recursive(pre: Store, post: Store, i: int, root: int)
    requires
        pre.wf(),
        post.cleared_from(pre),
        0 <= root < pre.slots(),
        pre.meta@[root].alive,
        pre.meta@[root].save || pre.meta@[root].unload,
        pre.within(i, root),
    ensures
        0 <= i < post.slots(),
        !post.meta@[i].alive,
        post.components@[i]@.len() == 0,
{
    contained_is_doomed(pre, i, root);
    assert(post.slot_unloaded(pre, i));
}

/// Unload completeness. After a load, an entity that was marked to be saved or
/// unloaded, or lay within such an entity, is gone: its slot is empty or holds a new
/// entity that the load created, under another generation. Every other entity is
/// alive and holds what it held.
pub proof fn unload_is_complete(
    pre: Store,
    cleared: Store,
    post: Store,
    scene: Seq<(u32, Seq<Component>)>,
    created: Seq<Entity>,
    entity: Entity,
)
    requires
        pre.wf(),
        cleared.cleared_from(pre),
        applied_from(post, cleared, scene, created),
        pre.has(entity),
    ensures
        pre.meta@[entity.index as int].save || pre.meta@[entity.index as int].unload
            ==> pre.doomed(entity.index as int),
        pre.doomed(entity.index as int) ==> !post.has(entity) && (post.meta@[entity.index as int].alive
            ==> exists|k: int| 0 <= k < created.len() && (#[trigger] created[k]).index == entity.index),
        !pre.doomed(entity.index as int) ==> post.has(entity) && post.same_slot(
            pre,
            entity.index as int,
        ),
{
    let i = entity.index as int;
    assert(cleared.slot_unloaded(pre, i));
    assert(survives(post, cleared, i));
    if pre.doomed(i) {
        if post.meta@[i].alive {
            assert(accounted(cleared, created, i));
            let k = choose|k: int| 0 <= k < created.len() && (#[trigger] created[k]).index == i;
            assert(created_ok(post, cleared, scene, created, k));
            assert(created[k].generation == next_generation(entity.generation));
        }
    }
}

/// Mending happens once. Finishing a load drops the mapping, so mending again succeeds
/// and changes nothing: no reference that was mended is rewritten a second time.
pub proof fn mending_happens_once(
    pre: Store,
    finished: Store,
    again: Store,
    result: Result<(), IntegrityFault>,
)
    requires
        finished_from(finished, pre),
        fixed_from(again, finished, result),
    ensures
        result is Ok,
        again == finished,
{
}

} // verus!
