//! Mending entity references after a load.

use vstd::prelude::*;
use crate::entity::{holds_kind, Component, Entity};
use crate::loaded::Loaded;
use crate::store::{LoadState, Meta, Store};

verus! {

/// A value that holds references to entities and can move them over to the entities
/// that a load created.
pub trait FromLoaded: Sized {
    /// Every reference in the value is to an entity that the load created anew.
    spec fn resolvable(&self, loaded: &Loaded) -> bool;

    /// The value with every reference moved over.
    spec fn resolved(&self, loaded: &Loaded) -> Self;

    /// Replaces every reference in the value by the entity that the load created for it.
    /// A reference to an entity that was not saved is a defect of the data: such a
    /// value must not be handed in.
    fn from_loaded(&mut self, loaded: &Loaded)
        requires
            old(self).resolvable(loaded),
        ensures
            *final(self) == old(self).resolved(loaded),
    ;
}

impl FromLoaded for Entity {
    open spec fn resolvable(&self, loaded: &Loaded) -> bool {
        loaded@.contains_key(self.index)
    }

    open spec fn resolved(&self, loaded: &Loaded) -> Entity {
        loaded@[self.index]
    }

    fn from_loaded(&mut self, loaded: &Loaded) {
        match loaded.entity(*self) {
            Some(entity) => {
                *self = entity;
            },
            None => {
                assert(false);
            },
        }
    }
}

impl FromLoaded for Option<Entity> {
    open spec fn resolvable(&self, loaded: &Loaded) -> bool {
        match *self {
            Some(entity) => loaded@.contains_key(entity.index),
            None => true,
        }
    }

    open spec fn resolved(&self, loaded: &Loaded) -> Option<Entity> {
        match *self {
            Some(entity) => Some(loaded@[entity.index]),
            None => None,
        }
    }

    fn from_loaded(&mut self, loaded: &Loaded) {
        match *self {
            Some(entity) => {
                let mut entity = entity;
                entity.from_loaded(loaded);
                *self = Some(entity);
            },
            None => {},
        }
    }
}

impl FromLoaded for Component {
    open spec fn resolvable(&self, loaded: &Loaded) -> bool {
        self.reference.resolvable(loaded)
    }

    open spec fn resolved(&self, loaded: &Loaded) -> Component {
        Component { kind: self.kind, value: self.value, reference: self.reference.resolved(loaded) }
    }

    fn from_loaded(&mut self, loaded: &Loaded) {
        let mut reference = self.reference;
        reference.from_loaded(loaded);
        self.reference = reference;
    }
}

/// A component whose reference cannot be mended: it refers to an entity that was not
/// part of the scene.
#[derive(Clone, Copy, Debug, PartialEq, Eq, Structural)]
pub struct IntegrityFault {
    /// The entity that holds the component.
    pub entity: Entity,
    /// The component with the dangling reference.
    pub component: Component,
}

/// The reference of `component` can be mended, or needs no mending: its kind is not
/// registered for it, it refers to nothing, or `map` knows the index it refers to.
pub open spec fn mendable(component: Component, kinds: Seq<u32>, map: Map<u32, Entity>) -> bool {
    kinds.contains(component.kind) && component.reference is Some ==> map.contains_key(
        component.reference->0.index,
    )
}

/// `component` after mending: if its kind is registered for it, its reference is to
/// the entity that `map` gives for the index it referred to.
pub open spec fn mended(component: Component, kinds: Seq<u32>, map: Map<u32, Entity>) -> Component {
    if kinds.contains(component.kind) && component.reference is Some {
        Component {
            kind: component.kind,
            value: component.value,
            reference: Some(map[component.reference->0.index]),
        }
    } else {
        component
    }
}

/// Every component of `list` is mendable.
pub open spec fn list_mendable(list: Seq<Component>, kinds: Seq<u32>, map: Map<u32, Entity>) -> bool {
    forall|k: int| 0 <= k < list.len() ==> mendable(#[trigger] list[k], kinds, map)
}

/// `list` with every component mended.
pub open spec fn mended_list(list: Seq<Component>, kinds: Seq<u32>, map: Map<u32, Entity>) -> Seq<
    Component,
> {
    Seq::new(list.len(), |k: int| mended(list[k], kinds, map))
}

/// Slot `j` holds an entity.
pub open spec fn live(store: Store, j: int) -> bool {
    store.meta@[j].alive
}

/// Every component of every live entity is mendable.
pub open spec fn all_mendable(store: Store, map: Map<u32, Entity>) -> bool {
    forall|j: int|
        0 <= j < store.slots() && #[trigger] live(store, j) ==> list_mendable(
            store.components@[j]@,
            store.fixup@,
            map,
        )
}

/// Slot `j` of `post` is slot `j` of `pre` with the components mended, if an entity
/// lives in it, and unchanged if not.
pub open spec fn slot_mended(post: Store, pre: Store, map: Map<u32, Entity>, j: int) -> bool {
    &&& post.meta@[j] == pre.meta@[j]
    &&& post.components@[j]@ == (if live(pre, j) {
        mended_list(pre.components@[j]@, pre.fixup@, map)
    } else {
        pre.components@[j]@
    })
}

/// `post` is `pre` after the references were mended.
pub open spec fn mended_from(post: Store, pre: Store, map: Map<u32, Entity>) -> bool {
    &&& post.slots() == pre.slots()
    &&& post.components@.len() == pre.components@.len()
    &&& forall|j: int|
        #![trigger slot_mended(post, pre, map, j)]
        #![trigger post.meta@[j]]
        #![trigger post.components@[j]]
        0 <= j < pre.slots() ==> slot_mended(post, pre, map, j)
    &&& post.same_rest(pre)
}

/// `component` is the first of `list` that cannot be mended.
pub open spec fn first_unmendable(
    list: Seq<Component>,
    kinds: Seq<u32>,
    map: Map<u32, Entity>,
    component: Component,
) -> bool {
    exists|k: int|
        0 <= k < list.len() && #[trigger] list[k] == component && !mendable(component, kinds, map)
            && list_mendable(list.take(k), kinds, map)
}

/// The first component of `list` that cannot be mended, if there is one.
pub fn find_unmendable(list: &Vec<Component>, kinds: &Vec<u32>, loaded: &Loaded) -> (found: Option<
    Component,
>)
    ensures
        found is None == list_mendable(list@, kinds@, loaded@),
        found is Some ==> first_unmendable(list@, kinds@, loaded@, found->0),
{
    let mut k: usize = 0;
    while k < list.len()
        invariant
            k <= list.len(),
            forall|a: int| 0 <= a < k ==> mendable(#[trigger] list@[a], kinds@, loaded@),
        decreases list.len() - k,
    {
        let c = list[k];
        if holds_kind(kinds, c.kind) {
            match c.reference {
                Some(target) => {
                    if loaded.entity(target).is_none() {
                        assert(list@[k as int] == c);
                        assert(list_mendable(list@.take(k as int), kinds@, loaded@));
                        return Some(c);
                    }
                },
                None => {},
            }
        }
        k += 1;
    }
    None
}

/// Mends every component of `list` whose kind is among `kinds`.
pub fn mend_components(list: &Vec<Component>, kinds: &Vec<u32>, loaded: &Loaded) -> (out: Vec<
    Component,
>)
    requires
        list_mendable(list@, kinds@, loaded@),
    ensures
        out@ == mended_list(list@, kinds@, loaded@),
{
    let mut out: Vec<Component> = Vec::new();
    let mut k: usize = 0;
    while k < list.len()
        invariant
            k <= list.len(),
            list_mendable(list@, kinds@, loaded@),
            out@.len() == k,
            forall|a: int| 0 <= a < k ==> #[trigger] out@[a] == mended(list@[a], kinds@, loaded@),
        decreases list.len() - k,
    {
        let mut c = list[k];
        assert(mendable(list@[k as int], kinds@, loaded@));
        if holds_kind(kinds, c.kind) {
            c.from_loaded(loaded);
        }
        out.push(c);
        k += 1;
    }
    assert(out@ =~= mended_list(list@, kinds@, loaded@));
    out
}

/// `fault` names the first component that cannot be mended: the entity is alive, the
/// component is the first of its components that cannot be mended, and in the slots
/// below it all can be.
pub open spec fn is_first_fault(store: Store, map: Map<u32, Entity>, fault: IntegrityFault) -> bool {
    &&& store.has(fault.entity)
    &&& live(store, fault.entity.index as int)
    &&& first_unmendable(store.components_of(fault.entity), store.fixup@, map, fault.component)
    &&& forall|a: int|
        0 <= a < fault.entity.index && #[trigger] live(store, a) ==> list_mendable(
            store.components@[a]@,
            store.fixup@,
            map,
        )
}

/// The first component, by slot, of a live entity which cannot be mended.
pub fn find_fault(store: &Store, loaded: &Loaded) -> (found: Option<IntegrityFault>)
    requires
        store.wf(),
    ensures
        found is None == all_mendable(*store, loaded@),
        found is Some ==> is_first_fault(*store, loaded@, found->0),
{
    let mut j: usize = 0;
    while j < store.meta.len()
        invariant
            j <= store.slots(),
            store.wf(),
            forall|a: int|
                0 <= a < j && #[trigger] live(*store, a) ==> list_mendable(
                    store.components@[a]@,
                    store.fixup@,
                    loaded@,
                ),
        decreases store.slots() - j,
    {
        let m = store.meta[j];
        if m.alive {
            match find_unmendable(&store.components[j], &store.fixup, loaded) {
                Some(component) => {
                    assert(live(*store, j as int));
                    return Some(
                        IntegrityFault {
                            entity: Entity { index: j as u32, generation: m.generation },
                            component,
                        },
                    );
                },
                None => {},
            }
        }
        j += 1;
    }
    None
}

/// What mending makes of `pre`. Without a mapping it succeeds and changes nothing. With
/// one it succeeds exactly if every component of every live entity is mendable, and
/// then `post` is `pre` with all of them mended; else nothing is changed and the
/// result names the first component that cannot be mended.
pub open spec fn fixed_from(post: Store, pre: Store, result: Result<(), IntegrityFault>) -> bool {
    match pre.loaded {
        None => result is Ok && post == pre,
        Some(loaded) => match result {
            Ok(_) => all_mendable(pre, loaded@) && mended_from(post, pre, loaded@),
            Err(fault) => post == pre && is_first_fault(pre, loaded@, fault),
        },
    }
}

/// Mends the references of every live entity: in each component of a kind registered
/// for it, wherever it is attached, a reference to a saved entity becomes a reference
/// to the entity created for it. Without a mapping there is nothing to mend.
///
/// A reference to an entity that was not saved is a defect of the data: nothing is
/// changed then, and the fault is returned.
pub fn fix_references(store: &mut Store) -> (result: Result<(), IntegrityFault>)
    requires
        old(store).wf(),
    ensures
        final(store).wf(),
        fixed_from(*final(store), *old(store), result),
{
    let fault = match &store.loaded {
        None => {
            return Ok(());
        },
        Some(loaded) => find_fault(store, loaded),
    };
    match fault {
        Some(fault) => {
            return Err(fault);
        },
        None => {},
    }
    let taken = store.loaded.take();
    let loaded = match taken {
        Some(loaded) => loaded,
        None => unreached(),
    };
    let n = store.meta.len();
    let mut j: usize = 0;
    while j < n
        invariant
            j <= n,
            n == old(store).slots(),
            old(store).wf(),
            old(store).loaded == Some(loaded),
            all_mendable(*old(store), loaded@),
            store.meta@ == old(store).meta@,
            store.components@.len() == n,
            store.fixup@ == old(store).fixup@,
            store.serializable@ == old(store).serializable@,
            store.request == old(store).request,
            store.state == old(store).state,
            store.loaded is None,
            forall|a: int| 0 <= a < j ==> #[trigger] slot_mended(*store, *old(store), loaded@, a),
            forall|a: int| j <= a < n ==> #[trigger] store.same_slot(*old(store), a),
        decreases n - j,
    {
        let ghost before = *store;
        let m = store.meta[j];
        assert(before.same_slot(*old(store), j as int));
        if m.alive {
            assert(live(*old(store), j as int));
            let list = mend_components(&store.components[j], &store.fixup, &loaded);
            store.components.set(j, list);
        }
        proof {
            assert forall|a: int| 0 <= a < j + 1 implies #[trigger] slot_mended(
                *store,
                *old(store),
                loaded@,
                a,
            ) by {
                if a < j {
                    assert(slot_mended(before, *old(store), loaded@, a));
                }
            }
            assert forall|a: int| j + 1 <= a < n implies #[trigger] store.same_slot(
                *old(store),
                a,
            ) by {
                assert(before.same_slot(*old(store), a));
            }
        }
        j += 1;
    }
    let ghost done = *store;
    store.loaded = Some(loaded);
    proof {
        assert forall|a: int| 0 <= a < n implies #[trigger] slot_mended(
            *store,
            *old(store),
            loaded@,
            a,
        ) by {
            assert(slot_mended(done, *old(store), loaded@, a));
        }
        assert forall|a: int| 0 <= a < store.slots() implies #[trigger] store.link_ok(a) by {
            assert(old(store).link_ok(a));
            assert(slot_mended(done, *old(store), loaded@, a));
        }
    }
    Ok(())
}

/// `post` is `pre` after a load was finished: no entity is tagged as restored, and
/// request and mapping are gone.
pub open spec fn finished_from(post: Store, pre: Store) -> bool {
    &&& post.slots() == pre.slots()
    &&& post.components@ == pre.components@
    &&& forall|j: int|
        0 <= j < pre.slots() ==> #[trigger] post.meta@[j] == (Meta {
            restored: None,
            ..pre.meta@[j]
        })
    &&& post.serializable@ == pre.serializable@
    &&& post.fixup@ == pre.fixup@
    &&& post.request is None
    &&& post.loaded is None
    &&& post.state == LoadState::Idle
}

/// Finishes a load: removes the tags of the restored entities, drops the mapping and
/// consumes the request.
pub fn finish_load(store: &mut Store)
    requires
        old(store).wf(),
    ensures
        final(store).wf(),
        finished_from(*final(store), *old(store)),
{
    let n = store.meta.len();
    let mut j: usize = 0;
    while j < n
        invariant
            j <= n,
            n == old(store).slots(),
            store.meta@.len() == n,
            store.components@ == old(store).components@,
            store.serializable@ == old(store).serializable@,
            store.fixup@ == old(store).fixup@,
            forall|a: int|
                0 <= a < j ==> #[trigger] store.meta@[a] == (Meta {
                    restored: None,
                    ..old(store).meta@[a]
                }),
            forall|a: int| j <= a < n ==> #[trigger] store.meta@[a] == old(store).meta@[a],
        decreases n - j,
    {
        let mut m = store.meta[j];
        m.restored = None;
        store.meta.set(j, m);
        j += 1;
    }
    store.loaded = None;
    store.request = None;
    store.state = LoadState::Idle;
    proof {
        assert forall|a: int| 0 <= a < store.slots() implies #[trigger] store.link_ok(a) by {
            assert(old(store).link_ok(a));
            match old(store).meta@[a].parent {
                Some(p) => {
                    assert(store.meta@[p as int].alive);
                },
                None => {},
            }
        }
    }
}

} // verus!
