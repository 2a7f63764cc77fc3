//! The entity store: slots with a generation, markers, a containment link and components.

use vstd::prelude::*;
use crate::entity::{copy_components, Component, Entity};
use crate::loaded::Loaded;
use crate::request::Request;

verus! {

/// What the store keeps for a slot besides its components.
#[derive(Clone, Copy, Debug, PartialEq, Eq, Structural)]
pub struct Meta {
    /// Counts how often the slot was reused.
    pub generation: u32,
    /// Whether an entity lives in the slot.
    pub alive: bool,
    /// The entity is captured by a filtered save and despawned before a load.
    pub save: bool,
    /// The entity is despawned before a load and never captured.
    pub unload: bool,
    /// Set on an entity that the last load created: the index it was saved under.
    pub restored: Option<u32>,
    /// The slot of the entity that contains this one.
    pub parent: Option<u32>,
    /// How many containers lie above the entity.
    pub depth: u32,
}

/// Where a load stands.
#[derive(Clone, Copy, Debug, PartialEq, Eq, Structural)]
pub enum LoadState {
    Idle,
    Unloading,
    Reading,
    Applying,
    AwaitingFixup,
}

/// The live entity store, with the single request slot and the mapping of the last load.
pub struct Store {
    pub meta: Vec<Meta>,
    pub components: Vec<Vec<Component>>,
    /// The kinds of component that a scene may hold.
    pub serializable: Vec<u32>,
    /// The kinds of component whose reference is mended after a load.
    pub fixup: Vec<u32>,
    pub request: Option<Request>,
    pub loaded: Option<Loaded>,
    pub state: LoadState,
}

/// The state of an empty slot.
pub open spec fn dead_meta(generation: u32) -> Meta {
    Meta {
        generation,
        alive: false,
        save: false,
        unload: false,
        restored: None,
        parent: None,
        depth: 0,
    }
}

/// The state of a slot right after a spawn.
pub open spec fn fresh_meta(generation: u32, parent: Option<u32>, depth: u32) -> Meta {
    Meta { generation, alive: true, save: false, unload: false, restored: None, parent, depth }
}

/// The generation that a slot gets when it is reused.
pub open spec fn next_generation(generation: u32) -> u32 {
    if generation == u32::MAX {
        0
    } else {
        (generation + 1) as u32
    }
}

/// `list` without the components of `kind`.
pub open spec fn without_kind(list: Seq<Component>, kind: u32) -> Seq<Component>
    decreases list.len(),
{
    if list.len() == 0 {
        Seq::empty()
    } else if list.last().kind == kind {
        without_kind(list.drop_last(), kind)
    } else {
        without_kind(list.drop_last(), kind).push(list.last())
    }
}

/// No two components of `list` are of one kind.
pub open spec fn one_per_kind(list: Seq<Component>) -> bool {
    forall|a: int, b: int|
        0 <= a < b < list.len() ==> (#[trigger] list[a]).kind != (#[trigger] list[b]).kind
}

/// Taking a kind out of a list leaves components of the list, none of that kind, and
/// no two of one kind if the list had no such two.
pub proof fn lemma_without_kind(list: Seq<Component>, kind: u32)
    ensures
        forall|a: int|
            0 <= a < without_kind(list, kind).len() ==> (#[trigger] without_kind(list, kind)[a]).kind
                != kind && list.contains(without_kind(list, kind)[a]),
        one_per_kind(list) ==> one_per_kind(without_kind(list, kind)),
    decreases list.len(),
{
    if list.len() > 0 {
        let front = list.drop_last();
        lemma_without_kind(front, kind);
        let kept = without_kind(front, kind);
        assert forall|a: int| 0 <= a < kept.len() implies list.contains(#[trigger] kept[a]) by {
            let k = choose|k: int| 0 <= k < front.len() && front[k] == kept[a];
            assert(list[k] == kept[a]);
        }
        if one_per_kind(list) {
            assert forall|a: int, b: int| 0 <= a < b < front.len() implies (#[trigger] front[a]).kind
                != (#[trigger] front[b]).kind by {
                assert(list[a].kind != list[b].kind);
            }
            assert forall|a: int| 0 <= a < kept.len() implies (#[trigger] kept[a]).kind
                != list.last().kind by {
                let k = choose|k: int| 0 <= k < front.len() && front[k] == kept[a];
                assert(list[k].kind != list[list.len() - 1].kind);
            }
        }
    }
}

/// `list` after `component` was attached: it replaces what was there of its kind.
pub open spec fn with_component(list: Seq<Component>, component: Component) -> Seq<Component> {
    without_kind(list, component.kind).push(component)
}

/// Whether no two components of `list` are of one kind.
pub fn has_one_per_kind(list: &Vec<Component>) -> (yes: bool)
    ensures
        yes == one_per_kind(list@),
{
    let mut b: usize = 0;
    while b < list.len()
        invariant
            b <= list.len(),
            forall|x: int, y: int|
                0 <= x < y < b ==> (#[trigger] list@[x]).kind != (#[trigger] list@[y]).kind,
        decreases list.len() - b,
    {
        let mut a: usize = 0;
        while a < b
            invariant
                a <= b,
                b < list.len(),
                forall|x: int| 0 <= x < a ==> (#[trigger] list@[x]).kind != list@[b as int].kind,
            decreases b - a,
        {
            if list[a].kind == list[b].kind {
                return false;
            }
            a += 1;
        }
        b += 1;
    }
    true
}

impl Store {
    /// The number of slots.
    pub open spec fn slots(&self) -> int {
        self.meta@.len() as int
    }

    /// Slot `i` is consistent: a live entity holds at most one component of each kind,
    /// and its container is alive and lies less deep; an empty slot holds nothing.
    pub open spec fn link_ok(&self, i: int) -> bool {
        let m = self.meta@[i];
        if m.alive {
            &&& one_per_kind(self.components@[i]@)
            &&& match m.parent {
                Some(p) => (p as int) < self.slots() && self.meta@[p as int].alive
                    && self.meta@[p as int].depth < m.depth,
                None => true,
            }
        } else {
            m == dead_meta(m.generation) && self.components@[i]@.len() == 0
        }
    }

    /// The invariant of the store.
    pub open spec fn wf(&self) -> bool {
        &&& self.meta@.len() == self.components@.len()
        &&& self.meta@.len() <= u32::MAX
        &&& forall|i: int| 0 <= i < self.slots() ==> #[trigger] self.link_ok(i)
    }

    /// `entity` is alive in the store.
    pub open spec fn has(&self, entity: Entity) -> bool {
        &&& (entity.index as int) < self.slots()
        &&& self.meta@[entity.index as int].alive
        &&& self.meta@[entity.index as int].generation == entity.generation
    }

    /// The identity of what lives in slot `i`.
    pub open spec fn entity_at(&self, i: int) -> Entity {
        Entity { index: i as u32, generation: self.meta@[i].generation }
    }

    /// The components attached to `entity`.
    pub open spec fn components_of(&self, entity: Entity) -> Seq<Component> {
        self.components@[entity.index as int]@
    }

    /// Slot `j` holds the same in both stores.
    pub open spec fn same_slot(&self, pre: Store, j: int) -> bool {
        self.meta@[j] == pre.meta@[j] && self.components@[j]@ == pre.components@[j]@
    }

    /// Registrations and request are the same in both stores.
    pub open spec fn same_registry(&self, pre: Store) -> bool {
        &&& self.serializable@ == pre.serializable@
        &&& self.fixup@ == pre.fixup@
        &&& self.request == pre.request
    }

    /// Registrations, request, mapping and load state are the same in both stores.
    pub open spec fn same_rest(&self, pre: Store) -> bool {
        &&& self.same_registry(pre)
        &&& self.loaded == pre.loaded
        &&& self.state == pre.state
    }

    /// Every slot holds the same in both stores.
    pub open spec fn same_slots(&self, pre: Store) -> bool {
        &&& self.slots() == pre.slots()
        &&& self.components@.len() == pre.components@.len()
        &&& forall|j: int|
            #![trigger self.same_slot(pre, j)]
            #![trigger self.meta@[j]]
            #![trigger self.components@[j]]
            0 <= j < pre.slots() ==> self.same_slot(pre, j)
    }

    /// The entity in slot `i` is despawned before a load: it is alive and it, or an
    /// entity that contains it, is marked [`Save`] or [`Unload`].
    pub open spec fn doomed(&self, i: int) -> bool
        decreases
            (if 0 <= i < self.slots() {
                self.meta@[i].depth as int
            } else {
                0
            }),
    {
        if 0 <= i < self.slots() && self.meta@[i].alive {
            let m = self.meta@[i];
            m.save || m.unload || match m.parent {
                Some(p) => (p as int) < self.slots() && self.meta@[p as int].depth < m.depth
                    && self.doomed(p as int),
                None => false,
            }
        } else {
            false
        }
    }

    /// The entity in slot `i` is alive and is `root` or lies within it.
    pub open spec fn within(&self, i: int, root: int) -> bool
        decreases
            (if 0 <= i < self.slots() {
                self.meta@[i].depth as int
            } else {
                0
            }),
    {
        if 0 <= i < self.slots() && self.meta@[i].alive {
            i == root || match self.meta@[i].parent {
                Some(p) => (p as int) < self.slots() && self.meta@[p as int].depth
                    < self.meta@[i].depth && self.within(p as int, root),
                None => false,
            }
        } else {
            false
        }
    }

    /// Slot `j` of `self` is what a load leaves of slot `j` of `pre`: empty if the entity
    /// was doomed, else as it was.
    pub open spec fn slot_unloaded(&self, pre: Store, j: int) -> bool {
        if pre.doomed(j) {
            self.meta@[j] == dead_meta(pre.meta@[j].generation) && self.components@[j]@
                == Seq::<Component>::empty()
        } else {
            self.same_slot(pre, j)
        }
    }

    /// The slots of `self` are those of `pre` after every doomed entity was despawned;
    /// registrations and request are the same.
    pub open spec fn cleared_from(&self, pre: Store) -> bool {
        &&& self.slots() == pre.slots()
        &&& self.components@.len() == pre.components@.len()
        &&& forall|j: int|
            #![trigger self.slot_unloaded(pre, j)]
            #![trigger self.meta@[j]]
            #![trigger self.components@[j]]
            0 <= j < pre.slots() ==> self.slot_unloaded(pre, j)
        &&& self.same_registry(pre)
    }

    /// `self` is `pre` after every doomed entity was despawned.
    pub open spec fn unloaded_from(&self, pre: Store) -> bool {
        &&& self.cleared_from(pre)
        &&& self.loaded == pre.loaded
        &&& self.state == pre.state
    }

    /// No slot is free and no slot can be added.
    pub open spec fn full(&self) -> bool {
        &&& self.slots() == u32::MAX
        &&& forall|j: int| 0 <= j < self.slots() ==> (#[trigger] self.meta@[j]).alive
    }

    /// `self` is `pre` after `entity` was spawned in the lowest free slot.
    pub open spec fn spawned_from(
        &self,
        pre: Store,
        entity: Entity,
        parent: Option<u32>,
        depth: u32,
    ) -> bool {
        let i = entity.index as int;
        &&& i <= pre.slots()
        &&& forall|j: int| 0 <= j < i ==> (#[trigger] pre.meta@[j]).alive
        &&& i < pre.slots() ==> !pre.meta@[i].alive && entity.generation == next_generation(
            pre.meta@[i].generation,
        ) && self.slots() == pre.slots()
        &&& i == pre.slots() ==> entity.generation == 0 && self.slots() == pre.slots() + 1
        &&& self.components@.len() == self.meta@.len()
        &&& self.meta@[i] == fresh_meta(entity.generation, parent, depth)
        &&& self.components@[i]@ == Seq::<Component>::empty()
        &&& forall|j: int|
            #![trigger self.same_slot(pre, j)]
            #![trigger self.meta@[j]]
            #![trigger self.components@[j]]
            0 <= j < pre.slots() && j != i ==> self.same_slot(pre, j)
        &&& self.same_rest(pre)
    }

    /// `self` is `pre` with `meta` in slot `i`.
    pub open spec fn meta_replaced(&self, pre: Store, i: int, meta: Meta) -> bool {
        &&& self.meta@ == pre.meta@.update(i, meta)
        &&& self.components@ == pre.components@
        &&& self.same_rest(pre)
    }

    /// `self` is `pre` with `list` as the components of slot `i`.
    pub open spec fn components_replaced(&self, pre: Store, i: int, list: Seq<Component>) -> bool {
        &&& self.meta@ == pre.meta@
        &&& self.components@.len() == pre.components@.len()
        &&& self.components@[i]@ == list
        &&& forall|j: int|
            #![trigger self.same_slot(pre, j)]
            #![trigger self.meta@[j]]
            #![trigger self.components@[j]]
            0 <= j < pre.slots() && j != i ==> self.same_slot(pre, j)
        &&& self.same_rest(pre)
    }

    /// An empty store: no entity, no registration, no request.
    pub fn new() -> (store: Store)
        ensures
            store.wf(),
            store.slots() == 0,
            store.serializable@.len() == 0,
            store.fixup@.len() == 0,
            store.request is None,
            store.loaded is None,
            store.state == LoadState::Idle,
    {
        Store {
            meta: Vec::new(),
            components: Vec::new(),
            serializable: Vec::new(),
            fixup: Vec::new(),
            request: None,
            loaded: None,
            state: LoadState::Idle,
        }
    }

    /// Whether the store is consistent. A store built through the functions of this
    /// library always is; one assembled field by field may not be.
    pub fn is_consistent(&self) -> (ok: bool)
        ensures
            ok == self.wf(),
    {
        let n = self.meta.len();
        if n != self.components.len() || n > u32::MAX as usize {
            return false;
        }
        let mut j: usize = 0;
        while j < n
            invariant
                j <= n,
                n == self.meta@.len(),
                n == self.components@.len(),
                forall|a: int| 0 <= a < j ==> #[trigger] self.link_ok(a),
            decreases n - j,
        {
            let m = self.meta[j];
            let ok = if m.alive {
                has_one_per_kind(&self.components[j]) && match m.parent {
                    Some(p) => (p as usize) < n && self.meta[p as usize].alive
                        && self.meta[p as usize].depth < m.depth,
                    None => true,
                }
            } else {
                !m.save && !m.unload && m.restored.is_none() && m.parent.is_none() && m.depth == 0
                    && self.components[j].len() == 0
            };
            if !ok {
                assert(!self.link_ok(j as int));
                return false;
            }
            j += 1;
        }
        true
    }

    /// Spawns an entity into the lowest free slot, or into a new one.
    pub(crate) fn spawn_in(&mut self, parent: Option<u32>, depth: u32) -> (spawned: Option<Entity>)
        requires
            old(self).wf(),
            match parent {
                Some(p) => (p as int) < old(self).slots() && old(self).meta@[p as int].alive
                    && old(self).meta@[p as int].depth < depth,
                None => true,
            },
        ensures
            final(self).wf(),
            match spawned {
                Some(entity) => final(self).spawned_from(*old(self), entity, parent, depth),
                None => *final(self) == *old(self) && old(self).full(),
            },
    {
        let n = self.meta.len();
        let mut i: usize = 0;
        while i < n && self.meta[i].alive
            invariant
                i <= n,
                n == self.meta@.len(),
                *self == *old(self),
                forall|j: int| 0 <= j < i ==> (#[trigger] self.meta@[j]).alive,
            decreases n - i,
        {
            i += 1;
        }
        if i < n {
            let g = self.meta[i].generation;
            let generation: u32 = if g == u32::MAX { 0 } else { g + 1 };
            assert(old(self).link_ok(i as int));
            self.meta.set(
                i,
                Meta {
                    generation,
                    alive: true,
                    save: false,
                    unload: false,
                    restored: None,
                    parent,
                    depth,
                },
            );
            proof {
                assert forall|j: int| 0 <= j < self.slots() implies #[trigger] self.link_ok(j) by {
                    assert(old(self).link_ok(j));
                }
                assert forall|j: int| 0 <= j < old(self).slots() && j != i implies #[trigger] self.same_slot(*old(self), j) by {}
                assert(self.components@[i as int]@ =~= Seq::<Component>::empty());
            }
            Some(Entity { index: i as u32, generation })
        } else if n < u32::MAX as usize {
            self.meta.push(
                Meta {
                    generation: 0,
                    alive: true,
                    save: false,
                    unload: false,
                    restored: None,
                    parent,
                    depth,
                },
            );
            self.components.push(Vec::new());
            proof {
                assert forall|j: int| 0 <= j < self.slots() implies #[trigger] self.link_ok(j) by {
                    if j < n {
                        assert(old(self).link_ok(j));
                    }
                }
                assert forall|j: int| 0 <= j < old(self).slots() && j != i implies #[trigger] self.same_slot(*old(self), j) by {}
                assert(self.components@[n as int]@ =~= Seq::<Component>::empty());
            }
            Some(Entity { index: n as u32, generation: 0 })
        } else {
            None
        }
    }

    /// Spawns an entity that nothing contains. `None` only when the store is full.
    pub fn spawn(&mut self) -> (spawned: Option<Entity>)
        requires
            old(self).wf(),
        ensures
            final(self).wf(),
            match spawned {
                Some(entity) => final(self).spawned_from(*old(self), entity, None, 0),
                None => *final(self) == *old(self) && old(self).full(),
            },
    {
        self.spawn_in(None, 0)
    }

    /// Spawns an entity that `parent` contains. `None` when `parent` is not alive, when
    /// it lies as deep as the store can count, or when the store is full.
    pub fn spawn_child(&mut self, parent: Entity) -> (spawned: Option<Entity>)
        requires
            old(self).wf(),
        ensures
            final(self).wf(),
            match spawned {
                Some(entity) => {
                    &&& old(self).has(parent)
                    &&& old(self).meta@[parent.index as int].depth < u32::MAX
                    &&& final(self).spawned_from(
                        *old(self),
                        entity,
                        Some(parent.index),
                        (old(self).meta@[parent.index as int].depth + 1) as u32,
                    )
                },
                None => {
                    &&& *final(self) == *old(self)
                    &&& (!old(self).has(parent) || old(self).meta@[parent.index as int].depth
                        == u32::MAX || old(self).full())
                },
            },
    {
        if !self.contains(parent) {
            return None;
        }
        let depth = self.meta[parent.index as usize].depth;
        if depth == u32::MAX {
            return None;
        }
        self.spawn_in(Some(parent.index), depth + 1)
    }

    /// Whether the entity in slot `i` is despawned before a load.
    pub fn is_doomed(&self, i: usize) -> (yes: bool)
        requires
            self.wf(),
            i < self.slots(),
        ensures
            yes == self.doomed(i as int),
    {
        let mut cur: usize = i;
        loop
            invariant
                self.wf(),
                cur < self.slots(),
                self.doomed(cur as int) == self.doomed(i as int),
            decreases self.meta@[cur as int].depth,
        {
            let m = self.meta[cur];
            if !m.alive {
                return false;
            }
            if m.save || m.unload {
                return true;
            }
            match m.parent {
                None => {
                    return false;
                },
                Some(p) => {
                    assert(self.link_ok(cur as int));
                    cur = p as usize;
                },
            }
        }
    }

    /// Whether the entity in slot `i` is alive and is the one in slot `root` or lies
    /// within it.
    pub fn is_within(&self, i: usize, root: usize) -> (yes: bool)
        requires
            self.wf(),
            i < self.slots(),
        ensures
            yes == self.within(i as int, root as int),
    {
        let mut cur: usize = i;
        loop
            invariant
                self.wf(),
                cur < self.slots(),
                self.within(cur as int, root as int) == self.within(i as int, root as int),
            decreases self.meta@[cur as int].depth,
        {
            let m = self.meta[cur];
            if !m.alive {
                return false;
            }
            if cur == root {
                return true;
            }
            match m.parent {
                None => {
                    return false;
                },
                Some(p) => {
                    assert(self.link_ok(cur as int));
                    cur = p as usize;
                },
            }
        }
    }

    /// Whether `entity` is alive in the store.
    pub fn contains(&self, entity: Entity) -> (alive: bool)
        ensures
            alive == self.has(entity),
    {
        let i = entity.index as usize;
        i < self.meta.len() && self.meta[i].alive && self.meta[i].generation == entity.generation
    }

    /// The components of `entity`, if it is alive.
    pub fn get(&self, entity: Entity) -> (found: Option<Vec<Component>>)
        requires
            self.wf(),
        ensures
            found is Some == self.has(entity),
            found is Some ==> found->0@ == self.components_of(entity),
    {
        if self.contains(entity) {
            Some(copy_components(&self.components[entity.index as usize]))
        } else {
            None
        }
    }

    /// The entity that contains `entity`, if it is alive and has a container.
    pub fn parent(&self, entity: Entity) -> (found: Option<Entity>)
        requires
            self.wf(),
        ensures
            found == (if self.has(entity) && self.meta@[entity.index as int].parent is Some {
                Some(self.entity_at(self.meta@[entity.index as int].parent->0 as int))
            } else {
                None
            }),
    {
        if !self.contains(entity) {
            return None;
        }
        assert(self.link_ok(entity.index as int));
        match self.meta[entity.index as usize].parent {
            Some(p) => Some(Entity { index: p, generation: self.meta[p as usize].generation }),
            None => None,
        }
    }

    /// The index under which `entity` was saved, if the last load created it and the
    /// load is not finished.
    pub fn restored_from(&self, entity: Entity) -> (index: Option<u32>)
        ensures
            index == (if self.has(entity) {
                self.meta@[entity.index as int].restored
            } else {
                None
            }),
    {
        if self.contains(entity) {
            self.meta[entity.index as usize].restored
        } else {
            None
        }
    }

    /// Puts `meta` into the slot of a live entity; liveness and containment stay.
    pub(crate) fn set_meta(&mut self, i: usize, meta: Meta)
        requires
            old(self).wf(),
            i < old(self).slots(),
            old(self).meta@[i as int].alive,
            meta.alive,
            meta.parent == old(self).meta@[i as int].parent,
            meta.depth == old(self).meta@[i as int].depth,
        ensures
            final(self).wf(),
            final(self).meta_replaced(*old(self), i as int, meta),
    {
        self.meta.set(i, meta);
        proof {
            assert forall|j: int| 0 <= j < self.slots() implies #[trigger] self.link_ok(j) by {
                assert(old(self).link_ok(j));
            }
        }
    }

    /// Puts `list` into the slot of a live entity as its components.
    pub(crate) fn set_components(&mut self, i: usize, list: Vec<Component>)
        requires
            old(self).wf(),
            i < old(self).slots(),
            old(self).meta@[i as int].alive,
            one_per_kind(list@),
        ensures
            final(self).wf(),
            final(self).components_replaced(*old(self), i as int, list@),
    {
        self.components.set(i, list);
        proof {
            assert forall|j: int| 0 <= j < self.slots() implies #[trigger] self.link_ok(j) by {
                assert(old(self).link_ok(j));
            }
            assert forall|j: int| 0 <= j < old(self).slots() && j != i implies #[trigger] self.same_slot(*old(self), j) by {}
        }
    }

    /// Attaches `component` to `entity`, in place of what it held of that kind. Does
    /// nothing, and says so, when `entity` is not alive.
    pub fn insert(&mut self, entity: Entity, component: Component) -> (done: bool)
        requires
            old(self).wf(),
        ensures
            final(self).wf(),
            done == old(self).has(entity),
            done ==> final(self).components_replaced(
                *old(self),
                entity.index as int,
                with_component(old(self).components_of(entity), component),
            ),
            !done ==> *final(self) == *old(self),
    {
        if !self.contains(entity) {
            return false;
        }
        let i = entity.index as usize;
        let mut list: Vec<Component> = Vec::new();
        let mut k: usize = 0;
        while k < self.components[i].len()
            invariant
                *self == *old(self),
                i < self.components@.len(),
                k <= self.components@[i as int]@.len(),
                list@ == without_kind(self.components@[i as int]@.subrange(0, k as int), component.kind),
            decreases self.components@[i as int]@.len() - k,
        {
            let c = self.components[i][k];
            proof {
                let whole = self.components@[i as int]@;
                assert(whole.subrange(0, k + 1).drop_last() =~= whole.subrange(0, k as int));
                assert(whole.subrange(0, k + 1).last() == c);
            }
            if c.kind != component.kind {
                list.push(c);
            }
            k += 1;
        }
        proof {
            let whole = self.components@[i as int]@;
            assert(whole.subrange(0, whole.len() as int) =~= whole);
        }
        proof {
            assert(old(self).link_ok(i as int));
            lemma_without_kind(self.components@[i as int]@, component.kind);
        }
        list.push(component);
        self.set_components(i, list);
        true
    }

    /// Registers a kind of component as serializable: scenes may hold it.
    pub fn register_type(&mut self, kind: u32)
        ensures
            final(self).serializable@ == old(self).serializable@.push(kind),
            final(self).meta == old(self).meta,
            final(self).components == old(self).components,
            final(self).fixup == old(self).fixup,
            final(self).request == old(self).request,
            final(self).loaded == old(self).loaded,
            final(self).state == old(self).state,
            old(self).wf() ==> final(self).wf(),
    {
        self.serializable.push(kind);
        proof {
            if old(self).wf() {
                lemma_same_slots_wf(*self, *old(self));
            }
        }
    }
}

/// A store whose slots are those of a consistent store is consistent.
pub proof fn lemma_same_slots_wf(now: Store, was: Store)
    requires
        was.wf(),
        now.meta == was.meta,
        now.components == was.components,
    ensures
        now.wf(),
{
    assert forall|j: int| 0 <= j < now.slots() implies #[trigger] now.link_ok(j) by {
        assert(was.link_ok(j));
    }
}

/// Marks an entity to be captured by a filtered save and despawned before a load.
#[derive(Clone, Copy, Debug, Default)]
pub struct Save;

/// Marks an entity, with all that it contains, to be despawned before a load and never
/// captured.
#[derive(Clone, Copy, Debug, Default)]
pub struct Unload;

impl Save {
    /// Whether `entity` carries the marker in `store`.
    pub open spec fn on(store: Store, entity: Entity) -> bool {
        store.has(entity) && store.meta@[entity.index as int].save
    }

    /// Whether `entity` is alive and carries the marker.
    pub fn marks(store: &Store, entity: Entity) -> (yes: bool)
        ensures
            yes == Save::on(*store, entity),
    {
        store.contains(entity) && store.meta[entity.index as usize].save
    }

    /// Sets or clears the marker on `entity`. Does nothing, and says so, when `entity`
    /// is not alive.
    pub fn set(store: &mut Store, entity: Entity, marked: bool) -> (done: bool)
        requires
            old(store).wf(),
        ensures
            final(store).wf(),
            done == old(store).has(entity),
            done ==> final(store).meta_replaced(
                *old(store),
                entity.index as int,
                (Meta { save: marked, ..old(store).meta@[entity.index as int] }),
            ),
            !done ==> *final(store) == *old(store),
    {
        if !store.contains(entity) {
            return false;
        }
        let mut m = store.meta[entity.index as usize];
        m.save = marked;
        store.set_meta(entity.index as usize, m);
        true
    }
}

impl Unload {
    /// Whether `entity` carries the marker in `store`.
    pub open spec fn on(store: Store, entity: Entity) -> bool {
        store.has(entity) && store.meta@[entity.index as int].unload
    }

    /// Whether `entity` is alive and carries the marker.
    pub fn marks(store: &Store, entity: Entity) -> (yes: bool)
        ensures
            yes == Unload::on(*store, entity),
    {
        store.contains(entity) && store.meta[entity.index as usize].unload
    }

    /// Sets or clears the marker on `entity`. Does nothing, and says so, when `entity`
    /// is not alive.
    pub fn set(store: &mut Store, entity: Entity, marked: bool) -> (done: bool)
        requires
            old(store).wf(),
        ensures
            final(store).wf(),
            done == old(store).has(entity),
            done ==> final(store).meta_replaced(
                *old(store),
                entity.index as int,
                (Meta { unload: marked, ..old(store).meta@[entity.index as int] }),
            ),
            !done ==> *final(store) == *old(store),
    {
        if !store.contains(entity) {
            return false;
        }
        let mut m = store.meta[entity.index as usize];
        m.unload = marked;
        store.set_meta(entity.index as usize, m);
        true
    }
}

} // verus!
