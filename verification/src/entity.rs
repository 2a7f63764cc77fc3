//! Identities and the attribute records attached to them.

use vstd::prelude::*;

verus! {

/// Identity of one object in the store: a slot index, reused after a despawn, and the
/// generation of that slot, which tells a stale identity from the current one.
#[derive(Clone, Copy, Debug, PartialEq, Eq, Structural)]
pub struct Entity {
    pub index: u32,
    pub generation: u32,
}

impl Entity {
    /// The identity with the given index and generation zero.
    pub fn from_raw(index: u32) -> (e: Entity)
        ensures
            e.index == index,
            e.generation == 0,
    {
        Entity { index, generation: 0 }
    }

    /// The slot index: the only part of an identity that a saved scene keeps.
    pub fn index(&self) -> (i: u32)
        ensures
            i == self.index,
    {
        self.index
    }

    /// The generation of the slot at the time the entity was spawned.
    pub fn generation(&self) -> (g: u32)
        ensures
            g == self.generation,
    {
        self.generation
    }
}

/// A typed attribute record: the identifier of its type, a payload, and at most one
/// reference to another entity.
#[derive(Clone, Copy, Debug, PartialEq, Eq, Structural)]
pub struct Component {
    pub kind: u32,
    pub value: u64,
    pub reference: Option<Entity>,
}

impl Component {
    /// A component without a reference.
    pub fn new(kind: u32, value: u64) -> (c: Component)
        ensures
            c == (Component { kind, value, reference: None }),
    {
        Component { kind, value, reference: None }
    }

    /// A component that refers to `target`.
    pub fn with_reference(kind: u32, value: u64, target: Entity) -> (c: Component)
        ensures
            c == (Component { kind, value, reference: Some(target) }),
    {
        Component { kind, value, reference: Some(target) }
    }
}

/// Copies a list of components.
pub fn copy_components(list: &Vec<Component>) -> (out: Vec<Component>)
    ensures
        out@ == list@,
{
    let mut out: Vec<Component> = Vec::new();
    let mut i: usize = 0;
    while i < list.len()
        invariant
            i <= list.len(),
            out@ == list@.subrange(0, i as int),
        decreases list.len() - i,
    {
        out.push(list[i]);
        i += 1;
        assert(out@ =~= list@.subrange(0, i as int));
    }
    assert(list@.subrange(0, list.len() as int) =~= list@);
    out
}

/// Whether `kinds` holds `kind`.
pub fn holds_kind(kinds: &Vec<u32>, kind: u32) -> (found: bool)
    ensures
        found == kinds@.contains(kind),
{
    let mut i: usize = 0;
    while i < kinds.len()
        invariant
            i <= kinds.len(),
            !kinds@.subrange(0, i as int).contains(kind),
        decreases kinds.len() - i,
    {
        if kinds[i] == kind {
            return true;
        }
        i += 1;
        assert forall|j: int| 0 <= j < i implies kinds@.subrange(0, i as int)[j] != kind by {
            if j < i - 1 {
                assert(kinds@.subrange(0, i - 1)[j] == kinds@[j]);
                assert(kinds@.subrange(0, i - 1).contains(kinds@[j]));
            }
        }
    }
    assert(kinds@.subrange(0, kinds.len() as int) =~= kinds@);
    false
}

} // verus!
