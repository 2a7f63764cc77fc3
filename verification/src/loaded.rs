//! The mapping from saved indices to the entities that a load created.

use vstd::prelude::*;
use crate::entity::Entity;

verus! {

/// The mapping from the index under which an entity was saved to the entity that the last
/// load created for it. It exists from the end of a load until the load is finished.
///
/// The entries are kept in a hash map of `bevy::utils`. Nothing is proved of that map:
/// what it holds is known to the proofs only through [`loaded_entries`] and the three
/// functions that call it.
#[verifier::external_body]
pub struct Loaded {
    map: bevy::utils::HashMap<u32, Entity>,
}

/// The entries that a [`Loaded`] holds.
pub uninterp spec fn loaded_entries(loaded: Loaded) -> Map<u32, Entity>;

/// The map from entities of a scene to the entities spawned for them, as Bevy fills it
/// when it writes a scene into a world.
#[verifier::external_type_specification]
#[verifier::external_body]
pub struct ExEntityMap(bevy::ecs::entity::EntityMap);

/// The entries that an `EntityMap` holds, each entity given by its index and generation.
pub uninterp spec fn entity_map_entries(map: bevy::ecs::entity::EntityMap) -> Map<Entity, Entity>;

/// Calls `EntityMap::iter` and hands out the entries, each entity by its index and
/// generation as `Entity::index` and `Entity::generation` give them: every pair is an
/// entry of the map, every entry is among the pairs, and no key comes twice. The order
/// is that of a hash map: nothing is said of it.
#[verifier::external_body]
fn entity_map_pairs(map: &bevy::ecs::entity::EntityMap) -> (pairs: Vec<(Entity, Entity)>)
    ensures
        forall|k: int|
            0 <= k < pairs@.len() ==> entity_map_entries(*map).contains_pair(
                (#[trigger] pairs@[k]).0,
                pairs@[k].1,
            ),
        forall|key: Entity| #[trigger]
            entity_map_entries(*map).contains_key(key) ==> exists|k: int|
                0 <= k < pairs@.len() && (#[trigger] pairs@[k]).0 == key,
        forall|a: int, b: int|
            0 <= a < b < pairs@.len() ==> (#[trigger] pairs@[a]).0 != (#[trigger] pairs@[b]).0,
{
    let mut pairs = Vec::new();
    for (from, to) in map.iter() {
        pairs.push(
            (
                Entity { index: from.index(), generation: from.generation() },
                Entity { index: to.index(), generation: to.generation() },
            ),
        );
    }
    pairs
}

/// No other key of `entries` has the index of `key`.
pub open spec fn alone_at_index(entries: Map<Entity, Entity>, key: Entity) -> bool {
    forall|other: Entity| #[trigger]
        entries.contains_key(other) && other.index == key.index ==> other == key
}

/// The map from saved index to new entity that the first `n` of `pairs` give.
pub open spec fn index_map(pairs: Seq<(Entity, Entity)>, n: int) -> Map<u32, Entity>
    decreases n,
{
    if n <= 0 {
        Map::empty()
    } else {
        index_map(pairs, n - 1).insert(pairs[n - 1].0.index, pairs[n - 1].1)
    }
}

/// An index is a key of the map of the first `n` pairs exactly if one of them has it,
/// and its value is the new entity of such a pair.
pub proof fn lemma_index_map(pairs: Seq<(Entity, Entity)>, n: int)
    requires
        0 <= n <= pairs.len(),
    ensures
        forall|i: u32| #[trigger]
            index_map(pairs, n).contains_key(i) <==> exists|k: int|
                0 <= k < n && (#[trigger] pairs[k]).0.index == i,
        forall|i: u32| #[trigger]
            index_map(pairs, n).contains_key(i) ==> exists|k: int|
                0 <= k < n && (#[trigger] pairs[k]).0.index == i && index_map(pairs, n)[i]
                    == pairs[k].1,
    decreases n,
{
    if n > 0 {
        lemma_index_map(pairs, n - 1);
        let last = pairs[n - 1];
        assert forall|i: u32| #[trigger] index_map(pairs, n).contains_key(i) implies exists|k: int|
            0 <= k < n && (#[trigger] pairs[k]).0.index == i && index_map(pairs, n)[i]
                == pairs[k].1 by {
            if i == last.0.index {
                assert(pairs[n - 1].0.index == i);
            } else {
                assert(index_map(pairs, n - 1).contains_key(i));
                let k = choose|k: int|
                    0 <= k < n - 1 && (#[trigger] pairs[k]).0.index == i && index_map(
                        pairs,
                        n - 1,
                    )[i] == pairs[k].1;
                assert(pairs[k].0.index == i);
            }
        }
        assert forall|i: u32|
            (exists|k: int| 0 <= k < n && (#[trigger] pairs[k]).0.index == i) implies #[trigger]
            index_map(pairs, n).contains_key(i) by {
            let k = choose|k: int| 0 <= k < n && (#[trigger] pairs[k]).0.index == i;
            if k < n - 1 {
                assert(pairs[k].0.index == i);
                assert(index_map(pairs, n - 1).contains_key(i));
            }
        }
    }
}

/// The map that the first `n` of `pairs` give.
pub open spec fn pairs_map(pairs: Seq<(u32, Entity)>, n: int) -> Map<u32, Entity>
    decreases n,
{
    if n <= 0 {
        Map::empty()
    } else {
        pairs_map(pairs, n - 1).insert(pairs[n - 1].0, pairs[n - 1].1)
    }
}

impl Loaded {
    /// The entries as a map from saved index to new entity.
    pub open spec fn view(&self) -> Map<u32, Entity> {
        loaded_entries(*self)
    }

    /// Calls `HashMap::default` of `bevy::utils::HashMap`: the new map holds no entry.
    #[verifier::external_body]
    pub(crate) fn empty() -> (fresh: Loaded)
        ensures
            loaded_entries(fresh) =~= Map::empty(),
    {
        Loaded { map: bevy::utils::HashMap::default() }
    }

    /// Calls `HashMap::insert` of `bevy::utils::HashMap`: afterwards `index` maps to
    /// `entity`, whatever it mapped to before, and every other entry is as it was.
    #[verifier::external_body]
    pub(crate) fn record(&mut self, index: u32, entity: Entity)
        ensures
            loaded_entries(*final(self)) == loaded_entries(*old(self)).insert(index, entity),
    {
        self.map.insert(index, entity);
    }

    /// Calls `HashMap::get` of `bevy::utils::HashMap`: the value under `index`, if the
    /// map has that key.
    #[verifier::external_body]
    pub(crate) fn lookup(&self, index: u32) -> (found: Option<Entity>)
        ensures
            found == (if loaded_entries(*self).contains_key(index) {
                Some(loaded_entries(*self)[index])
            } else {
                None
            }),
    {
        self.map.get(&index).copied()
    }

    /// The mapping that holds `pairs`, each a saved index with the entity created for it.
    /// Of two pairs with one index the later one counts.
    pub fn from_pairs(pairs: &Vec<(u32, Entity)>) -> (made: Loaded)
        ensures
            made@ == pairs_map(pairs@, pairs@.len() as int),
    {
        let mut made = Loaded::empty();
        let mut k: usize = 0;
        while k < pairs.len()
            invariant
                k <= pairs.len(),
                made@ == pairs_map(pairs@, k as int),
            decreases pairs.len() - k,
        {
            let pair = pairs[k];
            made.record(pair.0, pair.1);
            k += 1;
        }
        made
    }

    /// The mapping for the entities that Bevy spawned from a scene: the index of each
    /// entity of the scene maps to the entity spawned for it. Where two entities of the
    /// scene share an index, the index maps to the entity spawned for one of them; which
    /// one, the order of a hash map decides.
    pub fn from_entity_map(map: &bevy::ecs::entity::EntityMap) -> (made: Loaded)
        ensures
            forall|i: u32| #[trigger]
                made@.contains_key(i) <==> exists|key: Entity| #[trigger]
                    entity_map_entries(*map).contains_key(key) && key.index == i,
            forall|i: u32| #[trigger]
                made@.contains_key(i) ==> exists|key: Entity| #[trigger]
                    entity_map_entries(*map).contains_key(key) && key.index == i && made@[i]
                        == entity_map_entries(*map)[key],
            forall|key: Entity| #[trigger]
                entity_map_entries(*map).contains_key(key) && alone_at_index(
                    entity_map_entries(*map),
                    key,
                ) ==> made@[key.index] == entity_map_entries(*map)[key],
    {
        let pairs = entity_map_pairs(map);
        let mut made = Loaded::empty();
        let mut k: usize = 0;
        while k < pairs.len()
            invariant
                k <= pairs.len(),
                made@ == index_map(pairs@, k as int),
            decreases pairs.len() - k,
        {
            let pair = pairs[k];
            made.record(pair.0.index, pair.1);
            k += 1;
        }
        proof {
            lemma_index_map(pairs@, pairs@.len() as int);
            let entries = entity_map_entries(*map);
            assert forall|i: u32| #[trigger] made@.contains_key(i) implies exists|key: Entity| #[trigger]
                entries.contains_key(key) && key.index == i && made@[i] == entries[key] by {
                let a = choose|a: int|
                    0 <= a < pairs@.len() && (#[trigger] pairs@[a]).0.index == i && made@[i]
                        == pairs@[a].1;
                assert(entries.contains_pair(pairs@[a].0, pairs@[a].1));
                assert(entries.contains_key(pairs@[a].0));
            }
            assert forall|i: u32|
                (exists|key: Entity| #[trigger]
                    entries.contains_key(key) && key.index == i) implies #[trigger] made@.contains_key(
                i,
            ) by {
                let key = choose|key: Entity| #[trigger] entries.contains_key(key) && key.index == i;
                let a = choose|a: int| 0 <= a < pairs@.len() && (#[trigger] pairs@[a]).0 == key;
                assert(pairs@[a].0.index == i);
            }
            assert forall|key: Entity| #[trigger]
                entries.contains_key(key) && alone_at_index(entries, key) implies made@[key.index]
                == entries[key] by {
                let a = choose|a: int| 0 <= a < pairs@.len() && (#[trigger] pairs@[a]).0 == key;
                assert(pairs@[a].0.index == key.index);
                assert(made@.contains_key(key.index));
                let other = choose|other: Entity| #[trigger]
                    entries.contains_key(other) && other.index == key.index && made@[key.index]
                        == entries[other];
                assert(other == key);
            }
        }
        made
    }

    /// The new entity for a saved one. Only the index of `entity` counts: the generation
    /// of a saved identity means nothing after a load.
    pub fn entity(&self, entity: Entity) -> (found: Option<Entity>)
        ensures
            found == self.resolve(entity.index),
    {
        self.lookup(entity.index)
    }

    /// The new entity for a saved index, if the load created one.
    pub open spec fn resolve(&self, index: u32) -> Option<Entity> {
        if self@.contains_key(index) {
            Some(self@[index])
        } else {
            None
        }
    }
}

} // verus!
