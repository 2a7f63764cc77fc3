use bevy::ecs::entity::{Entity as WorldEntity, EntityMap};
use bevy_atomic_save::{despawn_recursive, Component, Entity, Loaded, Save, Store};

#[test]
fn the_mapping_of_an_entity_map_is_keyed_by_index() {
    let mut map = EntityMap::default();
    map.insert(WorldEntity::from_raw(3), WorldEntity::from_bits((2u64 << 32) | 7));
    map.insert(WorldEntity::from_raw(4), WorldEntity::from_raw(9));
    map.insert(WorldEntity::from_bits((6u64 << 32) | 11), WorldEntity::from_raw(1));
    let loaded = Loaded::from_entity_map(&map);
    assert_eq!(
        loaded.entity(Entity { index: 3, generation: 5 }),
        Some(Entity { index: 7, generation: 2 })
    );
    assert_eq!(loaded.entity(Entity::from_raw(4)), Some(Entity { index: 9, generation: 0 }));
    assert_eq!(loaded.entity(Entity::from_raw(11)), Some(Entity { index: 1, generation: 0 }));
    assert_eq!(loaded.entity(Entity::from_raw(7)), None);
    assert_eq!(loaded.entity(Entity::from_raw(9)), None);
    assert_eq!(loaded.entity(Entity::from_raw(6)), None);
}

#[test]
fn the_mapping_of_an_empty_entity_map_is_empty() {
    let map = EntityMap::default();
    let loaded = Loaded::from_entity_map(&map);
    assert_eq!(loaded.entity(Entity::from_raw(0)), None);
}

#[test]
fn despawn_takes_the_contained_entities_along() {
    let mut store = Store::new();
    let root = store.spawn().unwrap();
    let child = store.spawn_child(root).unwrap();
    let grandchild = store.spawn_child(child).unwrap();
    let other = store.spawn().unwrap();
    let other_child = store.spawn_child(other).unwrap();
    store.insert(grandchild, Component::new(1, 1));
    store.insert(other_child, Component::new(1, 2));
    Save::set(&mut store, other, true);
    assert!(store.is_within(grandchild.index as usize, root.index as usize));
    assert!(store.is_within(root.index as usize, root.index as usize));
    assert!(!store.is_within(root.index as usize, child.index as usize));
    assert!(!store.is_within(other_child.index as usize, root.index as usize));
    assert!(despawn_recursive(&mut store, child));
    assert!(store.contains(root));
    assert!(!store.contains(child));
    assert!(!store.contains(grandchild));
    assert!(store.contains(other));
    assert!(store.contains(other_child));
    assert!(Save::marks(&store, other));
    assert_eq!(store.get(other_child).unwrap(), vec![Component::new(1, 2)]);
    assert!(!despawn_recursive(&mut store, child));
    assert!(!despawn_recursive(&mut store, Entity { index: 0, generation: 3 }));
    assert!(store.contains(root));
    assert!(store.is_consistent());
}
