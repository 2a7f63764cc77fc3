use bevy_atomic_save::{unload_world, Component, Entity, Save, Store, Unload};

#[test]
fn new_store_is_empty_and_consistent() {
    let store = Store::new();
    assert!(store.is_consistent());
    assert_eq!(store.meta.len(), 0);
    assert!(store.request.is_none());
    assert!(store.loaded.is_none());
}

#[test]
fn spawn_takes_the_lowest_free_slot() {
    let mut store = Store::new();
    let a = store.spawn().unwrap();
    let b = store.spawn().unwrap();
    assert_eq!(a, Entity { index: 0, generation: 0 });
    assert_eq!(b, Entity { index: 1, generation: 0 });
    assert!(store.contains(a));
    assert!(store.contains(b));
    assert!(store.is_consistent());
}

#[test]
fn a_despawned_slot_is_reused_under_the_next_generation() {
    let mut store = Store::new();
    let a = store.spawn().unwrap();
    let b = store.spawn().unwrap();
    assert!(Unload::set(&mut store, a, true));
    unload_world(&mut store);
    assert!(!store.contains(a));
    assert!(store.contains(b));
    let c = store.spawn().unwrap();
    assert_eq!(c, Entity { index: 0, generation: 1 });
    assert!(!store.contains(a));
    assert!(store.contains(c));
    assert!(store.is_consistent());
}

#[test]
fn a_stale_identity_is_not_alive() {
    let mut store = Store::new();
    let a = store.spawn().unwrap();
    assert!(!store.contains(Entity { index: 0, generation: 5 }));
    assert!(!store.contains(Entity { index: 9, generation: 0 }));
    assert!(store.contains(a));
    assert!(store.get(Entity { index: 0, generation: 5 }).is_none());
    assert!(!store.insert(Entity { index: 9, generation: 0 }, Component::new(1, 1)));
    assert!(!Save::set(&mut store, Entity { index: 0, generation: 5 }, true));
    assert!(!Save::marks(&store, a));
}

#[test]
fn insert_replaces_the_component_of_the_same_kind() {
    let mut store = Store::new();
    let a = store.spawn().unwrap();
    assert!(store.insert(a, Component::new(1, 10)));
    assert!(store.insert(a, Component::new(2, 20)));
    assert!(store.insert(a, Component::new(1, 11)));
    assert_eq!(store.get(a).unwrap(), vec![Component::new(2, 20), Component::new(1, 11)]);
}

#[test]
fn markers_are_set_and_cleared() {
    let mut store = Store::new();
    let a = store.spawn().unwrap();
    assert!(!Save::marks(&store, a));
    assert!(!Unload::marks(&store, a));
    assert!(Save::set(&mut store, a, true));
    assert!(Save::marks(&store, a));
    assert!(!Unload::marks(&store, a));
    assert!(Unload::set(&mut store, a, true));
    assert!(Unload::marks(&store, a));
    assert!(Save::set(&mut store, a, false));
    assert!(!Save::marks(&store, a));
    assert!(Unload::marks(&store, a));
    assert!(store.is_consistent());
}

#[test]
fn spawn_child_records_the_container() {
    let mut store = Store::new();
    let root = store.spawn().unwrap();
    let child = store.spawn_child(root).unwrap();
    let grandchild = store.spawn_child(child).unwrap();
    assert_eq!(store.parent(root), None);
    assert_eq!(store.parent(child), Some(root));
    assert_eq!(store.parent(grandchild), Some(child));
    assert_eq!(store.meta[grandchild.index as usize].depth, 2);
    assert!(store.spawn_child(Entity { index: 7, generation: 0 }).is_none());
    assert!(store.is_consistent());
}

#[test]
fn a_dangling_container_is_not_consistent() {
    let mut store = Store::new();
    let a = store.spawn().unwrap();
    store.meta[a.index as usize].parent = Some(4);
    assert!(!store.is_consistent());
}

#[test]
fn unload_removes_marked_entities_and_all_they_contain() {
    let mut store = Store::new();
    let keep = store.spawn().unwrap();
    let saved = store.spawn().unwrap();
    let child = store.spawn_child(saved).unwrap();
    let grandchild = store.spawn_child(child).unwrap();
    let marked = store.spawn().unwrap();
    let keep_child = store.spawn_child(keep).unwrap();
    assert!(store.insert(keep, Component::new(1, 5)));
    assert!(store.insert(grandchild, Component::new(1, 6)));
    assert!(Save::set(&mut store, saved, true));
    assert!(Unload::set(&mut store, marked, true));
    assert!(store.is_doomed(saved.index as usize));
    assert!(store.is_doomed(child.index as usize));
    assert!(store.is_doomed(grandchild.index as usize));
    assert!(store.is_doomed(marked.index as usize));
    assert!(!store.is_doomed(keep.index as usize));
    assert!(!store.is_doomed(keep_child.index as usize));
    unload_world(&mut store);
    assert!(store.contains(keep));
    assert!(store.contains(keep_child));
    assert_eq!(store.get(keep).unwrap(), vec![Component::new(1, 5)]);
    assert_eq!(store.parent(keep_child), Some(keep));
    assert!(!store.contains(saved));
    assert!(!store.contains(child));
    assert!(!store.contains(grandchild));
    assert!(!store.contains(marked));
    assert!(store.components[grandchild.index as usize].is_empty());
    assert!(store.is_consistent());
}

#[test]
fn unload_twice_is_the_same_as_once() {
    let mut store = Store::new();
    let keep = store.spawn().unwrap();
    let saved = store.spawn().unwrap();
    assert!(Save::set(&mut store, saved, true));
    unload_world(&mut store);
    let meta = store.meta.clone();
    unload_world(&mut store);
    assert_eq!(store.meta, meta);
    assert!(store.contains(keep));
}

#[test]
fn entity_accessors() {
    let e = Entity::from_raw(7);
    assert_eq!(e.index(), 7);
    assert_eq!(e.generation(), 0);
    let c = Component::with_reference(3, 9, e);
    assert_eq!(c, Component { kind: 3, value: 9, reference: Some(e) });
    assert_eq!(Component::new(3, 9), Component { kind: 3, value: 9, reference: None });
}

#[test]
fn the_generation_wraps_around() {
    let mut store = Store::new();
    let a = store.spawn().unwrap();
    store.meta[a.index as usize].generation = u32::MAX;
    let a = Entity { index: 0, generation: u32::MAX };
    assert!(Unload::set(&mut store, a, true));
    unload_world(&mut store);
    assert_eq!(store.spawn(), Some(Entity { index: 0, generation: 0 }));
}

#[test]
fn no_child_below_the_deepest_level() {
    let mut store = Store::new();
    let a = store.spawn().unwrap();
    store.meta[a.index as usize].depth = u32::MAX;
    assert!(store.spawn_child(a).is_none());
    assert_eq!(store.meta.len(), 1);
}

#[test]
fn two_components_of_one_kind_are_not_consistent() {
    let mut store = Store::new();
    let a = store.spawn().unwrap();
    store.components[a.index as usize] = vec![Component::new(1, 1), Component::new(1, 2)];
    assert!(!store.is_consistent());
    store.components[a.index as usize] = vec![Component::new(1, 1), Component::new(2, 2)];
    assert!(store.is_consistent());
}
