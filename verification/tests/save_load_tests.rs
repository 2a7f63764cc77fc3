use bevy_atomic_save::{
    finish_load, fix_references, load, load_world, read_failed, save, save_world, select, should_load,
    should_save, unload_world, Component, Entity, FromLoaded, IntegrityFault, LoadError, LoadState,
    LoadWorld, Loaded, RegisterLoaded, Request, Save, SaveMode, SavePlugin, SaveStage, SaveWorld,
    Scene, SceneEntity, Store, Unload,
};

const NAME: u32 = 1;
const LINK: u32 = 2;
const VISUAL: u32 = 3;

fn registered() -> Store {
    let mut store = Store::new();
    store.register_type(NAME);
    store.register_type(LINK);
    store.register_loaded(LINK);
    store
}

fn flat(scene: &Scene) -> Vec<(u32, Vec<Component>)> {
    scene.entities.iter().map(|e| (e.index, e.components.clone())).collect()
}

#[test]
fn filtered_save_captures_only_marked_entities() {
    let mut store = registered();
    let a = store.spawn().unwrap();
    let b = store.spawn().unwrap();
    let c = store.spawn().unwrap();
    store.insert(a, Component::new(NAME, 1));
    store.insert(b, Component::new(NAME, 2));
    store.insert(c, Component::new(NAME, 3));
    Save::set(&mut store, a, true);
    Save::set(&mut store, c, true);
    assert_eq!(select(&store, SaveMode::Filtered), vec![a, c]);
    SaveWorld::save(&mut store, String::from("world.ron"));
    assert!(should_save(store.request.as_ref()));
    let job = save(&mut store).unwrap();
    assert_eq!(job.path, "world.ron");
    assert_eq!(
        flat(&job.scene),
        vec![(0, vec![Component::new(NAME, 1)]), (2, vec![Component::new(NAME, 3)])]
    );
    assert!(store.request.is_none());
    assert!(store.contains(a) && store.contains(b) && store.contains(c));
}

#[test]
fn dump_captures_entities_without_the_marker() {
    let mut store = registered();
    let a = store.spawn().unwrap();
    let b = store.spawn().unwrap();
    store.insert(a, Component::new(NAME, 1));
    store.insert(b, Component::with_reference(LINK, 0, Entity { index: 9, generation: 0 }));
    Save::set(&mut store, a, true);
    store.dump(String::from("dump.ron"));
    let job = save(&mut store).unwrap();
    assert_eq!(job.path, "dump.ron");
    assert_eq!(
        flat(&job.scene),
        vec![
            (0, vec![Component::new(NAME, 1)]),
            (1, vec![Component::with_reference(LINK, 0, Entity { index: 9, generation: 0 })]),
        ]
    );
    // Loading a dump is allowed to leave a reference dangling: mending reports it.
    let mut target = registered();
    let created = load_world(&mut target, job.scene).unwrap();
    assert_eq!(created.len(), 2);
    assert!(fix_references(&mut target).is_err());
}

#[test]
fn save_without_a_save_request_does_nothing() {
    let mut store = registered();
    let a = store.spawn().unwrap();
    Save::set(&mut store, a, true);
    assert!(save(&mut store).is_none());
    LoadWorld::load(&mut store, String::from("f"));
    assert!(save(&mut store).is_none());
    assert!(matches!(store.request, Some(Request::Load { .. })));
    assert!(store.contains(a));
}

#[test]
fn an_empty_selection_gives_an_empty_scene() {
    let mut store = registered();
    store.spawn().unwrap();
    SaveWorld::save(&mut store, String::from("f"));
    let job = save(&mut store).unwrap();
    assert!(job.scene.entities.is_empty());
}

#[test]
fn extraction_omits_unregistered_kinds() {
    let mut store = registered();
    let a = store.spawn().unwrap();
    store.insert(a, Component::new(VISUAL, 7));
    store.insert(a, Component::new(NAME, 1));
    let scene = save_world(&store, vec![a]);
    assert_eq!(flat(&scene), vec![(0, vec![Component::new(NAME, 1)])]);
    assert_eq!(store.get(a).unwrap(), vec![Component::new(VISUAL, 7), Component::new(NAME, 1)]);
}

#[test]
fn extraction_hands_entities_out_by_rising_index() {
    let mut store = registered();
    let a = store.spawn().unwrap();
    let b = store.spawn().unwrap();
    store.insert(a, Component::new(NAME, 1));
    store.insert(b, Component::new(NAME, 2));
    let scene = save_world(&store, vec![b, a]);
    assert_eq!(
        flat(&scene),
        vec![(0, vec![Component::new(NAME, 1)]), (1, vec![Component::new(NAME, 2)])]
    );
}

#[test]
fn an_entity_listed_twice_is_extracted_once() {
    let mut store = registered();
    let a = store.spawn().unwrap();
    let b = store.spawn().unwrap();
    let c = store.spawn().unwrap();
    store.insert(a, Component::new(NAME, 1));
    store.insert(b, Component::new(NAME, 2));
    store.insert(c, Component::new(NAME, 3));
    let scene = save_world(&store, vec![c, a, c, a, a]);
    assert_eq!(
        flat(&scene),
        vec![(0, vec![Component::new(NAME, 1)]), (2, vec![Component::new(NAME, 3)])]
    );
    assert!(save_world(&store, Vec::new()).entities.is_empty());
}

#[test]
fn round_trip_keeps_component_values() {
    let mut store = registered();
    let a = store.spawn().unwrap();
    let b = store.spawn().unwrap();
    store.insert(a, Component::new(NAME, 11));
    store.insert(b, Component::new(NAME, 22));
    Save::set(&mut store, a, true);
    Save::set(&mut store, b, true);
    SaveWorld::save(&mut store, String::from("f"));
    let job = save(&mut store).unwrap();
    LoadWorld::load(&mut store, String::from("f"));
    let created = load_world(&mut store, job.scene).unwrap();
    assert_eq!(created.len(), 2);
    assert!(!store.contains(a));
    assert!(!store.contains(b));
    let loaded = store.loaded.as_ref().unwrap();
    let new_a = loaded.entity(a).unwrap();
    let new_b = loaded.entity(b).unwrap();
    assert_eq!(created, vec![new_a, new_b]);
    assert_eq!(new_a, Entity { index: 0, generation: 1 });
    assert_eq!(new_b, Entity { index: 1, generation: 1 });
    assert_eq!(store.get(new_a).unwrap(), vec![Component::new(NAME, 11)]);
    assert_eq!(store.get(new_b).unwrap(), vec![Component::new(NAME, 22)]);
    assert!(Save::marks(&store, new_a));
    assert!(Save::marks(&store, new_b));
    assert_eq!(store.restored_from(new_a), Some(0));
    assert_eq!(store.restored_from(new_b), Some(1));
    assert_eq!(store.state, LoadState::AwaitingFixup);
    assert!(store.is_consistent());
}

#[test]
fn references_point_at_the_new_entities_after_mending() {
    let mut source = registered();
    let filler = source.spawn().unwrap();
    let b = source.spawn().unwrap();
    let a = source.spawn().unwrap();
    let _ = filler;
    source.insert(b, Component::new(NAME, 5));
    source.insert(a, Component::with_reference(LINK, 1, b));
    Save::set(&mut source, a, true);
    Save::set(&mut source, b, true);
    SaveWorld::save(&mut source, String::from("f"));
    let job = save(&mut source).unwrap();

    let mut target = registered();
    let created = load_world(&mut target, job.scene).unwrap();
    assert_eq!(fix_references(&mut target), Ok(()));
    let loaded = target.loaded.as_ref().unwrap();
    let new_a = loaded.entity(a).unwrap();
    let new_b = loaded.entity(b).unwrap();
    assert_eq!(created, vec![new_b, new_a]);
    assert_eq!(target.get(new_a).unwrap(), vec![Component::with_reference(LINK, 1, new_b)]);
    assert_eq!(target.get(new_b).unwrap(), vec![Component::new(NAME, 5)]);
}

#[test]
fn load_into_a_store_with_unrelated_entities() {
    let mut source = registered();
    let w = source.spawn().unwrap();
    let p = source.spawn().unwrap();
    source.insert(w, Component::new(NAME, 100));
    source.insert(p, Component::with_reference(LINK, 200, w));
    Save::set(&mut source, w, true);
    Save::set(&mut source, p, true);
    SaveWorld::save(&mut source, String::from("f"));
    let job = save(&mut source).unwrap();

    let mut target = registered();
    let others = vec![
        target.spawn().unwrap(),
        target.spawn().unwrap(),
        target.spawn().unwrap(),
    ];
    for (n, other) in others.iter().enumerate() {
        target.insert(*other, Component::new(NAME, n as u64));
    }
    LoadWorld::load(&mut target, String::from("f"));
    assert_eq!(load(&mut target), Some(String::from("f")));
    let created = load_world(&mut target, job.scene).unwrap();
    assert_eq!(fix_references(&mut target), Ok(()));

    let from_p: Vec<usize> = (0..target.meta.len())
        .filter(|i| target.meta[*i].alive && target.meta[*i].restored == Some(p.index))
        .collect();
    let from_w: Vec<usize> = (0..target.meta.len())
        .filter(|i| target.meta[*i].alive && target.meta[*i].restored == Some(w.index))
        .collect();
    assert_eq!(from_p.len(), 1);
    assert_eq!(from_w.len(), 1);
    let new_p = Entity { index: from_p[0] as u32, generation: target.meta[from_p[0]].generation };
    let new_w = Entity { index: from_w[0] as u32, generation: target.meta[from_w[0]].generation };
    assert_eq!(created, vec![new_w, new_p]);
    assert_eq!(target.get(new_p).unwrap(), vec![Component::with_reference(LINK, 200, new_w)]);
    assert_eq!(target.get(new_w).unwrap(), vec![Component::new(NAME, 100)]);
    for (n, other) in others.iter().enumerate() {
        assert!(target.contains(*other));
        assert_ne!(*other, new_p);
        assert_ne!(*other, new_w);
        assert_ne!(other.index, new_w.index);
        assert_ne!(other.index, new_p.index);
        assert_eq!(target.get(*other).unwrap(), vec![Component::new(NAME, n as u64)]);
        assert_eq!(target.restored_from(*other), None);
    }
    finish_load(&mut target);
    assert!(target.request.is_none());
    assert!(target.loaded.is_none());
    assert_eq!(target.restored_from(new_p), None);
    assert_eq!(target.state, LoadState::Idle);
    assert!(target.is_consistent());
}

#[test]
fn load_clears_marked_entities_and_spares_the_rest() {
    let mut store = registered();
    let plain = store.spawn().unwrap();
    let saved = store.spawn().unwrap();
    let child = store.spawn_child(saved).unwrap();
    let temporary = store.spawn().unwrap();
    store.insert(plain, Component::new(NAME, 1));
    Save::set(&mut store, saved, true);
    Unload::set(&mut store, temporary, true);
    let scene = Scene { entities: vec![SceneEntity { index: 40, components: vec![Component::new(NAME, 9)] }] };
    let created = load_world(&mut store, scene).unwrap();
    assert!(store.contains(plain));
    assert_eq!(store.get(plain).unwrap(), vec![Component::new(NAME, 1)]);
    assert!(!store.contains(saved));
    assert!(!store.contains(child));
    assert!(!store.contains(temporary));
    assert_eq!(created, vec![Entity { index: 1, generation: 1 }]);
    assert_eq!(store.loaded.as_ref().unwrap().entity(Entity::from_raw(40)), Some(created[0]));
    assert_eq!(store.loaded.as_ref().unwrap().entity(Entity::from_raw(1)), None);
}

#[test]
fn a_scene_with_an_unknown_kind_is_refused_after_unloading() {
    let mut store = registered();
    let saved = store.spawn().unwrap();
    let plain = store.spawn().unwrap();
    Save::set(&mut store, saved, true);
    let scene = Scene { entities: vec![SceneEntity { index: 0, components: vec![Component::new(VISUAL, 1)] }] };
    assert_eq!(load_world(&mut store, scene), Err(LoadError::Schema));
    assert!(!store.contains(saved));
    assert!(store.contains(plain));
    assert!(store.loaded.is_none());
    assert_eq!(store.state, LoadState::Idle);
}

#[test]
fn a_reference_to_an_entity_that_was_not_saved_is_a_fault() {
    let mut source = registered();
    let outsider = source.spawn().unwrap();
    let holder = source.spawn().unwrap();
    source.insert(holder, Component::with_reference(LINK, 3, outsider));
    Save::set(&mut source, holder, true);
    SaveWorld::save(&mut source, String::from("f"));
    let job = save(&mut source).unwrap();
    let mut target = registered();
    let created = load_world(&mut target, job.scene).unwrap();
    let before = target.components.clone();
    assert_eq!(
        fix_references(&mut target),
        Err(IntegrityFault {
            entity: created[0],
            component: Component::with_reference(LINK, 3, outsider),
        })
    );
    assert_eq!(target.components, before);
    assert!(target.loaded.is_some());
}

#[test]
fn only_registered_kinds_are_mended() {
    let mut source = Store::new();
    source.register_type(NAME);
    source.register_type(LINK);
    let a = source.spawn().unwrap();
    let b = source.spawn().unwrap();
    source.insert(a, Component::with_reference(NAME, 1, b));
    source.insert(a, Component::with_reference(LINK, 2, b));
    Save::set(&mut source, a, true);
    Save::set(&mut source, b, true);
    let scene = save_world(&source, vec![b, a]);
    let mut target = registered();
    target.spawn().unwrap();
    let created = load_world(&mut target, scene).unwrap();
    assert_eq!(fix_references(&mut target), Ok(()));
    assert_eq!(
        target.get(created[0]).unwrap(),
        vec![Component::with_reference(NAME, 1, b), Component::with_reference(LINK, 2, created[1])]
    );
}

#[test]
fn a_surviving_entity_is_mended_too() {
    let mut store = registered();
    let saved = store.spawn().unwrap();
    let watcher = store.spawn().unwrap();
    let filler = store.spawn().unwrap();
    store.insert(saved, Component::new(NAME, 4));
    store.insert(watcher, Component::with_reference(LINK, 7, saved));
    store.insert(watcher, Component::with_reference(NAME, 8, saved));
    Save::set(&mut store, saved, true);
    Unload::set(&mut store, filler, true);
    SaveWorld::save(&mut store, String::from("f"));
    let job = save(&mut store).unwrap();
    // Occupy the slot of the saved entity, so that the new one lands elsewhere.
    unload_world(&mut store);
    let squatter = store.spawn().unwrap();
    assert_eq!(squatter.index, saved.index);
    let created = load_world(&mut store, job.scene).unwrap();
    assert_eq!(created, vec![Entity { index: 2, generation: 1 }]);
    assert_eq!(store.restored_from(watcher), None);
    assert_eq!(fix_references(&mut store), Ok(()));
    assert_eq!(
        store.get(watcher).unwrap(),
        vec![
            Component::with_reference(LINK, 7, created[0]),
            Component::with_reference(NAME, 8, saved),
        ]
    );
    assert_eq!(store.get(created[0]).unwrap(), vec![Component::new(NAME, 4)]);
}

#[test]
fn a_dangling_reference_of_a_surviving_entity_is_a_fault() {
    let mut store = registered();
    let other = store.spawn().unwrap();
    let watcher = store.spawn().unwrap();
    store.insert(watcher, Component::with_reference(LINK, 7, other));
    let scene = Scene { entities: vec![SceneEntity { index: 5, components: vec![] }] };
    load_world(&mut store, scene).unwrap();
    assert_eq!(
        fix_references(&mut store),
        Err(IntegrityFault {
            entity: watcher,
            component: Component::with_reference(LINK, 7, other),
        })
    );
    assert_eq!(store.get(watcher).unwrap(), vec![Component::with_reference(LINK, 7, other)]);
}

#[test]
fn mending_a_second_time_changes_nothing() {
    let mut source = registered();
    let b = source.spawn().unwrap();
    let a = source.spawn().unwrap();
    source.insert(a, Component::with_reference(LINK, 1, b));
    Save::set(&mut source, a, true);
    Save::set(&mut source, b, true);
    let scene = save_world(&source, vec![b, a]);
    let mut target = registered();
    target.spawn().unwrap();
    load_world(&mut target, scene).unwrap();
    assert_eq!(fix_references(&mut target), Ok(()));
    finish_load(&mut target);
    let components = target.components.clone();
    let meta = target.meta.clone();
    assert_eq!(fix_references(&mut target), Ok(()));
    assert_eq!(target.components, components);
    assert_eq!(target.meta, meta);
}

#[test]
fn a_load_starts_by_unloading_and_names_the_file() {
    let mut store = registered();
    let saved = store.spawn().unwrap();
    let plain = store.spawn().unwrap();
    Save::set(&mut store, saved, true);
    assert_eq!(load(&mut store), None);
    assert!(store.contains(saved));
    LoadWorld::load(&mut store, String::from("saves/one.ron"));
    assert!(should_load(store.request.as_ref()));
    assert_eq!(load(&mut store), Some(String::from("saves/one.ron")));
    assert_eq!(store.state, LoadState::Reading);
    assert!(!store.contains(saved));
    assert!(store.contains(plain));
    read_failed(&mut store);
    assert_eq!(store.state, LoadState::Idle);
    assert!(!store.contains(saved));
    assert!(store.contains(plain));
    assert!(should_load(store.request.as_ref()));
    finish_load(&mut store);
    assert!(store.request.is_none());
}

#[test]
fn a_new_request_replaces_the_pending_one() {
    let mut store = Store::new();
    SaveWorld::save(&mut store, String::from("a"));
    store.dump(String::from("b"));
    assert!(matches!(&store.request, Some(Request::Save { path, mode: SaveMode::Dump }) if path == "b"));
    LoadWorld::load(&mut store, String::from("c"));
    assert!(matches!(&store.request, Some(Request::Load { path }) if path == "c"));
    assert!(!should_save(store.request.as_ref()));
}

#[test]
fn requests_say_what_they_ask_for() {
    let s = Request::Save { path: String::from("x"), mode: SaveMode::Filtered };
    let l = Request::Load { path: String::from("x") };
    assert!(s.should_save() && !s.should_load());
    assert!(l.should_load() && !l.should_save());
    assert!(should_save(Some(&s)));
    assert!(!should_save(Some(&l)));
    assert!(!should_save(None));
    assert!(should_load(Some(&l)));
    assert!(!should_load(Some(&s)));
    assert!(!should_load(None));
}

#[test]
fn phases_run_in_a_fixed_order() {
    assert_eq!(
        SavePlugin.build(),
        vec![SaveStage::Load, SaveStage::PostLoad, SaveStage::Save]
    );
    assert_eq!(SavePlugin::position(SaveStage::Load), 0);
    assert_eq!(SavePlugin::position(SaveStage::PostLoad), 1);
    assert_eq!(SavePlugin::position(SaveStage::Save), 3);
    let s = Request::Save { path: String::from("x"), mode: SaveMode::Dump };
    let l = Request::Load { path: String::from("x") };
    assert!(SavePlugin::runs(SaveStage::Save, Some(&s)));
    assert!(!SavePlugin::runs(SaveStage::Load, Some(&s)));
    assert!(!SavePlugin::runs(SaveStage::PostLoad, Some(&s)));
    assert!(!SavePlugin::runs(SaveStage::Save, Some(&l)));
    assert!(SavePlugin::runs(SaveStage::Load, Some(&l)));
    assert!(SavePlugin::runs(SaveStage::PostLoad, Some(&l)));
    assert!(!SavePlugin::runs(SaveStage::Save, None));
    assert!(!SavePlugin::runs(SaveStage::Load, None));
}

#[test]
fn the_mapping_is_keyed_by_index_alone() {
    let new = Entity { index: 8, generation: 3 };
    let loaded = Loaded::from_pairs(&vec![(2, Entity { index: 1, generation: 1 }), (5, new)]);
    assert_eq!(loaded.entity(Entity { index: 5, generation: 0 }), Some(new));
    assert_eq!(loaded.entity(Entity { index: 5, generation: 77 }), Some(new));
    assert_eq!(loaded.entity(Entity { index: 2, generation: 0 }), Some(Entity { index: 1, generation: 1 }));
    assert_eq!(loaded.entity(Entity { index: 8, generation: 3 }), None);
}

#[test]
fn a_later_pair_replaces_an_earlier_one() {
    let first = Entity { index: 1, generation: 0 };
    let second = Entity { index: 2, generation: 0 };
    let loaded = Loaded::from_pairs(&vec![(4, first), (4, second)]);
    assert_eq!(loaded.entity(Entity::from_raw(4)), Some(second));
}

#[test]
fn values_with_references_move_over() {
    let new = Entity { index: 8, generation: 3 };
    let loaded = Loaded::from_pairs(&vec![(5, new)]);
    let mut entity = Entity { index: 5, generation: 1 };
    entity.from_loaded(&loaded);
    assert_eq!(entity, new);
    let mut some = Some(Entity { index: 5, generation: 0 });
    some.from_loaded(&loaded);
    assert_eq!(some, Some(new));
    let mut none: Option<Entity> = None;
    none.from_loaded(&loaded);
    assert_eq!(none, None);
    let mut component = Component::with_reference(LINK, 4, Entity::from_raw(5));
    component.from_loaded(&loaded);
    assert_eq!(component, Component::with_reference(LINK, 4, new));
}

#[test]
fn registering_a_kind_twice_registers_it_once() {
    let mut store = Store::new();
    store.register_loaded(LINK);
    store.register_loaded(LINK);
    store.register_loaded(NAME);
    assert_eq!(store.fixup, vec![LINK, NAME]);
}

#[test]
fn unload_then_apply_is_what_load_world_does() {
    let mut one = registered();
    let mut two = registered();
    for store in [&mut one, &mut two] {
        let a = store.spawn().unwrap();
        store.spawn().unwrap();
        Save::set(store, a, true);
    }
    unload_world(&mut one);
    let scene = || Scene { entities: vec![SceneEntity { index: 3, components: vec![Component::new(NAME, 1)] }] };
    load_world(&mut one, scene()).unwrap();
    load_world(&mut two, scene()).unwrap();
    assert_eq!(one.meta, two.meta);
    assert_eq!(one.components, two.components);
}

#[test]
fn an_empty_mapping_knows_no_entity() {
    let loaded = Loaded::from_pairs(&Vec::new());
    assert_eq!(loaded.entity(Entity::from_raw(0)), None);
    assert_eq!(loaded.entity(Entity { index: 3, generation: 1 }), None);
}

#[test]
fn a_scene_with_two_components_of_one_kind_is_refused() {
    let mut store = registered();
    let saved = store.spawn().unwrap();
    Save::set(&mut store, saved, true);
    let scene = Scene {
        entities: vec![SceneEntity {
            index: 0,
            components: vec![Component::new(NAME, 1), Component::new(NAME, 2)],
        }],
    };
    assert_eq!(load_world(&mut store, scene), Err(LoadError::Format));
    assert!(!store.contains(saved));
    assert!(store.loaded.is_none());
}

#[test]
fn a_scene_with_one_index_twice_is_refused() {
    let mut store = registered();
    let scene = Scene {
        entities: vec![
            SceneEntity { index: 5, components: vec![Component::new(NAME, 1)] },
            SceneEntity { index: 5, components: vec![Component::new(NAME, 2)] },
        ],
    };
    assert_eq!(load_world(&mut store, scene), Err(LoadError::Format));
    assert!(store.meta.is_empty());
    assert!(store.loaded.is_none());
}

#[test]
fn every_entry_of_a_scene_has_its_own_mapping_entry() {
    let mut store = registered();
    store.spawn().unwrap();
    let scene = Scene {
        entities: vec![
            SceneEntity { index: 7, components: vec![Component::new(NAME, 1)] },
            SceneEntity { index: 3, components: vec![Component::new(NAME, 2)] },
        ],
    };
    let created = load_world(&mut store, scene).unwrap();
    let loaded = store.loaded.as_ref().unwrap();
    assert_eq!(loaded.entity(Entity::from_raw(7)), Some(created[0]));
    assert_eq!(loaded.entity(Entity::from_raw(3)), Some(created[1]));
    assert_eq!(loaded.entity(Entity::from_raw(0)), None);
    assert_ne!(created[0], created[1]);
}

#[test]
fn new_entities_take_the_lowest_free_slots() {
    let mut store = registered();
    let a = store.spawn().unwrap();
    let b = store.spawn().unwrap();
    let c = store.spawn().unwrap();
    store.spawn().unwrap();
    Save::set(&mut store, a, true);
    Unload::set(&mut store, c, true);
    let _ = b;
    let scene = Scene {
        entities: vec![
            SceneEntity { index: 9, components: vec![] },
            SceneEntity { index: 8, components: vec![] },
            SceneEntity { index: 7, components: vec![] },
        ],
    };
    let created = load_world(&mut store, scene).unwrap();
    assert_eq!(
        created,
        vec![
            Entity { index: 0, generation: 1 },
            Entity { index: 2, generation: 1 },
            Entity { index: 4, generation: 0 },
        ]
    );
}
