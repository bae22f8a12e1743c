use uengine::ecs::archetype::ArchetypeId;
use uengine::ecs::bundle::{add_bundle_to_archetype, insert_bundle, BundleInserter};
use uengine::ecs::component::{Component, ComponentId, StoragePolicy};
use uengine::ecs::entity::EntityId;
use uengine::ecs::system::{SystemError, SystemId, Systems};
use uengine::ecs::query::{fetch, matched_archetypes, ComponentSetRequest, QueryIterator};
use uengine::ecs::world::World;
use uengine::ecs::Error;

#[allow(dead_code)]
struct Position {
    x: u32,
    y: u32,
}

impl Component for Position {
    const STORAGE_POLICY: StoragePolicy = StoragePolicy::Dense;
}

#[allow(dead_code)]
struct Velocity {
    dx: u16,
}

impl Component for Velocity {
    const STORAGE_POLICY: StoragePolicy = StoragePolicy::Dense;
}

#[allow(dead_code)]
struct Tag {
    t: u8,
}

impl Component for Tag {
    const STORAGE_POLICY: StoragePolicy = StoragePolicy::Sparse;
}

/// The value that `entity` has for `id`, read from the table of its archetype.
fn read(world: &World, entity: EntityId, id: ComponentId) -> Option<Vec<u8>> {
    let location = *world.entities().get_entity_location(&entity);
    let table_id = world.archetypes().get_archetype(location.archetype_id()).table_id();
    fetch(world, table_id, &entity, id)
}

#[test]
fn new_world_is_empty() {
    let world = World::new();
    assert_eq!(world.archetypes().len(), 1);
    assert_eq!(world.components().len(), 0);
    assert_eq!(world.storages().tables().len(), 1);
}

#[test]
fn created_entities_are_fresh() {
    let mut world = World::new();
    let a = world.create_entity().unwrap();
    let b = world.create_entity().unwrap();
    assert_eq!(a, EntityId::new(1));
    assert_eq!(b, EntityId::new(2));
    assert_ne!(a, b);
    let location = *world.entities().get_entity_location(&a);
    assert_eq!(location.archetype_id(), ArchetypeId::new(0));
    assert_eq!(location.table_row().as_usize(), usize::MAX);
    assert_eq!(world.archetypes().get_entity_archetype_id(&b), ArchetypeId::new(0));
}

#[test]
fn register_component_is_idempotent() {
    let mut world = World::new();
    let p = world.register_component::<Position>();
    let t = world.register_component::<Tag>();
    assert_eq!(world.register_component::<Position>(), p);
    assert_ne!(p, t);
    assert_eq!(world.components().len(), 2);
}

#[test]
fn insert_then_read_dense() {
    let mut world = World::new();
    let p = world.register_component::<Position>();
    let e = world.create_entity().unwrap();
    let data = vec![1u8, 0, 0, 0, 2, 0, 0, 0];
    let location = insert_bundle(&mut world, e, &[p], &[data.clone()]);
    assert_ne!(location.archetype_id(), ArchetypeId::new(0));
    assert_eq!(world.entities().get_entity_location(&e).archetype_id(), location.archetype_id());
    assert_eq!(read(&world, e, p), Some(data));
}

#[test]
fn insert_then_read_sparse() {
    let mut world = World::new();
    let t = world.register_component::<Tag>();
    let e = world.create_entity().unwrap();
    insert_bundle(&mut world, e, &[t], &[vec![9u8]]);
    assert_eq!(read(&world, e, t), Some(vec![9u8]));
    let archetype = world.archetypes().get_archetype(world.entities().get_entity_location(&e).archetype_id());
    assert_eq!(archetype.column_ids(), &[t][..]);
    assert_eq!(archetype.table_id().as_usize(), 0);
}

#[test]
fn second_insert_moves_and_keeps_values() {
    let mut world = World::new();
    let p = world.register_component::<Position>();
    let v = world.register_component::<Velocity>();
    let t = world.register_component::<Tag>();
    let e = world.create_entity().unwrap();
    let other = world.create_entity().unwrap();
    let pos = vec![1u8, 2, 3, 4, 5, 6, 7, 8];
    let vel = vec![7u8, 7];
    let l1 = insert_bundle(&mut world, e, &[p], &[pos.clone()]);
    insert_bundle(&mut world, other, &[p], &[vec![0u8; 8]]);
    let l2 = insert_bundle(&mut world, e, &[v, t], &[vel.clone(), vec![3u8]]);
    assert_ne!(l1.archetype_id(), l2.archetype_id());
    let t1 = world.archetypes().get_archetype(l1.archetype_id()).table_id();
    let t2 = world.archetypes().get_archetype(l2.archetype_id()).table_id();
    assert_ne!(t1, t2);
    assert_eq!(read(&world, e, p), Some(pos.clone()));
    assert_eq!(read(&world, e, v), Some(vel));
    assert_eq!(read(&world, e, t), Some(vec![3u8]));
    // the old table no longer holds the moved entity, the other one stays
    assert_eq!(fetch(&world, t1, &e, p), None);
    assert_eq!(read(&world, other, p), Some(vec![0u8; 8]));
    let components = world.archetypes().get_archetype(l2.archetype_id()).component_ids().to_vec();
    assert_eq!(components, vec![p, v, t]);
}

#[test]
fn inserting_present_components_overwrites_in_place() {
    let mut world = World::new();
    let p = world.register_component::<Position>();
    let e = world.create_entity().unwrap();
    let l1 = insert_bundle(&mut world, e, &[p], &[vec![1u8; 8]]);
    let archetypes = world.archetypes().len();
    let l2 = insert_bundle(&mut world, e, &[p], &[vec![2u8; 8]]);
    assert_eq!(l1, l2);
    assert_eq!(world.archetypes().len(), archetypes);
    assert_eq!(read(&world, e, p), Some(vec![2u8; 8]));
}

#[test]
fn same_bundle_gives_same_archetype() {
    let mut world = World::new();
    let p = world.register_component::<Position>();
    let v = world.register_component::<Velocity>();
    let a = add_bundle_to_archetype(&mut world, ArchetypeId::new(0), &[p, v]);
    let count = world.archetypes().len();
    let b = add_bundle_to_archetype(&mut world, ArchetypeId::new(0), &[v, p]);
    assert_eq!(a, b);
    assert_eq!(world.archetypes().len(), count);
    assert_eq!(add_bundle_to_archetype(&mut world, a, &[p]), a);
}

#[test]
fn bundle_inserter_tells_the_move() {
    let mut world = World::new();
    let p = world.register_component::<Position>();
    let t = world.register_component::<Tag>();
    let e = world.create_entity().unwrap();
    let location = *world.entities().get_entity_location(&e);
    let mut inserter = BundleInserter::new(&mut world, location.archetype_id(), &[t]);
    let l = inserter.insert(&mut world, e, location, &[t], &[vec![1u8]]);
    assert_ne!(l.archetype_id(), location.archetype_id());
    assert_eq!(world.archetypes().get_archetype(l.archetype_id()).table_id().as_usize(), 0);
    let location = *world.entities().get_entity_location(&e);
    let mut inserter = BundleInserter::new(&mut world, location.archetype_id(), &[p]);
    let l = inserter.insert(&mut world, e, location, &[p], &[vec![4u8; 8]]);
    assert_ne!(world.archetypes().get_archetype(l.archetype_id()).table_id().as_usize(), 0);
    assert_eq!(read(&world, e, t), Some(vec![1u8]));
    assert_eq!(read(&world, e, p), Some(vec![4u8; 8]));
}

#[test]
fn world_out_of_bounds_error_text() {
    assert_eq!(Error::WorldOutOfBounds.message(), "World is out of bounds");
}

#[test]
fn query_walks_matching_entities() {
    let mut world = World::new();
    let p = world.register_component::<Position>();
    let t = world.register_component::<Tag>();
    let a = world.create_entity().unwrap();
    let b = world.create_entity().unwrap();
    let c = world.create_entity().unwrap();
    insert_bundle(&mut world, a, &[p], &[vec![1u8; 8]]);
    insert_bundle(&mut world, b, &[p, t], &[vec![2u8; 8], vec![1u8]]);
    insert_bundle(&mut world, c, &[t], &[vec![3u8]]);

    let p_info = *world.components().get_component_info(p);
    let t_info = *world.components().get_component_info(t);

    let mut request = ComponentSetRequest::new();
    {
        let mut proxy = request.proxy();
        proxy.require(p_info);
    }
    assert_eq!(request.component_sets().len(), 1);
    let matched = matched_archetypes(&mut world, &request);
    assert_eq!(matched.len(), 1);
    assert!(matched[0].sparse_ids().is_empty());

    let mut found = Vec::new();
    let mut it = QueryIterator::new();
    while let Some(e) = it.next(&world, &matched, &[]) {
        found.push(e);
    }
    found.sort_by_key(|e| e.as_usize());
    assert_eq!(found, vec![a, b]);

    // the exclusion filter passes the entities whose sparse column holds them
    let mut filtered = Vec::new();
    let mut it = QueryIterator::new();
    while let Some(e) = it.next(&world, &matched, &[t]) {
        filtered.push(e);
    }
    assert_eq!(filtered, vec![b]);
    // a dense component in the exclusion list passes every entity
    let mut dense_filtered = Vec::new();
    let mut it = QueryIterator::new();
    while let Some(e) = it.next(&world, &matched, &[p]) {
        dense_filtered.push(e);
    }
    dense_filtered.sort_by_key(|e| e.as_usize());
    assert_eq!(dense_filtered, vec![a, b]);

    let mut sparse_request = ComponentSetRequest::new();
    {
        let mut proxy = sparse_request.proxy();
        proxy.require(t_info);
    }
    let matched = matched_archetypes(&mut world, &sparse_request);
    assert_eq!(matched[0].sparse_ids(), &[t][..]);
    assert_eq!(matched[0].dense_id().as_usize(), 0);
}

#[test]
fn request_require_and_exclude() {
    let mut world = World::new();
    let p = world.register_component::<Position>();
    let v = world.register_component::<Velocity>();
    let p_info = *world.components().get_component_info(p);
    let v_info = *world.components().get_component_info(v);
    let mut request = ComponentSetRequest::new();
    {
        let mut proxy = request.proxy();
        proxy.require(p_info);
        proxy.require(v_info);
    }
    assert_eq!(request.component_sets().len(), 2);
    assert_eq!(request.component_sets()[0].len(), 1);
    assert_eq!(request.component_sets()[1].len(), 2);
    {
        let mut proxy = request.proxy();
        proxy.exclude(&p_info);
    }
    assert_eq!(request.component_sets()[0].len(), 0);
    assert_eq!(request.component_sets()[1].len(), 1);
    assert_eq!(request.component_sets()[1][0].id(), v);
}

#[test]
fn systems_registry_take_and_restore() {
    let mut world = World::new();
    let mut systems: Systems<&'static str> = Systems::new();
    let id: SystemId<(), ()> = systems.register_system(&mut world, "startup").unwrap();
    assert_eq!(id.entity(), EntityId::new(1));
    let (id, system) = match systems.take_system(id) {
        Ok(taken) => taken,
        Err(_) => panic!("the system was registered"),
    };
    assert_eq!(system, "startup");
    let missing: SystemId<(), ()> = SystemId::new(id.entity());
    match systems.take_system(missing) {
        Err(SystemError::SystemNotRegistered(same)) => assert_eq!(same.entity(), id.entity()),
        Ok(_) => panic!("the system was taken out"),
    }
    systems.restore_system(&id, system);
    match systems.take_system(SystemId::<(), ()>::new(EntityId::new(1))) {
        Ok((_, again)) => assert_eq!(again, "startup"),
        Err(_) => panic!("the system was put back"),
    }
    let unknown: SystemId<(), ()> = SystemId::new(EntityId::new(42));
    let error = match systems.take_system(unknown) {
        Err(e) => e,
        Ok(_) => panic!("no system has that id"),
    };
    assert_eq!(error.message(), "System SystemId(EntityId(42)) was not registered");
}

#[test]
fn query_walk_keeps_its_position_across_tables() {
    let mut world = World::new();
    let p = world.register_component::<Position>();
    let v = world.register_component::<Velocity>();
    let a = world.create_entity().unwrap();
    let b = world.create_entity().unwrap();
    let c = world.create_entity().unwrap();
    let d = world.create_entity().unwrap();
    let e = world.create_entity().unwrap();
    insert_bundle(&mut world, a, &[p], &[vec![1u8; 8]]);
    insert_bundle(&mut world, b, &[p], &[vec![2u8; 8]]);
    for x in [c, d, e] {
        insert_bundle(&mut world, x, &[p, v], &[vec![3u8; 8], vec![4u8; 2]]);
    }
    let p_info = *world.components().get_component_info(p);
    let v_info = *world.components().get_component_info(v);
    let mut request = ComponentSetRequest::new();
    {
        let mut proxy = request.proxy();
        proxy.require(p_info);
        proxy.require(v_info);
    }
    let matched = matched_archetypes(&mut world, &request);
    assert_eq!(matched.len(), 2);
    let mut found = Vec::new();
    let mut it = QueryIterator::new();
    while let Some(x) = it.next(&world, &matched, &[]) {
        found.push(x);
    }
    // the second table is entered at the position the first one ended at
    assert_eq!(found, vec![a, b, e]);
    assert_eq!(it.next(&world, &matched, &[]), None);
}
