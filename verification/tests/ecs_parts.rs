use uengine::any::TypeInfo;
use uengine::ecs::component::{Component, ComponentId, ComponentInfo, Components, StoragePolicy};
use uengine::ecs::component_attr::{parse_component_attr, ComponentAttr, NestedMeta};
use uengine::ecs::entity::{Entities, EntityId, EntityLocation};
use uengine::ecs::archetype::ArchetypeId;
use uengine::ecs::storage::column::Column;
use uengine::ecs::storage::table::{search_sorted, sorted_union, insert_sorted, Table};
use uengine::ecs::storage::tables::{same_ids, Tables};
use uengine::ecs::storage::{TableId, TableRow};
use uengine::ecs::system::{SystemError, SystemId};
use uengine::ecs::Error;

#[allow(dead_code)]
struct Position {
    x: u32,
    y: u32,
}

impl Component for Position {
    const STORAGE_POLICY: StoragePolicy = StoragePolicy::Dense;
}

#[allow(dead_code)]
struct Marker {
    tag: u16,
}

impl Component for Marker {
    const STORAGE_POLICY: StoragePolicy = StoragePolicy::Sparse;
}

fn ids(v: &[usize]) -> Vec<ComponentId> {
    v.iter().map(|i| ComponentId::new(*i)).collect()
}

fn attr(path: &str, nested: Vec<(&str, Option<&str>)>) -> ComponentAttr {
    ComponentAttr {
        path: path.to_string(),
        nested: nested
            .into_iter()
            .map(|(p, v)| NestedMeta { path: p.to_string(), value: v.map(|s| s.to_string()) })
            .collect(),
    }
}

#[test]
fn error_messages() {
    assert_eq!(Error::EntityAlreadyPresented.message(), "Entity is already presented");
    assert_eq!(Error::EntityNotPresented.message(), "Entity is not presented");
    assert_eq!(Error::WorldOutOfBounds.message(), "World is out of bounds");
    assert_eq!(Error::TypeNotPresented.message(), "Type is not presented");
    assert_eq!(Error::TypeAlreadyPresented.message(), "Type is already presented");
    assert_eq!(Error::ComponentAlreadyPresented.message(), "Component is already presented");
    assert_eq!(Error::SystemAlreadyRegistered("tick").message(), "System 'tick' is already registered");
    assert_eq!(Error::SystemNotRegistered("tick").message(), "System 'tick' is not registered");
    assert_eq!(Error::SystemAlreadyPresented("tick").message(), "System 'tick' is already presented");
    assert_eq!(Error::GroupNotRegistered.message(), "Group is not registered");
    assert_eq!(Error::ArchetypeAllreadyPresented.message(), "Archetype allready presented");
    assert_eq!(Error::ArchetypeNotPresented.message(), "Archetype not presented");
}

#[test]
fn system_error_message() {
    let id: SystemId<(), ()> = SystemId::new(EntityId::new(5));
    assert_eq!(id.entity(), EntityId::new(5));
    let e = SystemError::SystemNotRegistered(id);
    assert_eq!(e.message(), "System SystemId(EntityId(5)) was not registered");
    let e0: SystemError<u8, u8> = SystemError::SystemNotRegistered(SystemId::new(EntityId::new(0)));
    assert_eq!(e0.message(), "System SystemId(EntityId(0)) was not registered");
    let big: SystemError<u8, u8> = SystemError::SystemNotRegistered(SystemId::new(EntityId::new(1204)));
    assert_eq!(big.message(), "System SystemId(EntityId(1204)) was not registered");
}

#[test]
fn component_attr_defaults_to_dense() {
    assert_eq!(parse_component_attr(&[]), Ok(StoragePolicy::Dense));
    assert_eq!(parse_component_attr(&[attr("derive", vec![("whatever", None)])]), Ok(StoragePolicy::Dense));
}

#[test]
fn component_attr_storage_values() {
    assert_eq!(parse_component_attr(&[attr("component", vec![("storage", Some("sparse"))])]), Ok(StoragePolicy::Sparse));
    assert_eq!(parse_component_attr(&[attr("component", vec![("storage", Some("dense"))])]), Ok(StoragePolicy::Dense));
    assert_eq!(
        parse_component_attr(&[attr("component", vec![("storage", Some("sparse")), ("storage", Some("dense"))])]),
        Ok(StoragePolicy::Dense)
    );
}

#[test]
fn component_attr_errors() {
    assert_eq!(
        parse_component_attr(&[attr("component", vec![("layout", Some("dense"))])]),
        Err("Unsupported attribute".to_string())
    );
    assert_eq!(parse_component_attr(&[attr("component", vec![("storage", None)])]), Err("expected `=`".to_string()));
    assert_eq!(
        parse_component_attr(&[attr("component", vec![("storage", Some("packed"))])]),
        Err("Invalid storage type `packed`, expected 'dense' or 'sparse'.".to_string())
    );
}

#[test]
fn components_register_once() {
    let mut components = Components::new();
    assert_eq!(components.len(), 0);
    assert_eq!(components.get_component_id::<Position>(), None);
    let p = components.register::<Position>();
    let m = components.register::<Marker>();
    assert_eq!(p, ComponentId::new(0));
    assert_eq!(m, ComponentId::new(1));
    assert_eq!(components.register::<Position>(), p);
    assert_eq!(components.len(), 2);
    assert_eq!(components.get_component_id::<Marker>(), Some(m));
    let info = components.get_component_info(m);
    assert_eq!(info.id(), m);
    assert_eq!(*info.storage_policy(), StoragePolicy::Sparse);
    assert_eq!(info.type_info().size(), std::mem::size_of::<Marker>());
    assert_eq!(components.get_component_id_of(&TypeInfo::of::<Position>()), Some(p));
}

#[test]
fn component_info_parts() {
    let info = ComponentInfo::new::<Position>(ComponentId::new(3));
    assert_eq!(info.id().as_usize(), 3);
    assert_eq!(*info.type_info(), TypeInfo::of::<Position>());
    assert_eq!(*info.storage_policy(), StoragePolicy::Dense);
    let other = ComponentInfo::from_parts(ComponentId::new(4), TypeInfo::of::<u8>(), StoragePolicy::Sparse);
    assert_eq!(*other.storage_policy(), StoragePolicy::Sparse);
}

#[test]
fn entities_locations() {
    let mut entities = Entities::new();
    let e = EntityId::new(7);
    assert!(!entities.contains(&e));
    let l = EntityLocation::new(ArchetypeId::new(2), TableRow::new(4));
    assert_eq!(entities.set_entity_location(&e, l), None);
    assert!(entities.contains(&e));
    assert_eq!(entities.get_entity_location(&e).archetype_id(), ArchetypeId::new(2));
    assert_eq!(entities.get_entity_location(&e).table_row().as_usize(), 4);
    let l2 = EntityLocation::new(ArchetypeId::new(3), TableRow::invalid());
    assert_eq!(entities.set_entity_location(&e, l2).map(|p| p.archetype_id()), Some(ArchetypeId::new(2)));
    assert_eq!(entities.get_entity_location(&e).table_row().as_usize(), usize::MAX);
    *entities.get_entity_location_mut(&e) = EntityLocation::new(ArchetypeId::new(4), TableRow::new(1));
    assert_eq!(entities.get_entity_location(&e).archetype_id(), ArchetypeId::new(4));
    assert_eq!(entities.get_entity_location(&e).table_row().as_usize(), 1);
}

#[test]
fn ids_round_trip() {
    assert_eq!(ArchetypeId::new(9).as_usize(), 9);
    assert_eq!(TableId::new(8).as_usize(), 8);
    assert_eq!(TableId::invalid().as_usize(), usize::MAX);
    assert_eq!(TableRow::new(6).as_usize(), 6);
    assert_eq!(EntityId::new(5).as_usize(), 5);
    assert_eq!(ComponentId::new(4).as_usize(), 4);
}

#[test]
fn sorted_id_helpers() {
    let s = ids(&[1, 3, 5]);
    assert_eq!(search_sorted(&s, ComponentId::new(3)), Ok(1));
    assert_eq!(search_sorted(&s, ComponentId::new(4)), Err(2));
    assert_eq!(search_sorted(&s, ComponentId::new(0)), Err(0));
    assert_eq!(search_sorted(&s, ComponentId::new(9)), Err(3));
    assert_eq!(sorted_union(&ids(&[5, 1]), &ids(&[3, 1])), ids(&[1, 3, 5]));
    let mut v = ids(&[2, 6]);
    insert_sorted(&mut v, ComponentId::new(4));
    insert_sorted(&mut v, ComponentId::new(6));
    assert_eq!(v, ids(&[2, 4, 6]));
    assert!(same_ids(&ids(&[1, 2]), &ids(&[1, 2])));
    assert!(!same_ids(&ids(&[1, 2]), &ids(&[2, 1])));
    assert!(!same_ids(&ids(&[1]), &ids(&[1, 2])));
}

#[test]
fn tables_key_lookup_is_idempotent() {
    let mut tables = Tables::new();
    assert_eq!(tables.len(), 1);
    assert!(tables.key_of(TableId::new(0)).is_empty());
    let a = tables.get_or_insert_table(&ids(&[1, 2]));
    assert_eq!(a, TableId::new(1));
    let b = tables.get_or_insert_table(&ids(&[1, 2]));
    assert_eq!(a, b);
    assert_eq!(tables.len(), 2);
    let c = tables.get_or_insert_table(&ids(&[2]));
    assert_eq!(c, TableId::new(2));
    assert_eq!(tables.key_of(c), &ids(&[2])[..]);
    assert_eq!(tables.get_or_insert_table(&[]), TableId::new(0));
    assert!(tables.get_table(TableId::new(5)).is_none());
}

#[test]
fn column_read_after_write() {
    let mut column = Column::new::<Position>();
    let e1 = EntityId::new(1);
    let e2 = EntityId::new(2);
    assert_eq!(column.len(), 0);
    assert_eq!(column.insert_data(e1, &[1, 0, 0, 0, 2, 0, 0, 0]), None);
    assert_eq!(column.insert_data(e2, &[3, 0, 0, 0, 4, 0, 0, 0]), None);
    assert_eq!(column.get_data(&e1), Some(vec![1, 0, 0, 0, 2, 0, 0, 0]));
    assert_eq!(
        column.insert_data(e1, &[5, 0, 0, 0, 6, 0, 0, 0]),
        Some(vec![1, 0, 0, 0, 2, 0, 0, 0])
    );
    assert_eq!(column.get_data(&e1), Some(vec![5, 0, 0, 0, 6, 0, 0, 0]));
    assert_eq!(column.entities(), &[e1, e2][..]);
    assert_eq!(column.remove_data(e1), Some(vec![5, 0, 0, 0, 6, 0, 0, 0]));
    assert!(!column.contains(&e1));
    assert_eq!(column.get_data(&e1), None);
    assert_eq!(column.get_data(&e2), Some(vec![3, 0, 0, 0, 4, 0, 0, 0]));
    assert_eq!(column.remove_data(e1), None);
    assert_eq!(column.len(), 1);
}

#[test]
fn column_typed_access() {
    let info = TypeInfo::of::<Marker>();
    let mut column = Column::new::<Marker>();
    let e = EntityId::new(3);
    column.insert(&info, e, &[7, 0]);
    assert_eq!(column.get(&info, &e), Some(vec![7, 0]));
    assert_eq!(column.remove(&info, e), Some(vec![7, 0]));
    assert_eq!(column.get(&info, &e), None);
}

#[test]
fn table_columns_stay_sorted() {
    let mut table = Table::new();
    assert_eq!(table.len(), 0);
    let b = ComponentInfo::from_parts(ComponentId::new(5), TypeInfo::of::<u32>(), StoragePolicy::Dense);
    let a = ComponentInfo::from_parts(ComponentId::new(2), TypeInfo::of::<u16>(), StoragePolicy::Dense);
    assert_eq!(table.get_or_create_column(&b), 0);
    assert_eq!(table.get_or_create_column(&a), 0);
    assert_eq!(table.get_or_create_column(&b), 1);
    assert_eq!(table.components(), &ids(&[2, 5])[..]);
    assert!(table.has_column(&ComponentId::new(5)));
    assert!(!table.has_column(&ComponentId::new(3)));
    let e = EntityId::new(1);
    table.write_value(&a, e, &[1, 2]);
    assert_eq!(table.get_column(ComponentId::new(2)).unwrap().get_data(&e), Some(vec![1, 2]));
    assert_eq!(table.take_value(0, e), Some(vec![1, 2]));
    assert_eq!(table.take_value(0, e), None);
}
