use uengine::any::TypeInfo;
use uengine::ecs::entity::EntityId;
use uengine::ecs::packed::{Archetype, ArchetypeKey};
use uengine::ecs::sparse::{with_matches, without_matches, Filter, Storage, Table, With, Without};
use uengine::ecs::Error;

fn key_order(types: &[TypeInfo]) -> Vec<(u64, usize)> {
    types.iter().map(|t| (t.id(), t.size())).collect()
}

fn sorted(mut types: Vec<TypeInfo>) -> Vec<(u64, usize)> {
    types.sort_by(|a, b| (a.id(), a.size()).cmp(&(b.id(), b.size())));
    key_order(&types)
}

#[test]
fn archetype_key_sorts_and_adds_only_held_types() {
    let a = TypeInfo::of::<u8>();
    let b = TypeInfo::of::<u32>();
    let c = TypeInfo::of::<u64>();
    let mut key = ArchetypeKey::new(vec![c, a]);
    assert_eq!(key_order(key.types()), sorted(vec![a, c]));
    assert!(matches!(key.add_type(b), Err(Error::TypeAlreadyPresented)));
    assert_eq!(key_order(key.types()), sorted(vec![a, c]));
    assert!(key.add_type(a).is_ok());
    assert_eq!(key_order(key.types()), sorted(vec![a, a, c]));
}

#[test]
fn packed_archetype_rows() {
    let a = TypeInfo::of::<u16>();
    let b = TypeInfo::of::<u32>();
    let mut arch = Archetype::new(vec![b, a]);
    assert_eq!(key_order(arch.types()), sorted(vec![a, b]));
    let e = EntityId::new(1);
    assert!(matches!(arch.get_row(&e), Err(Error::EntityNotPresented)));
    assert!(arch.add_row(e).is_ok());
    assert!(matches!(arch.add_row(e), Err(Error::EntityAlreadyPresented)));
    assert_eq!(arch.get_row(&e).unwrap(), vec![0u8; 6]);
    assert!(arch.set_component(&e, &b, &[1, 2, 3, 4]).is_ok());
    assert!(arch.set_component(&e, &a, &[9, 9]).is_ok());
    assert_eq!(arch.get_component(&e, &b).unwrap(), vec![1, 2, 3, 4]);
    assert_eq!(arch.get_component(&e, &a).unwrap(), vec![9, 9]);
    assert_eq!(arch.get_row(&e).unwrap().len(), 6);
    let other = TypeInfo::of::<u64>();
    assert!(matches!(arch.get_component(&e, &other), Err(Error::TypeNotPresented)));
    assert!(matches!(arch.set_component(&e, &other, &[0; 8]), Err(Error::TypeNotPresented)));
    assert!(matches!(arch.set_component(&EntityId::new(2), &a, &[0; 2]), Err(Error::EntityNotPresented)));
    assert!(arch.remove_row(&e).is_ok());
    assert!(matches!(arch.remove_row(&e), Err(Error::EntityNotPresented)));
}

#[test]
fn packed_archetype_rows_are_independent() {
    let a = TypeInfo::of::<u16>();
    let mut arch = Archetype::new(vec![a]);
    let e1 = EntityId::new(1);
    let e2 = EntityId::new(2);
    arch.add_row(e1).unwrap();
    arch.add_row(e2).unwrap();
    arch.set_component(&e1, &a, &[1, 1]).unwrap();
    arch.set_component(&e2, &a, &[2, 2]).unwrap();
    arch.remove_row(&e1).unwrap();
    assert_eq!(arch.get_component(&e2, &a).unwrap(), vec![2, 2]);
}

#[test]
fn packed_archetype_extension() {
    let a = TypeInfo::of::<u16>();
    let b = TypeInfo::of::<u32>();
    let base = Archetype::new(vec![a]);
    let wider = base.new_with_type(&b).unwrap();
    assert_eq!(key_order(wider.types()), sorted(vec![a, b]));
    assert!(matches!(base.new_with_type(&a), Err(Error::TypeAlreadyPresented)));
    // the search compares with the key of the description type itself
    let own = TypeInfo::of::<TypeInfo>().id();
    assert!(base.contains_type(own));
    assert!(!base.contains_type(a.id()));
    assert!(!wider.contains_type(b.id()));
    assert!(!Archetype::new(Vec::new()).contains_type(own));
    assert!(base.is_subarchetype_of(&wider));
    assert!(!wider.is_subarchetype_of(&base));
    assert!(base.contains_types_of(&wider));
    assert_eq!(key_order(wider.extract_key().types()), sorted(vec![a, b]));
}

#[test]
fn sparse_storage_push_get_set() {
    let info = TypeInfo::of::<u16>();
    let mut storage = Storage::new::<u16>();
    assert_eq!(storage.info(), info);
    let e = EntityId::new(3);
    assert_eq!(storage.len(), 0);
    assert!(!storage.contains(&e));
    assert!(matches!(storage.get(&e), Err(Error::EntityNotPresented)));
    assert!(storage.push(&info, &e, &[4, 2]).is_ok());
    assert!(storage.contains(&e));
    assert_eq!(storage.len(), 1);
    assert_eq!(storage.capacity(), 4);
    assert_eq!(storage.get(&e).unwrap(), vec![4, 2]);
    // a slot within the capacity that holds no value is refused
    assert!(matches!(storage.push(&info, &EntityId::new(1), &[0, 0]), Err(Error::EntityAlreadyPresented)));
    assert_eq!(storage.len(), 1);
    // a slot that holds a value is pointed at a new one
    assert!(storage.push(&info, &e, &[7, 7]).is_ok());
    assert_eq!(storage.len(), 2);
    assert_eq!(storage.get(&e).unwrap(), vec![7, 7]);
    assert!(storage.set(&e, &[6, 6]).is_ok());
    assert_eq!(storage.get(&e).unwrap(), vec![6, 6]);
    assert!(matches!(storage.set(&EntityId::new(9), &[1, 1]), Err(Error::EntityNotPresented)));
    let wrong = TypeInfo::of::<i16>();
    assert!(matches!(storage.push(&wrong, &EntityId::new(8), &[0, 0]), Err(Error::TypeNotPresented)));
}

#[test]
fn sparse_storage_iter() {
    let info = TypeInfo::of::<u8>();
    let mut storage = Storage::new::<u8>();
    storage.push(&info, &EntityId::new(0), &[1]).unwrap();
    storage.push(&info, &EntityId::new(2), &[2]).unwrap();
    // slots 0, empty, 1: the walk yields the first slot's value index and
    // stops at the empty slot
    let held: Vec<usize> = storage.iter().iter().map(|e| e.as_usize()).collect();
    assert_eq!(held, vec![0]);
    storage.push(&info, &EntityId::new(3), &[3]).unwrap();
    let mut full = Storage::new::<u8>();
    full.push(&info, &EntityId::new(1), &[9]).unwrap();
    assert!(full.push(&info, &EntityId::new(0), &[8]).is_err());
    let held: Vec<usize> = full.iter().iter().map(|e| e.as_usize()).collect();
    assert!(held.is_empty());
}

#[test]
fn sparse_filters() {
    let info = TypeInfo::of::<u32>();
    let mut table = Table::new();
    let mut storage = Storage::new::<u32>();
    let e = EntityId::new(1);
    storage.push(&info, &e, &[0, 0, 0, 1]).unwrap();
    table.insert(info.id(), storage);
    assert!(with_matches(&table, info.id(), &e));
    assert!(!with_matches(&table, info.id(), &EntityId::new(2)));
    assert!(!without_matches(&table, info.id(), &e));
    assert!(without_matches(&table, TypeInfo::of::<u8>().id(), &e));
    assert!(<With<u32> as Filter>::matches(&table, &e));
    assert!(!<Without<u32> as Filter>::matches(&table, &e));
    assert!(<() as Filter>::matches(&table, &e));
    assert!(!<(With<u32>, Without<u32>) as Filter>::matches(&table, &e));
}

#[test]
fn sparse_set_leaves_other_entities() {
    let info = TypeInfo::of::<u16>();
    let mut storage = Storage::new::<u16>();
    let a = EntityId::new(1);
    let b = EntityId::new(5);
    storage.push(&info, &a, &[1, 1]).unwrap();
    assert_eq!(storage.capacity(), 2);
    storage.push(&info, &b, &[2, 2]).unwrap();
    assert_eq!(storage.capacity(), 6);
    storage.set(&a, &[9, 9]).unwrap();
    assert_eq!(storage.get(&b).unwrap(), vec![2, 2]);
    assert_eq!(storage.get(&a).unwrap(), vec![9, 9]);
}
