use uengine::any::{AnyVec, TypeInfo};

#[allow(dead_code)]
#[derive(PartialEq, Eq, PartialOrd, Ord, Clone, Debug)]
struct A {
    a: i32,
    b: u32,
    c: i64,
    d: u64,
    e: Box<u8>,
}

/// A row of `size_of::<A>()` bytes used as the stored value in place of
/// `A { a: 1, b: 2, c: 3, d: 4, e: Box::new(5) }`: the fields' bytes in
/// declaration order, padded. It is not `A`'s memory layout (the compiler
/// may reorder fields, and `e` is a pointer).
fn a_bytes() -> Vec<u8> {
    let mut bytes = Vec::new();
    bytes.extend_from_slice(&1i32.to_le_bytes());
    bytes.extend_from_slice(&2u32.to_le_bytes());
    bytes.extend_from_slice(&3i64.to_le_bytes());
    bytes.extend_from_slice(&4u64.to_le_bytes());
    bytes.push(5u8);
    bytes.resize(std::mem::size_of::<A>(), 0u8);
    bytes
}

#[test]
fn test() {
    let info = TypeInfo::of::<A>();
    let mut vec = AnyVec::new::<A>();

    let a = a_bytes();

    vec.push(&info, &a);

    assert_eq!(a, vec.get(&info, 0usize).unwrap());
    vec.insert(&info, 0usize, &a);

    assert_eq!(a, vec.remove(&info, 0usize));
    assert_eq!(a, vec.get(&info, 0usize).unwrap());
}

#[test]
fn type_info_sizes() {
    assert_eq!(TypeInfo::of::<u8>().size(), 1);
    assert_eq!(TypeInfo::of::<u32>().size(), 4);
    assert_eq!(TypeInfo::of::<[u64; 3]>().size(), 24);
    assert_eq!(TypeInfo::of::<A>().size(), std::mem::size_of::<A>());
}

#[test]
fn type_info_keys_tell_types_apart() {
    assert_ne!(TypeInfo::of::<u32>().id(), TypeInfo::of::<i32>().id());
    assert_ne!(TypeInfo::of::<u8>().id(), TypeInfo::of::<A>().id());
    assert_eq!(TypeInfo::of::<A>().id(), TypeInfo::of::<A>().id());
    assert_eq!(TypeInfo::of::<A>(), TypeInfo::of::<A>());
}

#[test]
fn type_info_compare() {
    let x = TypeInfo::of::<u32>();
    let y = TypeInfo::of::<u64>();
    assert_eq!(x.compare(&x), 0);
    assert_eq!(x.compare(&y), -y.compare(&x));
    assert_ne!(x.compare(&y), 0);
}

#[test]
fn any_vec_new_is_empty() {
    let vec = AnyVec::new::<u32>();
    assert_eq!(vec.len(), 0);
    assert_eq!(vec.info(), TypeInfo::of::<u32>());
    assert!(vec.get(&TypeInfo::of::<u32>(), 0).is_none());
}

#[test]
fn any_vec_type_mismatch_check() {
    let vec = AnyVec::new::<u32>();
    assert!(vec.type_mismatch_check(&TypeInfo::of::<u32>()));
    assert!(!vec.type_mismatch_check(&TypeInfo::of::<u16>()));
}

#[test]
fn any_vec_push_get_in_order() {
    let info = TypeInfo::of::<u16>();
    let mut vec = AnyVec::new::<u16>();
    vec.push(&info, &[1, 2]);
    vec.push(&info, &[3, 4]);
    vec.push(&info, &[5, 6]);
    assert_eq!(vec.len(), 3);
    assert_eq!(vec.get(&info, 0), Some(vec![1, 2]));
    assert_eq!(vec.get(&info, 1), Some(vec![3, 4]));
    assert_eq!(vec.get(&info, 2), Some(vec![5, 6]));
    assert_eq!(vec.get(&info, 3), None);
}

#[test]
fn any_vec_insert_shifts_right() {
    let info = TypeInfo::of::<u16>();
    let mut vec = AnyVec::new::<u16>();
    vec.push(&info, &[1, 1]);
    vec.push(&info, &[3, 3]);
    vec.insert(&info, 1, &[2, 2]);
    assert_eq!(vec.get_data(0), Some(vec![1, 1]));
    assert_eq!(vec.get_data(1), Some(vec![2, 2]));
    assert_eq!(vec.get_data(2), Some(vec![3, 3]));
    vec.insert(&info, 3, &[4, 4]);
    assert_eq!(vec.get_data(3), Some(vec![4, 4]));
}

#[test]
fn any_vec_remove_shifts_left() {
    let info = TypeInfo::of::<u16>();
    let mut vec = AnyVec::new::<u16>();
    vec.push(&info, &[1, 1]);
    vec.push(&info, &[2, 2]);
    vec.push(&info, &[3, 3]);
    assert_eq!(vec.remove(&info, 1), vec![2, 2]);
    assert_eq!(vec.len(), 2);
    assert_eq!(vec.get_data(1), Some(vec![3, 3]));
}

#[test]
fn any_vec_write_and_allocate() {
    let info = TypeInfo::of::<u32>();
    let mut vec = AnyVec::from_info(info);
    let index = vec.allocate();
    assert_eq!(index, 0);
    assert_eq!(vec.get_data(0), Some(vec![0, 0, 0, 0]));
    vec.write_data(0, &[9, 8, 7, 6]);
    assert_eq!(vec.get_data(0), Some(vec![9, 8, 7, 6]));
}
