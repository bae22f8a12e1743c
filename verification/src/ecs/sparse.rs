//! Sparse-set storage: for one component type, a slot per entity index that
//! points at the entity's value in a dense array; and filters over tables
//! of such storages.

use vstd::prelude::*;

use std::collections::HashMap;

use crate::any::{AnyVec, TypeInfo};

use super::entity::EntityId;
use super::Error;

verus! {

broadcast use vstd::std_specs::hash::group_hash_axioms;

/// The values of one type, found through a slot per entity index:
/// `usize::MAX` for none, else the position of the value.
pub struct Storage {
    info: TypeInfo,
    dense: AnyVec,
    len: usize,
    sparse: Vec<usize>,
}

impl Storage {
    pub closed spec fn spec_info(&self) -> TypeInfo {
        self.info
    }

    pub closed spec fn slots(&self) -> Seq<usize> {
        self.sparse@
    }

    pub closed spec fn values(&self) -> Seq<Seq<u8>> {
        self.dense@
    }

    pub closed spec fn spec_len(&self) -> usize {
        self.len
    }

    /// Whether one more value fits.
    pub closed spec fn has_room(&self) -> bool {
        self.dense.has_room()
    }

    /// Whether the slot of entity index `i` holds a value.
    pub open spec fn holds(&self, i: int) -> bool {
        0 <= i < self.slots().len() && self.slots()[i] != usize::MAX
    }

    pub closed spec fn wf(&self) -> bool {
        &&& self.dense.wf()
        &&& self.dense.spec_info() == self.info
        &&& self.len == self.dense@.len()
        &&& forall|i: int| 0 <= i < self.sparse@.len() && self.sparse@[i] != usize::MAX ==> #[trigger] self.sparse@[i] < self.len
        &&& self.info.spec_size() > 0 ==> forall|i: int, j: int| 0 <= i < j < self.sparse@.len() && self.sparse@[i] != usize::MAX
            ==> #[trigger] self.sparse@[i] != #[trigger] self.sparse@[j]
    }

    /// The value of `entity`, which must have one.
    pub open spec fn value_of(&self, entity: EntityId) -> Seq<u8> {
        self.values()[self.slots()[entity.spec_index() as int] as int]
    }

    /// An empty storage for values of type `T`.
    pub fn new<T: 'static>() -> (s: Self)
        ensures
            s.wf(),
            s.slots().len() == 0,
            s.spec_len() == 0,
            s.spec_info().spec_size() as nat == vstd::layout::size_of::<T>(),
            s.has_room(),
    {
        let dense = AnyVec::new::<T>();
        Storage { info: dense.info(), dense, len: 0usize, sparse: Vec::new() }
    }

    /// The type of the values.
    pub fn info(&self) -> (t: TypeInfo)
        requires
            self.wf(),
        ensures
            t == self.spec_info(),
    {
        self.info
    }

    /// Number of values stored.
    pub fn len(&self) -> (n: usize)
        ensures
            n == self.spec_len(),
    {
        self.len
    }

    /// Whether `entity` has a value.
    pub fn contains(&self, entity: &EntityId) -> (b: bool)
        ensures
            b == self.holds(entity.spec_index() as int),
    {
        let i = entity.as_usize();
        if i < self.sparse.len() {
            self.sparse[i] != usize::MAX
        } else {
            false
        }
    }

    /// The slots from the first on, each as an entity, up to the first
    /// slot that holds no value.
    pub fn iter(&self) -> (es: Vec<EntityId>)
        ensures
            es@.len() <= self.slots().len(),
            forall|k: int| 0 <= k < es@.len() ==> #[trigger] self.slots()[k] != usize::MAX,
            forall|k: int| 0 <= k < es@.len() ==> #[trigger] es@[k] == EntityId::spec_new(self.slots()[k]),
            es@.len() < self.slots().len() ==> self.slots()[es@.len() as int] == usize::MAX,
    {
        let mut es: Vec<EntityId> = Vec::new();
        let mut i: usize = 0;
        while i < self.sparse.len() && self.sparse[i] != usize::MAX
            invariant
                0 <= i <= self.sparse@.len(),
                es@.len() == i,
                forall|k: int| 0 <= k < i ==> #[trigger] self.slots()[k] != usize::MAX,
                forall|k: int| 0 <= k < i ==> #[trigger] es@[k] == EntityId::spec_new(self.slots()[k]),
            decreases self.sparse@.len() - i,
        {
            let ghost es0 = es@;
            es.push(EntityId::new(self.sparse[i]));
            proof {
                broadcast use EntityId::lemma_index_determines;
                EntityId::lemma_new_index(self.sparse@[i as int]);
                assert(es@[i as int] == EntityId::spec_new(self.slots()[i as int]));
                assert forall|k: int| 0 <= k < i + 1 implies #[trigger] es@[k] == EntityId::spec_new(self.slots()[k]) by {
                    if k < i {
                        assert(es@[k] == es0[k]);
                    }
                }
            }
            i = i + 1;
        }
        es
    }

    /// Number of slots.
    pub fn capacity(&self) -> (n: usize)
        ensures
            n == self.slots().len(),
    {
        self.sparse.len()
    }

    /// Stores `data` for `entity` in a new value; fails with
    /// `TypeNotPresented` if `info` is not the storage's type, else with
    /// `EntityAlreadyPresented` if the entity's slot lies within the capacity
    /// and holds no value. A slot past the capacity is first made, the
    /// capacity growing to reach it; a slot that holds a value is pointed at
    /// the new one.
    pub fn push(&mut self, info: &TypeInfo, entity: &EntityId, data: &[u8]) -> (r: Result<(), Error>)
        requires
            old(self).wf(),
            data@.len() == old(self).spec_info().spec_size(),
            old(self).has_room(),
            entity.spec_index() < usize::MAX,
        ensures
            final(self).wf(),
            final(self).spec_info() == old(self).spec_info(),
            info.spec_id() != old(self).spec_info().spec_id() ==> (r matches Err(Error::TypeNotPresented) && *final(self) == *old(self)),
            info.spec_id() == old(self).spec_info().spec_id() && entity.spec_index() < old(self).slots().len()
                && !old(self).holds(entity.spec_index() as int) ==> (
                r matches Err(Error::EntityAlreadyPresented) && *final(self) == *old(self)),
            info.spec_id() == old(self).spec_info().spec_id() && (entity.spec_index() >= old(self).slots().len()
                || old(self).holds(entity.spec_index() as int)) ==> {
                &&& r is Ok
                &&& final(self).spec_len() == old(self).spec_len() + 1
                &&& final(self).slots().len() == if entity.spec_index() + 1 > old(self).slots().len() {
                    entity.spec_index() + 1
                } else {
                    old(self).slots().len() as int
                }
                &&& final(self).values() == old(self).values().push(data@)
                &&& final(self).slots()[entity.spec_index() as int] == if old(self).spec_info().spec_size() == 0 {
                    0
                } else {
                    old(self).spec_len()
                }
                &&& final(self).holds(entity.spec_index() as int)
                &&& final(self).value_of(*entity) == data@
                &&& forall|i: int| #![trigger final(self).slots()[i]] 0 <= i < final(self).slots().len() && i != entity.spec_index()
                    ==> final(self).slots()[i] == if i < old(self).slots().len() { old(self).slots()[i] } else { usize::MAX }
            },
    {
        if self.info.id() != info.id() {
            return Err(Error::TypeNotPresented);
        }
        let i = entity.as_usize();
        if i < self.sparse.len() && self.sparse[i] == usize::MAX {
            return Err(Error::EntityAlreadyPresented);
        }
        let ghost s0 = self.sparse@;
        while self.sparse.len() <= i
            invariant
                s0.len() > i ==> self.sparse@ == s0,
                s0.len() <= i ==> self.sparse@.len() <= i + 1,
                i < usize::MAX,
                self.dense == old(self).dense,
                self.info == old(self).info,
                self.len == old(self).len,
                old(self).wf(),
                self.sparse@.subrange(0, s0.len() as int) == s0,
                s0.len() <= self.sparse@.len(),
                forall|k: int| s0.len() <= k < self.sparse@.len() ==> #[trigger] self.sparse@[k] == usize::MAX,
            decreases i + 1 - self.sparse@.len(),
        {
            self.sparse.push(usize::MAX);
        }
        let data_index = if self.info.size() == 0 {
            0
        } else {
            self.dense.len()
        };
        proof {
            assert forall|k: int| 0 <= k < s0.len() implies self.sparse@[k] == s0[k] by {
                assert(self.sparse@.subrange(0, s0.len() as int)[k] == s0[k]);
            }
            self.dense.lemma_rows_len();
        }
        self.sparse.set(i, data_index);
        self.dense.push_data(data);
        self.len = self.len + 1;
        proof {
            self.dense.lemma_rows_len();
            assert forall|k: int| 0 <= k < self.sparse@.len() && self.sparse@[k] != usize::MAX implies #[trigger] self.sparse@[k] < self.len by {
                if k != i && k < s0.len() {
                    assert(self.sparse@[k] == s0[k]);
                }
            }
            if self.info.spec_size() > 0 {
                assert forall|a: int, b: int| 0 <= a < b < self.sparse@.len() && self.sparse@[a] != usize::MAX
                    implies #[trigger] self.sparse@[a] != #[trigger] self.sparse@[b] by {
                    if a != i && a < s0.len() {
                        assert(self.sparse@[a] == s0[a]);
                        assert(s0[a] < old(self).len);
                    }
                    if b != i && b < s0.len() {
                        assert(self.sparse@[b] == s0[b]);
                        if s0[b] != usize::MAX {
                            assert(s0[b] < old(self).len);
                        }
                    }
                }
            }
            let vals = self.dense@;
            if self.info.spec_size() == 0 {
                assert(vals[0].len() == 0);
                assert(vals[0] =~= data@);
            }
        }
        Ok(())
    }

    /// A copy of the value of `entity`; fails with `EntityNotPresented` if it
    /// has none.
    pub fn get(&self, entity: &EntityId) -> (r: Result<Vec<u8>, Error>)
        requires
            self.wf(),
        ensures
            !self.holds(entity.spec_index() as int) ==> r matches Err(Error::EntityNotPresented),
            self.holds(entity.spec_index() as int) ==> (r matches Ok(v) && v@ == self.value_of(*entity)),
    {
        let i = entity.as_usize();
        if i >= self.sparse.len() || self.sparse[i] == usize::MAX {
            return Err(Error::EntityNotPresented);
        }
        match self.dense.get_data(self.sparse[i]) {
            Some(v) => Ok(v),
            None => vstd::pervasive::unreached(),
        }
    }

    /// Overwrites the value of `entity`; fails with `EntityNotPresented` if
    /// it has none.
    pub fn set(&mut self, entity: &EntityId, data: &[u8]) -> (r: Result<(), Error>)
        requires
            old(self).wf(),
            data@.len() == old(self).spec_info().spec_size(),
        ensures
            final(self).wf(),
            final(self).spec_info() == old(self).spec_info(),
            final(self).slots() == old(self).slots(),
            final(self).spec_len() == old(self).spec_len(),
            !old(self).holds(entity.spec_index() as int) ==> (r matches Err(Error::EntityNotPresented) && *final(self) == *old(self)),
            old(self).holds(entity.spec_index() as int) ==> (r is Ok && final(self).values() == old(self).values().update(
                old(self).slots()[entity.spec_index() as int] as int,
                data@,
            ) && final(self).value_of(*entity) == data@),
            forall|e: EntityId| e.spec_index() != entity.spec_index() && old(self).holds(e.spec_index() as int)
                ==> #[trigger] final(self).value_of(e) == old(self).value_of(e),
    {
        let i = entity.as_usize();
        if i >= self.sparse.len() || self.sparse[i] == usize::MAX {
            return Err(Error::EntityNotPresented);
        }
        let index = self.sparse[i];
        proof {
            self.dense.lemma_rows_len();
        }
        self.dense.write_data(index, data);
        proof {
            self.dense.lemma_rows_len();
            assert forall|e: EntityId| e.spec_index() != entity.spec_index() && old(self).holds(e.spec_index() as int)
                implies #[trigger] self.value_of(e) == old(self).value_of(e) by {
                let j = e.spec_index() as int;
                if self.info.spec_size() == 0 {
                    assert(self.value_of(e).len() == 0);
                    assert(old(self).value_of(e).len() == 0);
                    assert(self.value_of(e) =~= old(self).value_of(e));
                } else if j < i {
                    assert(old(self).sparse@[j] != old(self).sparse@[i as int]);
                } else {
                    assert(old(self).sparse@[i as int] != old(self).sparse@[j]);
                }
            }
        }
        Ok(())
    }
}

/// Storages by the key of their type.
pub type Table = HashMap<u64, Storage>;

/// Whether the storage of type key `key` in `table` holds `entity`.
pub open spec fn table_holds(table: Map<u64, Storage>, key: u64, entity: EntityId) -> bool {
    table.contains_key(key) && table[key].holds(entity.spec_index() as int)
}

/// Whether `entity` has a value of type key `key` in `table`.
pub fn with_matches(table: &Table, key: u64, entity: &EntityId) -> (b: bool)
    ensures
        b == table_holds(table@, key, *entity),
{
    match table.get(&key) {
        None => false,
        Some(storage) => storage.contains(entity),
    }
}

/// Whether `entity` has no value of type key `key` in `table`.
pub fn without_matches(table: &Table, key: u64, entity: &EntityId) -> (b: bool)
    ensures
        b == !table_holds(table@, key, *entity),
{
    match table.get(&key) {
        None => true,
        Some(storage) => !storage.contains(entity),
    }
}

/// Entities that have a value of type `T`.
pub struct With<T>(core::marker::PhantomData<T>);

/// Entities that have no value of type `T`.
pub struct Without<T>(core::marker::PhantomData<T>);

/// A test that entities of a table pass or fail.
pub trait Filter {
    /// Whether `passes` is an answer this test can give for `entity` in a
    /// table whose storages are `table`.
    spec fn spec_accepts(table: Map<u64, Storage>, entity: EntityId, passes: bool) -> bool;

    fn matches(table: &Table, entity: &EntityId) -> (b: bool)
        ensures
            Self::spec_accepts(table@, *entity, b),
    ;
}

/// `With<T>` passes exactly the entities that the storage of `T`'s key
/// holds; the key comes from `TypeInfo::of`, of which no more is known than
/// that it is some key.
impl<T: 'static> Filter for With<T> {
    open spec fn spec_accepts(table: Map<u64, Storage>, entity: EntityId, passes: bool) -> bool {
        exists|key: u64| passes == #[trigger] table_holds(table, key, entity)
    }

    fn matches(table: &Table, entity: &EntityId) -> (b: bool) {
        let key = TypeInfo::of::<T>().id();
        let b = with_matches(table, key, entity);
        assert(b == table_holds(table@, key, *entity));
        b
    }
}

/// `Without<T>` passes exactly the entities that the storage of `T`'s key
/// does not hold.
impl<T: 'static> Filter for Without<T> {
    open spec fn spec_accepts(table: Map<u64, Storage>, entity: EntityId, passes: bool) -> bool {
        exists|key: u64| passes == !#[trigger] table_holds(table, key, entity)
    }

    fn matches(table: &Table, entity: &EntityId) -> (b: bool) {
        let key = TypeInfo::of::<T>().id();
        let b = without_matches(table, key, entity);
        assert(b == !table_holds(table@, key, *entity));
        b
    }
}

/// The empty test passes every entity.
impl Filter for () {
    open spec fn spec_accepts(table: Map<u64, Storage>, entity: EntityId, passes: bool) -> bool {
        passes
    }

    fn matches(table: &Table, entity: &EntityId) -> (b: bool) {
        true
    }
}

/// A pair of tests passes the entities that pass both.
impl<A: Filter, B: Filter> Filter for (A, B) {
    open spec fn spec_accepts(table: Map<u64, Storage>, entity: EntityId, passes: bool) -> bool {
        if passes {
            A::spec_accepts(table, entity, true) && B::spec_accepts(table, entity, true)
        } else {
            A::spec_accepts(table, entity, false) || B::spec_accepts(table, entity, false)
        }
    }

    fn matches(table: &Table, entity: &EntityId) -> (b: bool) {
        A::matches(table, entity) && B::matches(table, entity)
    }
}

} // verus!
