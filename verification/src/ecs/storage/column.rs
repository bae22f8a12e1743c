use vstd::prelude::*;

use std::collections::HashMap;

use crate::any::{AnyVec, TypeInfo};
use crate::ecs::component::{Component, ComponentInfo};
use crate::ecs::entity::EntityId;

use super::TableRow;

verus! {

broadcast use vstd::std_specs::hash::group_hash_axioms;

/// The values of one component type, one row per entity: `entities[r]` owns
/// row `r`, and `indices` maps an entity's index to its row.
pub struct Column {
    components: AnyVec,
    indices: HashMap<usize, usize>,
    entities: Vec<EntityId>,
}

impl Column {
    pub closed spec fn wf(&self) -> bool {
        &&& self.components.wf()
        &&& self.components@.len() == self.entities@.len()
        &&& forall|r: int|
            0 <= r < self.entities@.len() ==> self.indices@.contains_key(
                (#[trigger] self.entities@[r]).spec_index(),
            ) && self.indices@[self.entities@[r].spec_index()] == r
        &&& forall|k: usize| #[trigger]
            self.indices@.contains_key(k) ==> self.indices@[k] < self.entities@.len()
                && self.entities@[self.indices@[k] as int].spec_index() == k
    }

    /// The entities that have a value here, in row order.
    pub closed spec fn spec_entities(&self) -> Seq<EntityId> {
        self.entities@
    }

    /// The values, in row order.
    pub closed spec fn values(&self) -> Seq<Seq<u8>> {
        self.components@
    }

    /// The type of the values.
    pub closed spec fn spec_info(&self) -> TypeInfo {
        self.components.spec_info()
    }

    /// Whether one more value fits.
    pub closed spec fn has_room(&self) -> bool {
        self.components.has_room()
    }

    /// The value of each entity that has one.
    pub open spec fn spec_map(&self) -> Map<EntityId, Seq<u8>> {
        Map::new(
            |e: EntityId| self.spec_entities().contains(e),
            |e: EntityId| self.values()[self.spec_entities().index_of(e)],
        )
    }

    proof fn lemma_wf_facts(&self)
        requires
            self.wf(),
        ensures
            self.spec_entities().no_duplicates(),
            self.values().len() == self.spec_entities().len(),
            forall|r: int|
                0 <= r < self.values().len() ==> #[trigger] self.values()[r].len()
                    == self.spec_info().spec_size(),
            forall|e: EntityId| #[trigger]
                self.spec_entities().contains(e) <==> self.indices@.contains_key(e.spec_index()),
            forall|e: EntityId| #[trigger]
                self.spec_entities().contains(e) ==> self.spec_entities().index_of(e)
                    == self.indices@[e.spec_index()] as int,
            forall|r: int|
                0 <= r < self.spec_entities().len() ==> self.spec_entities().index_of(
                    #[trigger] self.spec_entities()[r],
                ) == r,
    {
        broadcast use EntityId::lemma_index_determines;

        self.components.lemma_rows_len();
        assert forall|a: int, b: int|
            0 <= a < self.entities@.len() && 0 <= b < self.entities@.len() && a != b implies self.entities@[a]
            != self.entities@[b] by {
            if self.entities@[a] == self.entities@[b] {
                assert(self.indices@[self.entities@[a].spec_index()] == a);
                assert(self.indices@[self.entities@[b].spec_index()] == b);
            }
        }
        assert forall|e: EntityId| #[trigger]
            self.spec_entities().contains(e) implies self.indices@.contains_key(e.spec_index())
            && self.spec_entities().index_of(e) == self.indices@[e.spec_index()] as int by {
            let r = self.spec_entities().index_of(e);
            assert(self.entities@[r] == e);
            assert(self.indices@[self.entities@[r].spec_index()] == r);
        }
        assert forall|e: EntityId|
            self.indices@.contains_key(e.spec_index()) implies #[trigger] self.spec_entities().contains(
            e,
        ) by {
            let r = self.indices@[e.spec_index()] as int;
            assert(self.entities@[r].spec_index() == e.spec_index());
            assert(self.entities@[r] == e);
        }
        assert forall|r: int| 0 <= r < self.spec_entities().len() implies self.spec_entities().index_of(
            #[trigger] self.spec_entities()[r],
        ) == r by {
            let e = self.spec_entities()[r];
            assert(self.spec_entities().contains(e));
            assert(self.indices@[e.spec_index()] == r);
        }
    }

    /// Every value has the size of the column's type.
    pub proof fn lemma_value_sizes(&self)
        requires
            self.wf(),
        ensures
            forall|e: EntityId| #[trigger] self.spec_map().contains_key(e) ==> self.spec_map()[e].len()
                == self.spec_info().spec_size(),
            self.values().len() == self.spec_entities().len(),
            self.spec_entities().no_duplicates(),
    {
        self.lemma_wf_facts();
        assert forall|e: EntityId| #[trigger] self.spec_map().contains_key(e) implies self.spec_map()[e].len()
            == self.spec_info().spec_size() by {
            let r = self.spec_entities().index_of(e);
            assert(0 <= r < self.values().len());
        }
    }

    /// A column without entities maps no entity.
    pub proof fn lemma_empty_map(c: Column)
        ensures
            c.spec_entities().len() == 0 ==> c.spec_map() == Map::<EntityId, Seq<u8>>::empty(),
    {
        if c.spec_entities().len() == 0 {
            assert(c.spec_map() =~= Map::<EntityId, Seq<u8>>::empty());
        }
    }

    /// An empty column for component type `C`.
    pub fn new<C: Component>() -> (c: Self)
        ensures
            c.wf(),
            c.spec_entities() == Seq::<EntityId>::empty(),
            c.values() == Seq::<Seq<u8>>::empty(),
            c.spec_info().spec_size() as nat == vstd::layout::size_of::<C>(),
    {
        Column { components: AnyVec::new::<C>(), indices: HashMap::new(), entities: Vec::new() }
    }

    /// An empty column for the component type described by `component_info`.
    pub fn from_info(component_info: &ComponentInfo) -> (c: Self)
        ensures
            c.wf(),
            c.spec_entities() == Seq::<EntityId>::empty(),
            c.values() == Seq::<Seq<u8>>::empty(),
            c.spec_info() == component_info.spec_type_info(),
            c.spec_info().spec_size() < usize::MAX ==> c.has_room(),
    {
        Column {
            components: AnyVec::from_info(*component_info.type_info()),
            indices: HashMap::new(),
            entities: Vec::new(),
        }
    }

    /// The entities that have a value here, in row order.
    pub fn entities(&self) -> (es: &[EntityId])
        ensures
            es@ == self.spec_entities(),
    {
        self.entities.as_slice()
    }

    /// Number of values held.
    pub fn len(&self) -> (n: usize)
        ensures
            n == self.spec_entities().len(),
    {
        self.entities.len()
    }

    /// Whether `entity` has a value here.
    pub fn contains(&self, entity: &EntityId) -> (b: bool)
        requires
            self.wf(),
        ensures
            b == self.spec_entities().contains(*entity),
    {
        proof {
            self.lemma_wf_facts();
        }
        self.indices.contains_key(&entity.as_usize())
    }

    /// Overwrites the value in row `table_row`.
    pub fn write_component(&mut self, table_row: TableRow, data: &[u8])
        requires
            old(self).wf(),
            table_row.spec_index() < old(self).values().len(),
            data@.len() == old(self).spec_info().spec_size(),
        ensures
            final(self).wf(),
            final(self).spec_entities() == old(self).spec_entities(),
            final(self).values() == old(self).values().update(
                table_row.spec_index() as int,
                data@,
            ),
            final(self).spec_info() == old(self).spec_info(),
            final(self).has_room() == old(self).has_room(),
    {
        self.components.write_data(table_row.as_usize(), data);
    }

    /// A copy of the value of `entity`, or `None` if it has none.
    pub fn get_data(&self, entity: &EntityId) -> (r: Option<Vec<u8>>)
        requires
            self.wf(),
        ensures
            self.spec_map().contains_key(*entity) ==> (r matches Some(v) && v@
                == self.spec_map()[*entity]),
            !self.spec_map().contains_key(*entity) ==> r is None,
    {
        proof {
            self.lemma_wf_facts();
        }
        match self.indices.get(&entity.as_usize()) {
            Some(index) => self.components.get_data(*index),
            None => None,
        }
    }

    /// `get_data` for a caller that names the value type, which must be the
    /// column's.
    pub fn get(&self, info: &TypeInfo, entity: &EntityId) -> (r: Option<Vec<u8>>)
        requires
            self.wf(),
            info.spec_id() == self.spec_info().spec_id(),
        ensures
            self.spec_map().contains_key(*entity) ==> (r matches Some(v) && v@
                == self.spec_map()[*entity]),
            !self.spec_map().contains_key(*entity) ==> r is None,
    {
        self.get_data(entity)
    }

    /// Gives `entity` the value `data`: in its row if it has one, in a new
    /// last row otherwise. Returns the value it had.
    pub fn insert_data(&mut self, entity: EntityId, data: &[u8]) -> (prev: Option<Vec<u8>>)
        requires
            old(self).wf(),
            data@.len() == old(self).spec_info().spec_size(),
            old(self).has_room() || old(self).spec_entities().contains(entity),
        ensures
            final(self).wf(),
            final(self).spec_map() == old(self).spec_map().insert(entity, data@),
            final(self).spec_entities() == if old(self).spec_entities().contains(entity) {
                old(self).spec_entities()
            } else {
                old(self).spec_entities().push(entity)
            },
            old(self).spec_entities().contains(entity) ==> final(self).values() == old(
                self,
            ).values().update(old(self).spec_entities().index_of(entity), data@),
            !old(self).spec_entities().contains(entity) ==> final(self).values() == old(
                self,
            ).values().push(data@),
            prev is Some <==> old(self).spec_map().contains_key(entity),
            prev matches Some(p) ==> p@ == old(self).spec_map()[entity],
            final(self).spec_info() == old(self).spec_info(),
    {
        proof {
            self.lemma_wf_facts();
        }
        let key = entity.as_usize();
        let found = match self.indices.get(&key) {
            Some(index) => Some(*index),
            None => None,
        };
        match found {
            Some(index) => {
                let old_value = self.components.remove_data(index);
                self.components.insert_data(index, data);
                proof {
                    assert(self.components@ =~= old(self).components@.update(index as int, data@));
                    assert(old(self).spec_entities().contains(entity));
                    assert(old(self).spec_entities().index_of(entity) == index as int);
                    assert forall|e: EntityId| #[trigger] self.spec_map().contains_key(e) implies
                        self.spec_map()[e] == old(self).spec_map().insert(entity, data@)[e] by {
                        if e != entity {
                            let r = old(self).spec_entities().index_of(e);
                            assert(old(self).spec_entities()[r] == e);
                            assert(r != index as int);
                        }
                    }
                    assert(self.spec_map() =~= old(self).spec_map().insert(entity, data@));
                }
                Some(old_value)
            },
            None => {
                self.components.push_data(data);
                let row = self.entities.len();
                self.indices.insert(key, row);
                self.entities.push(entity);
                proof {
                    broadcast use EntityId::lemma_index_determines;

                    let n = old(self).entities@.len();
                    assert forall|k: usize| #[trigger]
                        self.indices@.contains_key(k) implies self.indices@[k] < self.entities@.len()
                        && self.entities@[self.indices@[k] as int].spec_index() == k by {
                        if k != key {
                            assert(old(self).indices@.contains_key(k));
                        }
                    }
                    assert forall|r: int| 0 <= r < self.entities@.len() implies self.indices@.contains_key(
                        (#[trigger] self.entities@[r]).spec_index(),
                    ) && self.indices@[self.entities@[r].spec_index()] == r by {
                        if r < n {
                            assert(old(self).indices@.contains_key(old(self).entities@[r].spec_index()));
                            assert(old(self).entities@[r].spec_index() != key);
                        }
                    }
                    assert(self.wf());
                    self.lemma_wf_facts();
                    assert forall|e: EntityId| #[trigger]
                        self.spec_map().contains_key(e) == old(self).spec_map().insert(
                            entity,
                            data@,
                        ).contains_key(e) by {
                        if e != entity && self.spec_entities().contains(e) {
                            let r = self.spec_entities().index_of(e);
                            assert(r != n);
                            assert(old(self).spec_entities()[r] == e);
                        }
                    }
                    assert forall|e: EntityId| #[trigger]
                        self.spec_map().contains_key(e) implies self.spec_map()[e] == old(
                            self,
                        ).spec_map().insert(entity, data@)[e] by {
                        if e != entity {
                            let r = self.spec_entities().index_of(e);
                            assert(r != n);
                            assert(old(self).spec_entities()[r] == e);
                            assert(old(self).spec_entities().index_of(e) == r);
                        } else {
                            assert(self.spec_entities()[n as int] == entity);
                        }
                    }
                    assert(self.spec_map() =~= old(self).spec_map().insert(entity, data@));
                }
                None
            },
        }
    }

    /// `insert_data` for a caller that names the value type, which must be
    /// the column's.
    pub fn insert(&mut self, info: &TypeInfo, entity: EntityId, data: &[u8]) -> (prev: Option<Vec<u8>>)
        requires
            old(self).wf(),
            info.spec_id() == old(self).spec_info().spec_id(),
            data@.len() == old(self).spec_info().spec_size(),
            old(self).has_room(),
        ensures
            final(self).wf(),
            final(self).spec_map() == old(self).spec_map().insert(entity, data@),
            final(self).spec_entities() == if old(self).spec_entities().contains(entity) {
                old(self).spec_entities()
            } else {
                old(self).spec_entities().push(entity)
            },
            prev is Some <==> old(self).spec_map().contains_key(entity),
            prev matches Some(p) ==> p@ == old(self).spec_map()[entity],
            final(self).spec_info() == old(self).spec_info(),
    {
        self.insert_data(entity, data)
    }

    /// Takes away the value of `entity`, closing the gap its row leaves, and
    /// returns it; `None` if `entity` has no value here.
    pub fn remove_data(&mut self, entity: EntityId) -> (removed: Option<Vec<u8>>)
        requires
            old(self).wf(),
        ensures
            final(self).wf(),
            final(self).spec_map() == old(self).spec_map().remove(entity),
            removed is Some <==> old(self).spec_map().contains_key(entity),
            removed matches Some(v) ==> v@ == old(self).spec_map()[entity],
            final(self).spec_entities() == if old(self).spec_entities().contains(entity) {
                old(self).spec_entities().remove(old(self).spec_entities().index_of(entity))
            } else {
                old(self).spec_entities()
            },
            final(self).values() == if old(self).spec_entities().contains(entity) {
                old(self).values().remove(old(self).spec_entities().index_of(entity))
            } else {
                old(self).values()
            },
            final(self).spec_info() == old(self).spec_info(),
            old(self).spec_entities().contains(entity) ==> final(self).has_room(),
            !old(self).spec_entities().contains(entity) ==> final(self).has_room() == old(self).has_room(),
    {
        proof {
            self.lemma_wf_facts();
        }
        let key = entity.as_usize();
        let found = match self.indices.get(&key) {
            Some(index) => Some(*index),
            None => None,
        };
        match found {
            None => {
                assert(!self.indices@.contains_key(key));
                assert(!old(self).spec_entities().contains(entity));
                assert(self.spec_map() =~= old(self).spec_map().remove(entity));
                None
            },
            Some(row) => {
                let ghost oe = old(self).entities@;
                let ghost oi = old(self).indices@;
                let value = self.components.remove_data(row);
                self.entities.remove(row);
                self.indices.remove(&key);
                let ghost c_after = self.components;
                proof {
                    broadcast use EntityId::lemma_index_determines;
                    assert(oi.contains_key(key));
                    assert(oi[key] == row);
                    assert(oe[row as int].spec_index() == key);
                    assert(oe[row as int] == entity);
                }
                let mut k: usize = row;
                while k < self.entities.len()
                    invariant
                        row <= k <= self.entities@.len(),
                        self.components == c_after,
                        self.entities@ == oe.remove(row as int),
                        row < oe.len(),
                        oe[row as int].spec_index() == key,
                        key == entity.spec_index(),
                        forall|r: int|
                            0 <= r < oe.len() ==> oi.contains_key((#[trigger] oe[r]).spec_index())
                                && oi[oe[r].spec_index()] == r,
                        forall|q: usize| #[trigger]
                            oi.contains_key(q) ==> oi[q] < oe.len() && oe[oi[q] as int].spec_index() == q,
                        forall|j: int|
                            0 <= j < self.entities@.len() ==> self.indices@.contains_key(
                                (#[trigger] self.entities@[j]).spec_index(),
                            ) && self.indices@[self.entities@[j].spec_index()] == if j < k {
                                j
                            } else {
                                j + 1
                            },
                        forall|q: usize| #[trigger]
                            self.indices@.contains_key(q) ==> oi.contains_key(q) && q != key,
                    decreases self.entities@.len() - k,
                {
                    let e = self.entities[k];
                    self.indices.insert(e.as_usize(), k);
                    proof {
                        broadcast use EntityId::lemma_index_determines;
                        assert forall|j: int|
                            0 <= j < self.entities@.len() implies self.indices@.contains_key(
                                (#[trigger] self.entities@[j]).spec_index(),
                            ) && self.indices@[self.entities@[j].spec_index()] == if j < k + 1 {
                                j
                            } else {
                                j + 1
                            } by {
                            if j != k {
                                let a = if j < row { j } else { j + 1 };
                                let b = if (k as int) < row { k as int } else { k + 1 };
                                assert(self.entities@[j] == oe[a]);
                                assert(self.entities@[k as int] == oe[b]);
                                assert(a != b);
                                assert(oi[oe[a].spec_index()] == a);
                                assert(oi[oe[b].spec_index()] == b);
                            }
                        }
                        assert(oi.contains_key(e.spec_index()));
                        assert(e.spec_index() != key) by {
                            assert(oe[k + 1] == e);
                            assert(oi[oe[(k + 1) as int].spec_index()] == k + 1);
                        }
                    }
                    k = k + 1;
                }
                proof {
                    broadcast use EntityId::lemma_index_determines;
                    let n2 = self.entities@.len();
                    assert forall|q: usize| #[trigger]
                        self.indices@.contains_key(q) implies self.indices@[q] < self.entities@.len()
                        && self.entities@[self.indices@[q] as int].spec_index() == q by {
                        let p = oi[q] as int;
                        assert(oe[p].spec_index() == q);
                        assert(p != row);
                        let j = if p < row { p } else { p - 1 };
                        assert(self.entities@[j] == oe[p]);
                        assert(self.indices@[self.entities@[j].spec_index()] == j);
                    }
                    assert(self.components@.len() == self.entities@.len());
                    assert(self.wf());
                    self.lemma_wf_facts();
                    assert(old(self).spec_entities().index_of(entity) == row as int);
                    assert forall|e: EntityId| #[trigger]
                        self.spec_map().contains_key(e) == old(self).spec_map().remove(entity).contains_key(e) by {
                        if old(self).spec_entities().contains(e) && e != entity {
                            let p = old(self).spec_entities().index_of(e);
                            assert(p != row);
                            let j = if p < row { p } else { p - 1 };
                            assert(self.spec_entities()[j] == e);
                        }
                        if self.spec_entities().contains(e) {
                            let j = self.spec_entities().index_of(e);
                            let p = if j < row { j } else { j + 1 };
                            assert(oe[p] == e);
                            assert(p != row);
                        }
                    }
                    assert forall|e: EntityId| #[trigger]
                        self.spec_map().contains_key(e) implies self.spec_map()[e] == old(self).spec_map().remove(entity)[e] by {
                        let j = self.spec_entities().index_of(e);
                        let p = if j < row { j } else { j + 1 };
                        assert(oe[p] == e);
                        assert(old(self).spec_entities().index_of(e) == p);
                    }
                    assert(self.spec_map() =~= old(self).spec_map().remove(entity));
                }
                Some(value)
            },
        }
    }

    /// `remove_data` for a caller that names the value type, which must be
    /// the column's.
    pub fn remove(&mut self, info: &TypeInfo, entity: EntityId) -> (removed: Option<Vec<u8>>)
        requires
            old(self).wf(),
            info.spec_id() == old(self).spec_info().spec_id(),
        ensures
            final(self).wf(),
            final(self).spec_map() == old(self).spec_map().remove(entity),
            removed is Some <==> old(self).spec_map().contains_key(entity),
            removed matches Some(v) ==> v@ == old(self).spec_map()[entity],
            final(self).spec_info() == old(self).spec_info(),
            !final(self).spec_entities().contains(entity),
            final(self).spec_entities().len() == if removed is Some {
                old(self).spec_entities().len() - 1
            } else {
                old(self).spec_entities().len() as int
            },
    {
        let removed = self.remove_data(entity);
        proof {
            assert(!self.spec_map().contains_key(entity));
        }
        removed
    }
}


/// Reading an entity's value right after writing it gives the written
/// value; removing it then leaves the column's other values as they were
/// before the write.
pub proof fn lemma_remove_after_insert(values: Map<EntityId, Seq<u8>>, entity: EntityId, value: Seq<u8>)
    ensures
        values.insert(entity, value).contains_key(entity),
        values.insert(entity, value)[entity] == value,
        values.insert(entity, value).remove(entity) == values.remove(entity),
{
    assert(values.insert(entity, value).remove(entity) =~= values.remove(entity));
}

} // verus!
