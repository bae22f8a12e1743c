use vstd::prelude::*;

use crate::ecs::component::ComponentId;

use super::{Table, TableId};

verus! {

/// Whether `a` and `b` hold the same ids in the same order.
pub fn same_ids(a: &[ComponentId], b: &[ComponentId]) -> (same: bool)
    ensures
        same == (a@ == b@),
{
    if a.len() != b.len() {
        return false;
    }
    let mut i: usize = 0;
    while i < a.len()
        invariant
            0 <= i <= a@.len(),
            a@.len() == b@.len(),
            a@.subrange(0, i as int) == b@.subrange(0, i as int),
        decreases a@.len() - i,
    {
        if a[i].as_usize() != b[i].as_usize() {
            proof {
                ComponentId::lemma_index_determines(a@[i as int], b@[i as int]);
                assert(a@[i as int] != b@[i as int]);
            }
            return false;
        }
        proof {
            ComponentId::lemma_index_determines(a@[i as int], b@[i as int]);
            assert(a@.subrange(0, i + 1) =~= b@.subrange(0, i + 1)) by {
                assert(a@.subrange(0, i + 1) =~= a@.subrange(0, i as int).push(a@[i as int]));
                assert(b@.subrange(0, i + 1) =~= b@.subrange(0, i as int).push(b@[i as int]));
            }
        }
        i = i + 1;
    }
    assert(a@ =~= a@.subrange(0, i as int));
    assert(b@ =~= b@.subrange(0, i as int));
    true
}

/// Position of the key `ids` among `keys`, if present.
pub open spec fn key_position(keys: Seq<Seq<ComponentId>>, ids: Seq<ComponentId>) -> Option<int> {
    if exists|i: int| 0 <= i < keys.len() && keys[i] == ids {
        Some(choose|i: int| 0 <= i < keys.len() && keys[i] == ids)
    } else {
        None
    }
}

/// Every table, each named by the list of component ids it was created for;
/// table 0 is the table of no components.
pub struct Tables {
    tables: Vec<Table>,
    keys: Vec<Vec<ComponentId>>,
}

impl Tables {
    pub closed spec fn spec_tables(&self) -> Seq<Table> {
        self.tables@
    }

    pub closed spec fn spec_keys(&self) -> Seq<Seq<ComponentId>> {
        self.keys@.map_values(|k: Vec<ComponentId>| k@)
    }

    pub open spec fn wf(&self) -> bool {
        &&& self.spec_tables().len() == self.spec_keys().len()
        &&& self.spec_keys().len() >= 1
        &&& self.spec_keys()[0] == Seq::<ComponentId>::empty()
        &&& forall|i: int, j: int| 0 <= i < j < self.spec_keys().len() ==> #[trigger] self.spec_keys()[i] != #[trigger] self.spec_keys()[j]
        &&& forall|i: int| 0 <= i < self.spec_tables().len() ==> (#[trigger] self.spec_tables()[i]).wf()
    }

    /// Only the table of no components, with id 0.
    pub fn new() -> (t: Self)
        ensures
            t.wf(),
            t.spec_tables().len() == 1,
            t.spec_tables()[0].spec_components().len() == 0,
            t.spec_tables()[0].spec_columns().len() == 0,
            t.spec_keys() == seq![Seq::<ComponentId>::empty()],
    {
        let mut tables = Tables { tables: Vec::new(), keys: Vec::new() };
        tables.tables.push(Table::new());
        tables.keys.push(Vec::new());
        assert(tables.spec_keys() =~= seq![Seq::<ComponentId>::empty()]);
        tables
    }

    /// Number of tables.
    pub fn len(&self) -> (n: usize)
        ensures
            n == self.spec_tables().len(),
    {
        self.tables.len()
    }

    /// The id of the table made for `component_ids`, creating an empty one
    /// if there is none.
    pub fn get_or_insert_table(&mut self, component_ids: &[ComponentId]) -> (id: TableId)
        requires
            old(self).wf(),
            old(self).spec_tables().len() < usize::MAX,
        ensures
            final(self).wf(),
            match key_position(old(self).spec_keys(), component_ids@) {
                Some(i) => {
                    &&& id.spec_index() == i
                    &&& *final(self) == *old(self)
                },
                None => {
                    &&& id.spec_index() == old(self).spec_tables().len()
                    &&& final(self).spec_keys() == old(self).spec_keys().push(component_ids@)
                    &&& final(self).spec_tables().len() == old(self).spec_tables().len() + 1
                    &&& final(self).spec_tables().subrange(0, id.spec_index() as int) == old(self).spec_tables()
                    &&& final(self).spec_tables()[id.spec_index() as int].spec_components().len() == 0
                    &&& final(self).spec_tables()[id.spec_index() as int].spec_columns().len() == 0
                },
            },
            final(self).spec_keys()[id.spec_index() as int] == component_ids@,
            id.spec_index() < final(self).spec_tables().len(),
    {
        let mut i: usize = 0;
        while i < self.keys.len()
            invariant
                0 <= i <= self.spec_keys().len(),
                self.wf(),
                *self == *old(self),
                forall|k: int| 0 <= k < i ==> #[trigger] self.spec_keys()[k] != component_ids@,
            decreases self.spec_keys().len() - i,
        {
            if same_ids(self.keys[i].as_slice(), component_ids) {
                proof {
                    let p = key_position(self.spec_keys(), component_ids@);
                    assert(self.spec_keys()[i as int] == component_ids@);
                    let q = p->0;
                    assert(self.spec_keys()[q] == component_ids@);
                    if q != i {
                        if q < i {
                        } else {
                            assert(self.spec_keys()[i as int] != self.spec_keys()[q]);
                        }
                    }
                }
                return TableId::new(i);
            }
            i = i + 1;
        }
        proof {
            assert(key_position(old(self).spec_keys(), component_ids@) is None);
        }
        let mut key: Vec<ComponentId> = Vec::new();
        let mut j: usize = 0;
        while j < component_ids.len()
            invariant
                0 <= j <= component_ids@.len(),
                key@ == component_ids@.subrange(0, j as int),
            decreases component_ids@.len() - j,
        {
            key.push(component_ids[j]);
            j = j + 1;
            assert(key@ =~= component_ids@.subrange(0, j as int));
        }
        assert(key@ =~= component_ids@);
        let id = TableId::new(self.tables.len());
        self.tables.push(Table::new());
        self.keys.push(key);
        proof {
            assert(self.spec_keys() =~= old(self).spec_keys().push(component_ids@));
            assert(self.spec_tables().subrange(0, id.spec_index() as int) =~= old(self).spec_tables());
            assert forall|a: int, b: int| 0 <= a < b < self.spec_keys().len() implies #[trigger] self.spec_keys()[a]
                != #[trigger] self.spec_keys()[b] by {
                if b == self.spec_keys().len() - 1 {
                    assert(old(self).spec_keys()[a] != component_ids@);
                }
            }
        }
        id
    }

    /// The component ids table `id`, which must exist, was made for.
    pub fn key_of(&self, id: TableId) -> (ids: &[ComponentId])
        requires
            id.spec_index() < self.spec_keys().len(),
        ensures
            ids@ == self.spec_keys()[id.spec_index() as int],
    {
        self.keys[id.as_usize()].as_slice()
    }

    /// The table `id`, if there is one.
    pub fn get_table(&self, id: TableId) -> (t: Option<&Table>)
        ensures
            id.spec_index() < self.spec_tables().len() ==> t == Some(&self.spec_tables()[id.spec_index() as int]),
            id.spec_index() >= self.spec_tables().len() ==> t is None,
    {
        if id.as_usize() < self.tables.len() {
            Some(&self.tables[id.as_usize()])
        } else {
            None
        }
    }

    /// The table `id`, which must exist, for changing.
    pub fn get_table_mut(&mut self, id: TableId) -> (t: &mut Table)
        requires
            id.spec_index() < old(self).spec_tables().len(),
        ensures
            *t == old(self).spec_tables()[id.spec_index() as int],
            final(self).spec_tables() == old(self).spec_tables().update(id.spec_index() as int, *final(t)),
            final(self).spec_keys() == old(self).spec_keys(),
    {
        &mut self.tables[id.as_usize()]
    }
}


/// A key that names table `i` is found at `i`: asking again for the table of
/// a key returns the same table and adds none.
pub proof fn lemma_key_found_again(tables: Tables, key: Seq<ComponentId>, i: int)
    requires
        tables.wf(),
        0 <= i < tables.spec_keys().len(),
        tables.spec_keys()[i] == key,
    ensures
        key_position(tables.spec_keys(), key) == Some(i),
{
    let keys = tables.spec_keys();
    assert(exists|j: int| 0 <= j < keys.len() && keys[j] == key);
    let j = choose|j: int| 0 <= j < keys.len() && keys[j] == key;
    if j != i {
        if j < i {
            assert(keys[j] != keys[i]);
        } else {
            assert(keys[i] != keys[j]);
        }
    }
}

} // verus!
