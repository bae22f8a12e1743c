use vstd::prelude::*;

use super::{Columns, Tables};

verus! {

/// All component storage of a world: the tables of dense components and
/// the columns of sparse ones.
pub struct Storages {
    tables: Tables,
    columns: Columns,
}

impl Storages {
    pub closed spec fn spec_tables(&self) -> Tables {
        self.tables
    }

    pub closed spec fn spec_columns(&self) -> Columns {
        self.columns
    }

    pub open spec fn wf(&self) -> bool {
        self.spec_tables().wf() && self.spec_columns().wf()
    }

    /// The table of no components and no sparse column.
    pub fn new() -> (s: Self)
        ensures
            s.wf(),
            s.spec_tables().spec_tables().len() == 1,
            s.spec_tables().spec_tables()[0].spec_components().len() == 0,
            s.spec_tables().spec_tables()[0].spec_columns().len() == 0,
            s.spec_tables().spec_keys() == seq![Seq::<crate::ecs::component::ComponentId>::empty()],
            s.spec_columns().spec_ids().len() == 0,
    {
        Storages { tables: Tables::new(), columns: Columns::new() }
    }

    pub fn tables(&self) -> (t: &Tables)
        ensures
            *t == self.spec_tables(),
    {
        &self.tables
    }

    pub fn tables_mut(&mut self) -> (t: &mut Tables)
        ensures
            *t == old(self).spec_tables(),
            final(self).spec_tables() == *final(t),
            final(self).spec_columns() == old(self).spec_columns(),
    {
        &mut self.tables
    }

    pub fn columns(&self) -> (c: &Columns)
        ensures
            *c == self.spec_columns(),
    {
        &self.columns
    }

    pub fn columns_mut(&mut self) -> (c: &mut Columns)
        ensures
            *c == old(self).spec_columns(),
            final(self).spec_columns() == *final(c),
            final(self).spec_tables() == old(self).spec_tables(),
    {
        &mut self.columns
    }
}

} // verus!
