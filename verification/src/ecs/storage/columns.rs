use vstd::prelude::*;

use crate::ecs::component::{ComponentId, ComponentInfo};

use super::Column;

verus! {

/// The columns of sparse components, one per component id.
pub struct Columns {
    columns: Vec<Column>,
    ids: Vec<ComponentId>,
}

impl Columns {
    pub closed spec fn spec_ids(&self) -> Seq<ComponentId> {
        self.ids@
    }

    pub closed spec fn spec_columns(&self) -> Seq<Column> {
        self.columns@
    }

    pub open spec fn wf(&self) -> bool {
        &&& self.spec_ids().len() == self.spec_columns().len()
        &&& self.spec_ids().no_duplicates()
        &&& forall|i: int| 0 <= i < self.spec_columns().len() ==> (#[trigger] self.spec_columns()[i]).wf()
    }

    /// The column of component `id`, which must have one.
    pub open spec fn column_of(&self, id: ComponentId) -> Column {
        self.spec_columns()[self.spec_ids().index_of(id)]
    }

    /// No column.
    pub fn new() -> (c: Self)
        ensures
            c.wf(),
            c.spec_ids() == Seq::<ComponentId>::empty(),
    {
        Columns { columns: Vec::new(), ids: Vec::new() }
    }

    fn position(&self, id: ComponentId) -> (pos: Option<usize>)
        requires
            self.wf(),
        ensures
            match pos {
                Some(p) => p < self.spec_ids().len() && self.spec_ids()[p as int] == id && self.spec_ids().index_of(id) == p,
                None => !self.spec_ids().contains(id),
            },
    {
        let mut i: usize = 0;
        while i < self.ids.len()
            invariant
                0 <= i <= self.spec_ids().len(),
                self.wf(),
                forall|k: int| 0 <= k < i ==> #[trigger] self.spec_ids()[k] != id,
            decreases self.spec_ids().len() - i,
        {
            if self.ids[i].as_usize() == id.as_usize() {
                proof {
                    ComponentId::lemma_index_determines(self.spec_ids()[i as int], id);
                    let q = self.spec_ids().index_of(id);
                    assert(self.spec_ids()[i as int] == id);
                    assert(self.spec_ids()[q] == id);
                    if q != i {
                        if q < i {
                        } else {
                        }
                    }
                }
                return Some(i);
            }
            i = i + 1;
        }
        None
    }

    /// Whether component `id` has a column.
    pub fn has_column(&self, id: &ComponentId) -> (b: bool)
        requires
            self.wf(),
        ensures
            b == self.spec_ids().contains(*id),
    {
        self.position(*id).is_some()
    }

    /// The column of the component of `component_info`, created empty if
    /// missing.
    pub fn get_or_create_column(&mut self, component_info: &ComponentInfo) -> (c: &mut Column)
        requires
            old(self).wf(),
        ensures
            final(self).spec_ids() == if old(self).spec_ids().contains(component_info.spec_id()) {
                old(self).spec_ids()
            } else {
                old(self).spec_ids().push(component_info.spec_id())
            },
            final(self).spec_ids().index_of(component_info.spec_id()) < final(self).spec_ids().len(),
            old(self).spec_ids().contains(component_info.spec_id()) ==> *c == old(self).column_of(component_info.spec_id()),
            !old(self).spec_ids().contains(component_info.spec_id()) ==> {
                &&& c.wf()
                &&& c.spec_entities().len() == 0
                &&& c.spec_info() == component_info.spec_type_info()
                &&& (component_info.spec_type_info().spec_size() < usize::MAX ==> c.has_room())
            },
            final(self).spec_columns() == (if old(self).spec_ids().contains(component_info.spec_id()) {
                old(self).spec_columns()
            } else {
                old(self).spec_columns().push(*c)
            }).update(final(self).spec_ids().index_of(component_info.spec_id()), *final(c)),
            c.wf(),
    {
        let id = component_info.id();
        match self.position(id) {
            Some(p) => &mut self.columns[p],
            None => {
                self.ids.push(id);
                self.columns.push(Column::from_info(component_info));
                let p = self.columns.len() - 1;
                proof {
                    assert(self.spec_ids()[p as int] == id);
                    let q = self.spec_ids().index_of(id);
                    if q != p {
                        assert(old(self).spec_ids()[q] == id);
                    }
                }
                &mut self.columns[p]
            },
        }
    }

    /// The column of component `id`, if any.
    pub fn get_column(&self, id: ComponentId) -> (c: Option<&Column>)
        requires
            self.wf(),
        ensures
            self.spec_ids().contains(id) ==> c == Some(&self.column_of(id)),
            !self.spec_ids().contains(id) ==> c is None,
    {
        match self.position(id) {
            Some(p) => Some(&self.columns[p]),
            None => None,
        }
    }

    /// The column of component `id`, which must have one, for changing.
    pub fn get_column_mut(&mut self, id: ComponentId) -> (c: &mut Column)
        requires
            old(self).wf(),
            old(self).spec_ids().contains(id),
        ensures
            *c == old(self).column_of(id),
            final(self).spec_ids() == old(self).spec_ids(),
            final(self).spec_columns() == old(self).spec_columns().update(old(self).spec_ids().index_of(id), *final(c)),
    {
        match self.position(id) {
            Some(p) => &mut self.columns[p],
            None => vstd::pervasive::unreached(),
        }
    }
}

} // verus!
