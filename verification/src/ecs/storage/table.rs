use vstd::prelude::*;

use crate::ecs::component::{ComponentId, ComponentInfo};
use crate::ecs::entity::EntityId;

use super::{Column, TableRow};

verus! {

/// Whether the ids of `s` increase strictly.
pub open spec fn strictly_sorted(s: Seq<ComponentId>) -> bool {
    forall|i: int, j: int| 0 <= i < j < s.len() ==> (#[trigger] s[i]).spec_index() < (#[trigger] s[j]).spec_index()
}

/// Position of `id` in the sorted `s` (`Ok`), or where it would go (`Err`).
pub open spec fn sorted_position(s: Seq<ComponentId>, id: ComponentId, r: Result<usize, usize>) -> bool {
    match r {
        Ok(i) => i < s.len() && s[i as int] == id,
        Err(i) => {
            &&& i <= s.len()
            &&& forall|k: int| 0 <= k < i ==> (#[trigger] s[k]).spec_index() < id.spec_index()
            &&& forall|k: int| i <= k < s.len() ==> (#[trigger] s[k]).spec_index() > id.spec_index()
        },
    }
}

/// Binary search for `id` in the strictly sorted `ids`.
pub fn search_sorted(ids: &[ComponentId], id: ComponentId) -> (r: Result<usize, usize>)
    requires
        strictly_sorted(ids@),
    ensures
        sorted_position(ids@, id, r),
        r is Err <==> !ids@.contains(id),
{
    broadcast use ComponentId::lemma_index_determines_b;

    let mut lo: usize = 0;
    let mut hi: usize = ids.len();
    while lo < hi
        invariant
            0 <= lo <= hi <= ids@.len(),
            strictly_sorted(ids@),
            forall|k: int| 0 <= k < lo ==> (#[trigger] ids@[k]).spec_index() < id.spec_index(),
            forall|k: int| hi <= k < ids@.len() ==> (#[trigger] ids@[k]).spec_index() > id.spec_index(),
        decreases hi - lo,
    {
        let mid = lo + (hi - lo) / 2;
        let m = ids[mid].as_usize();
        if m == id.as_usize() {
            proof {
                ComponentId::lemma_index_determines(ids@[mid as int], id);
                assert(ids@.contains(id));
            }
            return Ok(mid);
        } else if m < id.as_usize() {
            lo = mid + 1;
        } else {
            hi = mid;
        }
    }
    proof {
        if ids@.contains(id) {
            let k = ids@.index_of(id);
            assert(ids@[k] == id);
        }
    }
    Err(lo)
}

/// Inserts `id` into the strictly sorted `ids` unless present.
pub fn insert_sorted(ids: &mut Vec<ComponentId>, id: ComponentId)
    requires
        strictly_sorted(old(ids)@),
    ensures
        strictly_sorted(final(ids)@),
        forall|x: ComponentId| #[trigger] final(ids)@.contains(x) <==> (old(ids)@.contains(x) || x == id),
{
    match search_sorted(ids.as_slice(), id) {
        Ok(_) => {},
        Err(i) => {
            ids.insert(i, id);
            proof {
                let s = ids@;
                let o = old(ids)@;
                assert forall|a: int, b: int| 0 <= a < b < s.len() implies (#[trigger] s[a]).spec_index()
                    < (#[trigger] s[b]).spec_index() by {
                    if a < i && b < i {
                    } else if a < i && b == i {
                    } else if a < i {
                        assert(s[b] == o[b - 1]);
                    } else if a == i {
                        assert(s[b] == o[b - 1]);
                    } else {
                        assert(s[a] == o[a - 1]);
                        assert(s[b] == o[b - 1]);
                    }
                }
                assert forall|x: ComponentId| #[trigger] s.contains(x) <==> (o.contains(x) || x == id) by {
                    if s.contains(x) {
                        let k = s.index_of(x);
                        if k < i {
                            assert(o[k] == x);
                        } else if k > i {
                            assert(o[k - 1] == x);
                        }
                    }
                    if o.contains(x) {
                        let k = o.index_of(x);
                        if k < i {
                            assert(s[k] == x);
                        } else {
                            assert(s[k + 1] == x);
                        }
                    }
                    if x == id {
                        assert(s[i as int] == x);
                    }
                }
            }
        },
    }
}

/// The ids of `a` and `b` together, strictly sorted.
pub fn sorted_union(a: &[ComponentId], b: &[ComponentId]) -> (u: Vec<ComponentId>)
    ensures
        strictly_sorted(u@),
        forall|x: ComponentId| #[trigger] u@.contains(x) <==> (a@.contains(x) || b@.contains(x)),
{
    let mut u: Vec<ComponentId> = Vec::new();
    let mut i: usize = 0;
    while i < a.len()
        invariant
            0 <= i <= a@.len(),
            strictly_sorted(u@),
            forall|x: ComponentId| #[trigger] u@.contains(x) <==> a@.subrange(0, i as int).contains(x),
        decreases a@.len() - i,
    {
        insert_sorted(&mut u, a[i]);
        proof {
            assert forall|x: ComponentId| #[trigger] a@.subrange(0, i + 1).contains(x) <==> (a@.subrange(0, i as int).contains(x) || x == a@[i as int]) by {
                if a@.subrange(0, i + 1).contains(x) {
                    let k = a@.subrange(0, i + 1).index_of(x);
                    if k < i {
                        assert(a@.subrange(0, i as int)[k] == x);
                    }
                }
                if a@.subrange(0, i as int).contains(x) {
                    let k = a@.subrange(0, i as int).index_of(x);
                    assert(a@.subrange(0, i + 1)[k] == x);
                }
                if x == a@[i as int] {
                    assert(a@.subrange(0, i + 1)[i as int] == x);
                }
            }
        }
        i = i + 1;
    }
    proof {
        assert(a@.subrange(0, a@.len() as int) =~= a@);
        assert forall|x: ComponentId| #[trigger] u@.contains(x) <==> (a@.contains(x) || b@.subrange(0, 0).contains(x)) by {
            assert(b@.subrange(0, 0).len() == 0);
        }
    }
    let mut j: usize = 0;
    while j < b.len()
        invariant
            0 <= j <= b@.len(),
            strictly_sorted(u@),
            forall|x: ComponentId| #[trigger] u@.contains(x) <==> (a@.contains(x) || b@.subrange(0, j as int).contains(x)),
        decreases b@.len() - j,
    {
        insert_sorted(&mut u, b[j]);
        proof {
            assert forall|x: ComponentId| #[trigger] b@.subrange(0, j + 1).contains(x) <==> (b@.subrange(0, j as int).contains(x) || x == b@[j as int]) by {
                if b@.subrange(0, j + 1).contains(x) {
                    let k = b@.subrange(0, j + 1).index_of(x);
                    if k < j {
                        assert(b@.subrange(0, j as int)[k] == x);
                    }
                }
                if b@.subrange(0, j as int).contains(x) {
                    let k = b@.subrange(0, j as int).index_of(x);
                    assert(b@.subrange(0, j + 1)[k] == x);
                }
                if x == b@[j as int] {
                    assert(b@.subrange(0, j + 1)[j as int] == x);
                }
            }
        }
        j = j + 1;
    }
    proof {
        assert(a@.subrange(0, a@.len() as int) =~= a@);
        assert(b@.subrange(0, b@.len() as int) =~= b@);
    }
    u
}

/// The dense storage of one set of component types: a column per type,
/// kept in the order of the sorted component ids.
pub struct Table {
    columns: Vec<Column>,
    components: Vec<ComponentId>,
}

impl Table {
    pub closed spec fn spec_components(&self) -> Seq<ComponentId> {
        self.components@
    }

    pub closed spec fn spec_columns(&self) -> Seq<Column> {
        self.columns@
    }

    pub open spec fn wf(&self) -> bool {
        &&& self.spec_columns().len() == self.spec_components().len()
        &&& strictly_sorted(self.spec_components())
        &&& forall|i: int| 0 <= i < self.spec_columns().len() ==> (#[trigger] self.spec_columns()[i]).wf()
    }

    /// The column of component `id`, which the table must have.
    pub open spec fn column_of(&self, id: ComponentId) -> Column {
        self.spec_columns()[self.spec_components().index_of(id)]
    }

    /// Number of rows: the length of the first column, 0 without columns.
    pub open spec fn spec_len(&self) -> nat {
        if self.spec_columns().len() == 0 {
            0
        } else {
            self.spec_columns()[0].spec_entities().len()
        }
    }

    /// A table without columns.
    pub fn new() -> (t: Self)
        ensures
            t.wf(),
            t.spec_components() == Seq::<ComponentId>::empty(),
            t.spec_columns() == Seq::<Column>::empty(),
    {
        Table { columns: Vec::new(), components: Vec::new() }
    }

    /// Number of rows.
    pub fn len(&self) -> (n: usize)
        requires
            self.wf(),
        ensures
            n == self.spec_len(),
    {
        if self.columns.len() == 0 {
            0
        } else {
            self.columns[0].len()
        }
    }

    /// The entities of the rows, in order: those of the first column.
    pub fn entities(&self) -> (es: &[EntityId])
        requires
            self.wf(),
        ensures
            es@ == if self.spec_columns().len() == 0 {
                Seq::<EntityId>::empty()
            } else {
                self.spec_columns()[0].spec_entities()
            },
    {
        if self.columns.len() == 0 {
            &[]
        } else {
            self.columns[0].entities()
        }
    }

    /// Whether the table has a column for component `id`.
    pub fn has_column(&self, id: &ComponentId) -> (b: bool)
        requires
            self.wf(),
        ensures
            b == self.spec_components().contains(*id),
    {
        search_sorted(self.components.as_slice(), *id).is_ok()
    }

    /// The column of component `id`, if the table has one.
    pub fn get_column(&self, component_id: ComponentId) -> (c: Option<&Column>)
        requires
            self.wf(),
        ensures
            self.spec_components().contains(component_id) ==> c == Some(&self.column_of(component_id)),
            !self.spec_components().contains(component_id) ==> c is None,
    {
        match search_sorted(self.components.as_slice(), component_id) {
            Ok(i) => {
                proof {
                    self.lemma_index_of(i as int);
                }
                Some(&self.columns[i])
            },
            Err(_) => None,
        }
    }

    proof fn lemma_index_of(&self, i: int)
        requires
            self.wf(),
            0 <= i < self.spec_components().len(),
        ensures
            self.spec_components().index_of(self.spec_components()[i]) == i,
    {
        let s = self.spec_components();
        let k = s.index_of(s[i]);
        assert(s[k] == s[i]);
        if k != i {
            if k < i {
                assert(s[k].spec_index() < s[i].spec_index());
            } else {
                assert(s[i].spec_index() < s[k].spec_index());
            }
        }
    }

    /// The column at position `k` is the column of the component at `k`.
    pub proof fn lemma_column_at(&self, k: int)
        requires
            self.wf(),
            0 <= k < self.spec_components().len(),
        ensures
            self.spec_components().index_of(self.spec_components()[k]) == k,
            self.column_of(self.spec_components()[k]) == self.spec_columns()[k],
    {
        self.lemma_index_of(k);
    }

    /// The component ids of the columns, sorted.
    pub fn components(&self) -> (ids: &[ComponentId])
        ensures
            ids@ == self.spec_components(),
    {
        self.components.as_slice()
    }

    /// Adds an empty column for the component of `component_info`, unless the
    /// table has one; returns the column's position.
    pub fn get_or_create_column(&mut self, component_info: &ComponentInfo) -> (pos: usize)
        requires
            old(self).wf(),
        ensures
            final(self).wf(),
            pos < final(self).spec_components().len(),
            pos <= old(self).spec_components().len(),
            final(self).spec_components()[pos as int] == component_info.spec_id(),
            old(self).spec_components().contains(component_info.spec_id()) ==> *final(self) == *old(self),
            !old(self).spec_components().contains(component_info.spec_id()) ==> {
                &&& final(self).spec_components() == old(self).spec_components().insert(
                    pos as int,
                    component_info.spec_id(),
                )
                &&& final(self).spec_columns() == old(self).spec_columns().insert(
                    pos as int,
                    final(self).spec_columns()[pos as int],
                )
                &&& final(self).spec_columns()[pos as int].spec_entities().len() == 0
                &&& final(self).spec_columns()[pos as int].spec_info()
                    == component_info.spec_type_info()
                &&& final(self).spec_columns()[pos as int].wf()
                &&& (component_info.spec_type_info().spec_size() < usize::MAX ==> final(self).spec_columns()[pos as int].has_room())
            },
    {
        let id = component_info.id();
        match search_sorted(self.components.as_slice(), id) {
            Ok(i) => i,
            Err(i) => {
                let column = Column::from_info(component_info);
                self.components.insert(i, id);
                self.columns.insert(i, column);
                proof {
                    let s = self.spec_components();
                    assert forall|a: int, b: int| 0 <= a < b < s.len() implies (#[trigger] s[a]).spec_index()
                        < (#[trigger] s[b]).spec_index() by {
                        let o = old(self).spec_components();
                        if a < i && b < i {
                        } else if a < i && b == i {
                        } else if a < i {
                            assert(s[b] == o[b - 1]);
                        } else if a == i {
                            assert(s[b] == o[b - 1]);
                        } else {
                            assert(s[a] == o[a - 1]);
                            assert(s[b] == o[b - 1]);
                        }
                    }
                    assert forall|k: int| 0 <= k < self.spec_columns().len() implies (#[trigger] self.spec_columns()[k]).wf() by {
                        if k < i {
                        } else if k > i {
                            assert(self.spec_columns()[k] == old(self).spec_columns()[k - 1]);
                        }
                    }
                    assert(self.spec_columns() =~= old(self).spec_columns().insert(
                        i as int,
                        self.spec_columns()[i as int],
                    ));
                }
                i
            },
        }
    }

    /// Moves the values of `entity_id` out of every column of this table
    /// into the column of the same component of `table`, and returns the
    /// last row of `table`.
    pub fn move_entity(&mut self, entity_id: EntityId, table: &mut Table) -> (row: TableRow)
        requires
            old(self).wf(),
            old(table).wf(),
            forall|k: int| 0 <= k < old(self).spec_columns().len() ==>
                (#[trigger] old(self).spec_columns()[k]).spec_entities().contains(entity_id),
            forall|k: int| 0 <= k < old(self).spec_components().len() ==>
                old(table).spec_components().contains(#[trigger] old(self).spec_components()[k]),
            forall|k: int| 0 <= k < old(self).spec_components().len() ==> {
                let c = #[trigger] old(self).spec_components()[k];
                &&& old(table).column_of(c).spec_info().spec_size() == old(self).spec_columns()[k].spec_info().spec_size()
                &&& old(table).column_of(c).has_room()
            },
            old(table).spec_components().len() > 0,
            old(self).spec_components().contains(old(table).spec_components()[0]),
        ensures
            final(self).wf(),
            final(table).wf(),
            final(self).spec_components() == old(self).spec_components(),
            final(table).spec_components() == old(table).spec_components(),
            forall|k: int| 0 <= k < old(self).spec_columns().len() ==>
                (#[trigger] final(self).spec_columns()[k]).spec_map() == old(self).spec_columns()[k].spec_map().remove(entity_id),
            forall|p: int| 0 <= p < old(table).spec_columns().len() ==> {
                let c = old(table).spec_components()[p];
                if old(self).spec_components().contains(c) {
                    (#[trigger] final(table).spec_columns()[p]).spec_map() == old(table).spec_columns()[p].spec_map().insert(
                        entity_id,
                        old(self).column_of(c).spec_map()[entity_id],
                    )
                } else {
                    final(table).spec_columns()[p] == old(table).spec_columns()[p]
                }
            },
            row.spec_index() == final(table).spec_len() - 1,
    {
        let ghost os = old(self).spec_columns();
        let ghost oc = old(self).spec_components();
        let ghost ot = old(table).spec_columns();
        let ghost otc = old(table).spec_components();
        let mut i: usize = 0;
        while i < self.columns.len()
            invariant
                0 <= i <= os.len(),
                os.len() == oc.len(),
                otc.len() == ot.len(),
                self.spec_components() == oc,
                table.spec_components() == otc,
                self.spec_columns().len() == os.len(),
                table.spec_columns().len() == ot.len(),
                strictly_sorted(oc),
                strictly_sorted(otc),
                forall|k: int| 0 <= k < os.len() ==> (#[trigger] os[k]).wf() && os[k].spec_entities().contains(entity_id),
                forall|p: int| 0 <= p < ot.len() ==> (#[trigger] ot[p]).wf(),
                forall|k: int| 0 <= k < oc.len() ==> otc.contains(#[trigger] oc[k]),
                forall|k: int| 0 <= k < oc.len() ==> {
                    let c = #[trigger] oc[k];
                    &&& 0 <= otc.index_of(c) < ot.len()
                    &&& ot[otc.index_of(c)].spec_info().spec_size() == os[k].spec_info().spec_size()
                    &&& ot[otc.index_of(c)].has_room()
                },
                forall|k: int| 0 <= k < i ==> {
                    &&& (#[trigger] self.spec_columns()[k]).wf()
                    &&& self.spec_columns()[k].spec_map() == os[k].spec_map().remove(entity_id)
                },
                forall|k: int| i <= k < os.len() ==> #[trigger] self.spec_columns()[k] == os[k],
                forall|p: int| #![trigger table.spec_columns()[p]] 0 <= p < ot.len() ==> {
                    let c = otc[p];
                    if oc.subrange(0, i as int).contains(c) {
                        &&& table.spec_columns()[p].wf()
                        &&& table.spec_columns()[p].spec_map() == ot[p].spec_map().insert(
                            entity_id,
                            os[oc.index_of(c)].spec_map()[entity_id],
                        )
                    } else {
                        table.spec_columns()[p] == ot[p]
                    }
                },
            decreases os.len() - i,
        {
            let id = self.components[i];
            let removed = self.columns[i].remove_data(entity_id);
            let data = match removed {
                Some(d) => d,
                None => vstd::pervasive::unreached(),
            };
            let pos = match search_sorted(table.components.as_slice(), id) {
                Ok(p) => p,
                Err(_) => vstd::pervasive::unreached(),
            };
            proof {
                let kk = i as int;
                assert(oc[kk] == id);
                assert(otc.contains(oc[kk]));
                assert(otc.index_of(id) == pos as int) by {
                    let q = otc.index_of(id);
                    assert(otc[q] == id);
                    if q != pos as int {
                        if q < pos as int {
                            assert(otc[q].spec_index() < otc[pos as int].spec_index());
                        } else {
                            assert(otc[pos as int].spec_index() < otc[q].spec_index());
                        }
                    }
                }
                assert(!oc.subrange(0, i as int).contains(id)) by {
                    if oc.subrange(0, i as int).contains(id) {
                        let q = oc.subrange(0, i as int).index_of(id);
                        assert(oc[q] == id);
                        assert(oc[q].spec_index() < oc[kk].spec_index());
                    }
                }
                assert(otc[pos as int] == id);
                assert(table.spec_columns()[pos as int] == ot[pos as int]);
                assert(pos < table.columns@.len());
                assert(oc.index_of(id) == kk) by {
                    let q = oc.index_of(id);
                    assert(oc[q] == id);
                    if q != kk {
                        if q < kk {
                            assert(oc[q].spec_index() < oc[kk].spec_index());
                        } else {
                            assert(oc[kk].spec_index() < oc[q].spec_index());
                        }
                    }
                }
            }
            proof {
                os[i as int].lemma_value_sizes();
            }
            table.columns[pos].insert_data(entity_id, data.as_slice());
            proof {
                assert forall|p: int| #![trigger table.spec_columns()[p]] 0 <= p < ot.len() implies {
                    let c = otc[p];
                    if oc.subrange(0, i + 1).contains(c) {
                        &&& table.spec_columns()[p].wf()
                        &&& table.spec_columns()[p].spec_map() == ot[p].spec_map().insert(
                            entity_id,
                            os[oc.index_of(c)].spec_map()[entity_id],
                        )
                    } else {
                        table.spec_columns()[p] == ot[p]
                    }
                } by {
                    let c = otc[p];
                    if p == pos as int {
                        assert(oc.subrange(0, i + 1)[i as int] == c);
                    } else {
                        assert(c != id) by {
                            if p < pos as int {
                                assert(otc[p].spec_index() < otc[pos as int].spec_index());
                            } else {
                                assert(otc[pos as int].spec_index() < otc[p].spec_index());
                            }
                        }
                        if oc.subrange(0, i + 1).contains(c) {
                            let q = oc.subrange(0, i + 1).index_of(c);
                            assert(oc.subrange(0, i as int)[q] == c);
                        }
                        if oc.subrange(0, i as int).contains(c) {
                            let q = oc.subrange(0, i as int).index_of(c);
                            assert(oc.subrange(0, i + 1)[q] == c);
                        }
                    }
                }
            }
            i = i + 1;
        }
        proof {
            assert(oc.subrange(0, oc.len() as int) =~= oc);
            assert forall|p: int| 0 <= p < ot.len() implies (#[trigger] table.spec_columns()[p]).wf() by {
                let c = otc[p];
                if oc.subrange(0, i as int).contains(c) {
                } else {
                }
            }
            let c0 = otc[0];
            assert(oc.contains(c0));
            assert(table.spec_columns()[0].spec_map().contains_key(entity_id));
            assert(table.spec_columns()[0].spec_entities().contains(entity_id));
            assert(table.spec_columns()[0].spec_entities().len() > 0);
            assert forall|p: int| 0 <= p < ot.len() implies ({
                let c = otc[p];
                if oc.contains(c) {
                    (#[trigger] table.spec_columns()[p]).spec_map() == ot[p].spec_map().insert(
                        entity_id,
                        old(self).column_of(c).spec_map()[entity_id],
                    )
                } else {
                    table.spec_columns()[p] == ot[p]
                }
            }) by {
            }
        }
        let n = table.len();
        TableRow::new(n - 1)
    }

    /// Gives `entity` the value `data` for the component of `info`, adding
    /// an empty column for it first if the table has none.
    pub fn write_value(&mut self, info: &ComponentInfo, entity: EntityId, data: &[u8])
        requires
            old(self).wf(),
            data@.len() == info.spec_type_info().spec_size(),
            info.spec_type_info().spec_size() < usize::MAX,
            old(self).spec_components().contains(info.spec_id()) ==> {
                let c = old(self).column_of(info.spec_id());
                &&& c.spec_info() == info.spec_type_info()
                &&& c.has_room() || c.spec_entities().contains(entity)
            },
        ensures
            final(self).wf(),
            forall|x: ComponentId| #[trigger] final(self).spec_components().contains(x) <==> (old(self).spec_components().contains(x) || x == info.spec_id()),
            final(self).column_of(info.spec_id()).spec_map() == if old(self).spec_components().contains(info.spec_id()) {
                old(self).column_of(info.spec_id()).spec_map()
            } else {
                Map::<EntityId, Seq<u8>>::empty()
            }.insert(entity, data@),
            final(self).column_of(info.spec_id()).spec_entities().contains(entity),
            final(self).column_of(info.spec_id()).spec_info() == info.spec_type_info(),
            forall|x: ComponentId| #[trigger] old(self).spec_components().contains(x) && x != info.spec_id() ==> final(self).column_of(x) == old(self).column_of(x),
    {
        let ghost old_components = self.spec_components();
        let pos = self.get_or_create_column(info);
        proof {
            self.lemma_index_of(pos as int);
            Column::lemma_empty_map(self.spec_columns()[pos as int]);
            self.spec_columns()[pos as int].lemma_value_sizes();
            assert forall|x: ComponentId| #[trigger] self.spec_components().contains(x) <==> (old_components.contains(x) || x == info.spec_id()) by {
                if !old_components.contains(info.spec_id()) {
                    let s = self.spec_components();
                    assert(s == old_components.insert(pos as int, info.spec_id()));
                    assert(s.len() == old_components.len() + 1);
                    if s.contains(x) {
                        let k = s.index_of(x);
                        if k < pos {
                            assert(old_components[k] == x);
                        } else if k > pos {
                            assert(old_components[k - 1] == x);
                        }
                    }
                    if old_components.contains(x) {
                        let k = old_components.index_of(x);
                        if k < pos {
                            assert(s[k] == x);
                        } else {
                            assert(s[k + 1] == x);
                        }
                    }
                }
            }
        }
        let ghost before = self.spec_columns();
        self.columns[pos].insert_data(entity, data);
        proof {
            let c0 = before[pos as int];
            let c1 = self.spec_columns()[pos as int];
            if !c0.spec_entities().contains(entity) {
                assert(c1.spec_entities() == c0.spec_entities().push(entity));
                assert(c1.spec_entities()[c0.spec_entities().len() as int] == entity);
            }
            assert(c1.spec_entities().contains(entity));
            assert(self.spec_components().index_of(info.spec_id()) == pos as int);
            assert forall|k: int| 0 <= k < self.spec_columns().len() implies (#[trigger] self.spec_columns()[k]).wf() by {
                if k != pos {
                    assert(self.spec_columns()[k] == before[k]);
                }
            }
            assert forall|x: ComponentId| #[trigger] old(self).spec_components().contains(x) && x != info.spec_id() implies self.column_of(x) == old(self).column_of(x) by {
                let k = old(self).spec_components().index_of(x);
                assert(old(self).spec_components()[k] == x);
                assert(self.spec_components().contains(x));
                let j = self.spec_components().index_of(x);
                assert(self.spec_components()[j] == x);
                self.lemma_index_of(j);
                old(self).lemma_index_of(k);
                if old(self).spec_components().contains(info.spec_id()) {
                    assert(j == k);
                    assert(j != pos);
                } else {
                    if k < pos {
                        assert(self.spec_components()[k] == x);
                        assert(j == k);
                    } else {
                        assert(self.spec_components()[k + 1] == x);
                        assert(j == k + 1);
                    }
                }
                assert(j != pos);
                assert(self.spec_columns()[j] == before[j]);
            }
        }
    }

    /// Takes away the value of `entity` from the column at position `pos`.
    pub fn take_value(&mut self, pos: usize, entity: EntityId) -> (removed: Option<Vec<u8>>)
        requires
            old(self).wf(),
            pos < old(self).spec_columns().len(),
        ensures
            final(self).wf(),
            final(self).spec_components() == old(self).spec_components(),
            final(self).spec_columns().len() == old(self).spec_columns().len(),
            final(self).spec_columns()[pos as int].spec_map() == old(self).spec_columns()[pos as int].spec_map().remove(entity),
            final(self).spec_columns()[pos as int].spec_info() == old(self).spec_columns()[pos as int].spec_info(),
            removed is Some <==> old(self).spec_columns()[pos as int].spec_map().contains_key(entity),
            removed matches Some(v) ==> v@ == old(self).spec_columns()[pos as int].spec_map()[entity],
            forall|k: int| 0 <= k < old(self).spec_columns().len() && k != pos ==> #[trigger] final(self).spec_columns()[k] == old(self).spec_columns()[k],
            old(self).spec_columns()[pos as int].spec_entities().contains(entity) ==> final(self).spec_columns()[pos as int].has_room(),
            !old(self).spec_columns()[pos as int].spec_entities().contains(entity) ==>
                final(self).spec_columns()[pos as int].has_room() == old(self).spec_columns()[pos as int].has_room(),
            !final(self).spec_columns()[pos as int].spec_entities().contains(entity),
    {
        let removed = self.columns[pos].remove_data(entity);
        proof {
            let c = self.spec_columns()[pos as int];
            assert(!c.spec_map().contains_key(entity));
            assert forall|k: int| 0 <= k < self.spec_columns().len() implies (#[trigger] self.spec_columns()[k]).wf() by {
                if k != pos {
                    assert(self.spec_columns()[k] == old(self).spec_columns()[k]);
                }
            }
        }
        removed
    }
}

} // verus!
