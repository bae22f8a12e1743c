use vstd::prelude::*;

use crate::ecs::component::{ComponentId, ComponentInfo};
use crate::ecs::storage::table::{insert_sorted, strictly_sorted};
use crate::ecs::storage::tables::same_ids;
use crate::ecs::storage::TableId;

use super::archetypes::Archetypes;
use super::ArchetypeId;

verus! {

/// A set of component types that entities can have together: where its
/// dense components live (a table), its sparse ones (column ids), and all
/// of its components.
#[derive(Clone)]
pub struct Archetype {
    id: ArchetypeId,
    table_id: TableId,
    column_ids: Vec<ComponentId>,
    components: Vec<ComponentId>,
}

impl Archetype {
    pub closed spec fn spec_id(&self) -> ArchetypeId {
        self.id
    }

    pub closed spec fn spec_table_id(&self) -> TableId {
        self.table_id
    }

    pub closed spec fn spec_column_ids(&self) -> Seq<ComponentId> {
        self.column_ids@
    }

    pub closed spec fn spec_component_ids(&self) -> Seq<ComponentId> {
        self.components@
    }

    pub fn new(
        id: ArchetypeId,
        table_id: TableId,
        column_ids: Vec<ComponentId>,
        component_ids: Vec<ComponentId>,
    ) -> (a: Self)
        ensures
            a.spec_id() == id,
            a.spec_table_id() == table_id,
            a.spec_column_ids() == column_ids@,
            a.spec_component_ids() == component_ids@,
    {
        Archetype { id, table_id, column_ids, components: component_ids }
    }

    pub fn id(&self) -> (id: ArchetypeId)
        ensures
            id == self.spec_id(),
    {
        self.id
    }

    pub fn table_id(&self) -> (id: TableId)
        ensures
            id == self.spec_table_id(),
    {
        self.table_id
    }

    pub fn column_ids(&self) -> (ids: &[ComponentId])
        ensures
            ids@ == self.spec_column_ids(),
    {
        self.column_ids.as_slice()
    }

    pub fn component_ids(&self) -> (ids: &[ComponentId])
        ensures
            ids@ == self.spec_component_ids(),
    {
        self.components.as_slice()
    }

    /// The archetype whose components are this archetype's and the
    /// component of `component_info`: the component must be new to this
    /// archetype and that archetype must exist already; `alteration` is for
    /// an archetype still to be made, which this never makes.
    pub fn get_or_create_extended<F: FnMut(&mut Archetype, &ComponentInfo)>(
        self,
        alteration: F,
        archetypes: &mut Archetypes,
        component_info: ComponentInfo,
    ) -> (id: ArchetypeId)
        requires
            old(archetypes).wf(),
            strictly_sorted(self.spec_component_ids()),
            !self.spec_component_ids().contains(component_info.spec_id()),
            exists|i: int| 0 <= i < old(archetypes).spec_archetypes().len() && {
                let c = (#[trigger] old(archetypes).spec_archetypes()[i]).spec_component_ids();
                &&& strictly_sorted(c)
                &&& forall|x: ComponentId| #[trigger] c.contains(x) <==> (self.spec_component_ids().contains(x)
                    || x == component_info.spec_id())
            },
        ensures
            *final(archetypes) == *old(archetypes),
            id.spec_index() < old(archetypes).spec_archetypes().len(),
            ({
                let c = old(archetypes).spec_archetypes()[id.spec_index() as int].spec_component_ids();
                forall|x: ComponentId| #[trigger] c.contains(x) <==> (self.spec_component_ids().contains(x)
                    || x == component_info.spec_id())
            }),
    {
        let mut components = self.components;
        insert_sorted(&mut components, component_info.id());
        let n = archetypes.len();
        let mut i: usize = 0;
        while i < n
            invariant
                0 <= i <= n,
                n == archetypes.spec_archetypes().len(),
                *archetypes == *old(archetypes),
                archetypes.wf(),
                strictly_sorted(components@),
                forall|x: ComponentId| #[trigger] components@.contains(x) <==> (self.spec_component_ids().contains(x)
                    || x == component_info.spec_id()),
                forall|j: int| 0 <= j < i ==> (#[trigger] archetypes.spec_archetypes()[j]).spec_component_ids() != components@,
            decreases n - i,
        {
            let candidate = archetypes.get_archetype(ArchetypeId::new(i));
            if same_ids(candidate.component_ids(), components.as_slice()) {
                return ArchetypeId::new(i);
            }
            i = i + 1;
        }
        proof {
            let archs = archetypes.spec_archetypes();
            let i = choose|i: int| 0 <= i < archs.len() && {
                let c = (#[trigger] archs[i]).spec_component_ids();
                &&& strictly_sorted(c)
                &&& forall|x: ComponentId| #[trigger] c.contains(x) <==> (self.spec_component_ids().contains(x)
                    || x == component_info.spec_id())
            };
            lemma_sorted_same_members(archs[i].spec_component_ids(), components@);
            assert(false);
        }
        vstd::pervasive::unreached()
    }
}

/// Two strictly sorted sequences with the same members are equal.
pub proof fn lemma_sorted_same_members(a: Seq<ComponentId>, b: Seq<ComponentId>)
    requires
        strictly_sorted(a),
        strictly_sorted(b),
        forall|x: ComponentId| #[trigger] a.contains(x) <==> b.contains(x),
    ensures
        a == b,
    decreases a.len() + b.len(),
{
    if a.len() == 0 || b.len() == 0 {
        if a.len() > 0 {
            assert(a.contains(a[0]));
            assert(b.contains(a[0]));
        }
        if b.len() > 0 {
            assert(b.contains(b[0]));
            assert(a.contains(b[0]));
        }
        assert(a =~= b);
    } else {
        let la = a.last();
        let lb = b.last();
        assert(a.contains(la));
        assert(b.contains(la));
        assert(b.contains(lb));
        assert(a.contains(lb));
        let ia = b.index_of(la);
        let ib = a.index_of(lb);
        assert(b[ia] == la);
        assert(a[ib] == lb);
        assert(la == lb) by {
            if la.spec_index() < lb.spec_index() {
                assert(a[ib].spec_index() <= la.spec_index()) by {
                    if ib < a.len() - 1 {
                        assert(a[ib].spec_index() < a[a.len() - 1].spec_index());
                    }
                }
            } else if lb.spec_index() < la.spec_index() {
                assert(b[ia].spec_index() <= lb.spec_index()) by {
                    if ia < b.len() - 1 {
                        assert(b[ia].spec_index() < b[b.len() - 1].spec_index());
                    }
                }
            } else {
                ComponentId::lemma_index_determines(la, lb);
            }
        }
        let a2 = a.drop_last();
        let b2 = b.drop_last();
        assert forall|x: ComponentId| #[trigger] a2.contains(x) <==> b2.contains(x) by {
            if a2.contains(x) {
                let k = a2.index_of(x);
                assert(a[k] == x);
                assert(x.spec_index() < la.spec_index());
                assert(a.contains(x));
                assert(b.contains(x));
                let j = b.index_of(x);
                assert(b[j] == x);
                if j == b.len() - 1 {
                    assert(x == lb);
                }
                assert(b2[j] == x);
            }
            if b2.contains(x) {
                let k = b2.index_of(x);
                assert(b[k] == x);
                assert(x.spec_index() < lb.spec_index());
                assert(b.contains(x));
                assert(a.contains(x));
                let j = a.index_of(x);
                assert(a[j] == x);
                if j == a.len() - 1 {
                    assert(x == la);
                }
                assert(a2[j] == x);
            }
        }
        lemma_sorted_same_members(a2, b2);
        assert(a =~= a2.push(la));
        assert(b =~= b2.push(lb));
    }
}

} // verus!
