use vstd::prelude::*;

use std::collections::HashMap;

use crate::any::TypeInfo;
use crate::ecs::component::ComponentId;
use crate::ecs::entity::EntityId;
use crate::ecs::storage::tables::same_ids;
use crate::ecs::storage::TableId;

use super::{Archetype, ArchetypeId};

verus! {

broadcast use vstd::std_specs::hash::group_hash_axioms;

/// A node of the graph of archetypes: the archetype, the type that its
/// parent lacks, the parent's node and the children's nodes by type key.
pub struct ArchetypeGraphNode {
    pub type_id: u64,
    pub archetype_id: ArchetypeId,
    pub parent: usize,
    pub children: HashMap<u64, usize>,
}

/// Every archetype, found again by its table and sparse columns, the graph
/// of archetypes, and the archetype of every entity.
pub struct Archetypes {
    archetypes: Vec<Archetype>,
    graph: Vec<ArchetypeGraphNode>,
    entities: HashMap<usize, ArchetypeId>,
}

/// Whether archetype `a` is stored in `table_id` and `column_ids`.
pub open spec fn has_key(a: Archetype, table_id: TableId, column_ids: Seq<ComponentId>) -> bool {
    a.spec_table_id() == table_id && a.spec_column_ids() == column_ids
}

/// Position of the archetype stored in `table_id` and `column_ids`, if any,
/// among those made by `get_or_insert_archetype`: all but the root, 0.
pub open spec fn archetype_position(
    archetypes: Seq<Archetype>,
    table_id: TableId,
    column_ids: Seq<ComponentId>,
) -> Option<int> {
    if exists|i: int| 1 <= i < archetypes.len() && has_key(#[trigger] archetypes[i], table_id, column_ids) {
        Some(choose|i: int| 1 <= i < archetypes.len() && has_key(#[trigger] archetypes[i], table_id, column_ids))
    } else {
        None
    }
}

impl Archetypes {
    pub closed spec fn spec_archetypes(&self) -> Seq<Archetype> {
        self.archetypes@
    }

    /// The nodes of the archetype graph.
    pub closed spec fn spec_graph(&self) -> Seq<ArchetypeGraphNode> {
        self.graph@
    }

    pub closed spec fn spec_graph_len(&self) -> nat {
        self.graph@.len()
    }

    /// The archetype of each entity, by the entity's index.
    pub closed spec fn spec_entities(&self) -> Map<usize, ArchetypeId> {
        self.entities@
    }

    pub open spec fn wf(&self) -> bool {
        &&& self.spec_archetypes().len() >= 1
        &&& forall|i: int| 0 <= i < self.spec_archetypes().len() ==> (#[trigger] self.spec_archetypes()[i]).spec_id().spec_index() == i
        &&& forall|i: int, j: int| 1 <= i < j < self.spec_archetypes().len() ==> !has_key(
            #[trigger] self.spec_archetypes()[i],
            self.spec_archetypes()[j].spec_table_id(),
            (#[trigger] self.spec_archetypes()[j]).spec_column_ids(),
        )
        &&& forall|e: usize| #[trigger] self.spec_entities().contains_key(e) ==> self.spec_entities()[e].spec_index() < self.spec_archetypes().len()
    }

    /// Only the empty archetype, id 0, stored in table 0 with no column, as
    /// the root of the graph.
    pub fn new() -> (a: Self)
        ensures
            a.wf(),
            a.spec_archetypes().len() == 1,
            a.spec_archetypes()[0].spec_table_id().spec_index() == 0,
            a.spec_archetypes()[0].spec_column_ids().len() == 0,
            a.spec_archetypes()[0].spec_component_ids().len() == 0,
            a.spec_entities() == Map::<usize, ArchetypeId>::empty(),
            a.spec_graph_len() == 1,
    {
        let mut archetypes = Archetypes { archetypes: Vec::new(), graph: Vec::new(), entities: HashMap::new() };
        archetypes.graph.push(ArchetypeGraphNode {
            archetype_id: ArchetypeId::new(0usize),
            type_id: TypeInfo::of::<()>().id(),
            parent: usize::MAX,
            children: HashMap::new(),
        });
        archetypes.archetypes.push(Archetype::new(ArchetypeId::new(0usize), TableId::new(0usize), Vec::new(), Vec::new()));
        archetypes
    }

    /// Number of archetypes.
    pub fn len(&self) -> (n: usize)
        ensures
            n == self.spec_archetypes().len(),
    {
        self.archetypes.len()
    }

    /// The archetype stored in `table_id` and `column_ids` that an earlier
    /// call made, created with `component_ids` if there is none; the root
    /// archetype is not looked at.
    pub fn get_or_insert_archetype(
        &mut self,
        table_id: TableId,
        column_ids: Vec<ComponentId>,
        component_ids: Vec<ComponentId>,
    ) -> (id: ArchetypeId)
        requires
            old(self).wf(),
            old(self).spec_archetypes().len() < usize::MAX,
        ensures
            final(self).wf(),
            final(self).spec_entities() == old(self).spec_entities(),
            final(self).spec_graph_len() == old(self).spec_graph_len(),
            1 <= id.spec_index() < final(self).spec_archetypes().len(),
            has_key(final(self).spec_archetypes()[id.spec_index() as int], table_id, column_ids@),
            match archetype_position(old(self).spec_archetypes(), table_id, column_ids@) {
                Some(i) => id.spec_index() == i && final(self).spec_archetypes() == old(self).spec_archetypes(),
                None => {
                    &&& id.spec_index() == old(self).spec_archetypes().len()
                    &&& final(self).spec_archetypes().len() == old(self).spec_archetypes().len() + 1
                    &&& final(self).spec_archetypes().subrange(0, id.spec_index() as int) == old(self).spec_archetypes()
                    &&& final(self).spec_archetypes()[id.spec_index() as int].spec_component_ids() == component_ids@
                },
            },
    {
        let mut i: usize = 1;
        while i < self.archetypes.len()
            invariant
                1 <= i <= self.spec_archetypes().len(),
                self.wf(),
                self.spec_archetypes() == old(self).spec_archetypes(),
                self.spec_entities() == old(self).spec_entities(),
                self.spec_graph_len() == old(self).spec_graph_len(),
                forall|k: int| 1 <= k < i ==> !has_key(#[trigger] self.spec_archetypes()[k], table_id, column_ids@),
            decreases self.spec_archetypes().len() - i,
        {
            let a = &self.archetypes[i];
            if a.table_id().as_usize() == table_id.as_usize() && same_ids(a.column_ids(), column_ids.as_slice()) {
                proof {
                    TableId::lemma_index_determines(a.spec_table_id(), table_id);
                    assert(a.spec_table_id() == table_id);
                    assert(has_key(self.spec_archetypes()[i as int], table_id, column_ids@));
                    let q = archetype_position(self.spec_archetypes(), table_id, column_ids@)->0;
                    if q != i as int {
                        if q < i {
                        } else {
                            assert(!has_key(self.spec_archetypes()[i as int], self.spec_archetypes()[q].spec_table_id(), self.spec_archetypes()[q].spec_column_ids()));
                        }
                    }
                }
                return ArchetypeId::new(i);
            }
            i = i + 1;
        }
        let id = ArchetypeId::new(self.archetypes.len());
        let archetype = Archetype::new(id, table_id, column_ids, component_ids);
        self.archetypes.push(archetype);
        proof {
            assert(self.spec_archetypes().subrange(0, id.spec_index() as int) =~= old(self).spec_archetypes());
            assert forall|a: int, b: int| 1 <= a < b < self.spec_archetypes().len() implies !has_key(
                #[trigger] self.spec_archetypes()[a],
                self.spec_archetypes()[b].spec_table_id(),
                (#[trigger] self.spec_archetypes()[b]).spec_column_ids(),
            ) by {
                if b == id.spec_index() {
                    assert(!has_key(old(self).spec_archetypes()[a], table_id, column_ids@));
                }
            }
        }
        id
    }

    /// Puts the new entity `entity` in the empty archetype.
    pub fn insert_empty_entity(&mut self, entity: EntityId)
        requires
            old(self).wf(),
        ensures
            final(self).wf(),
            final(self).spec_archetypes() == old(self).spec_archetypes(),
            final(self).spec_entities() == old(self).spec_entities().insert(entity.spec_index(), ArchetypeId::spec_zero()),
            final(self).spec_graph_len() == old(self).spec_graph_len(),
    {
        self.entities.insert(entity.as_usize(), ArchetypeId::new(0usize));
        proof {
            ArchetypeId::lemma_from(0);
            assert forall|e: usize| #[trigger] self.spec_entities().contains_key(e) implies self.spec_entities()[e].spec_index()
                < self.spec_archetypes().len() by {
                if e != entity.spec_index() {
                    assert(old(self).spec_entities().contains_key(e));
                }
            }
        }
    }

    /// Records that `entity` now belongs to archetype `id`.
    pub fn set_entity_archetype_id(&mut self, entity: EntityId, id: ArchetypeId)
        requires
            old(self).wf(),
            id.spec_index() < old(self).spec_archetypes().len(),
        ensures
            final(self).wf(),
            final(self).spec_archetypes() == old(self).spec_archetypes(),
            final(self).spec_entities() == old(self).spec_entities().insert(entity.spec_index(), id),
            final(self).spec_graph_len() == old(self).spec_graph_len(),
    {
        self.entities.insert(entity.as_usize(), id);
        proof {
            assert forall|e: usize| #[trigger] self.spec_entities().contains_key(e) implies self.spec_entities()[e].spec_index()
                < self.spec_archetypes().len() by {
                if e != entity.spec_index() {
                    assert(old(self).spec_entities().contains_key(e));
                }
            }
        }
    }

    /// The archetype of `entity`, which must have one.
    pub fn get_entity_archetype_id(&self, entity: &EntityId) -> (id: ArchetypeId)
        requires
            self.spec_entities().contains_key(entity.spec_index()),
        ensures
            id == self.spec_entities()[entity.spec_index()],
    {
        match self.entities.get(&entity.as_usize()) {
            Some(id) => *id,
            None => vstd::pervasive::unreached(),
        }
    }

    /// The archetype `id`, which must exist.
    pub fn get_archetype(&self, id: ArchetypeId) -> (a: &Archetype)
        requires
            id.spec_index() < self.spec_archetypes().len(),
        ensures
            *a == self.spec_archetypes()[id.spec_index() as int],
    {
        &self.archetypes[id.as_usize()]
    }

    /// The archetype `id`, which must exist, for changing.
    pub fn get_archetype_mut(&mut self, id: ArchetypeId) -> (a: &mut Archetype)
        requires
            id.spec_index() < old(self).spec_archetypes().len(),
        ensures
            *a == old(self).spec_archetypes()[id.spec_index() as int],
            final(self).spec_archetypes() == old(self).spec_archetypes().update(id.spec_index() as int, *final(a)),
            final(self).spec_entities() == old(self).spec_entities(),
            final(self).spec_graph_len() == old(self).spec_graph_len(),
    {
        &mut self.archetypes[id.as_usize()]
    }

    /// The graph node at `index`, if any.
    pub fn get_archetype_graph_node(&self, index: usize) -> (node: Option<&ArchetypeGraphNode>)
        ensures
            node is Some <==> index < self.spec_graph_len(),
            index < self.spec_graph_len() ==> node == Some(&self.spec_graph()[index as int]),
    {
        if index < self.graph.len() {
            Some(&self.graph[index])
        } else {
            None
        }
    }
}

impl ArchetypeId {
    pub open spec fn spec_zero() -> ArchetypeId {
        ArchetypeId::spec_from(0)
    }
}


/// Archetype `i`, made by `get_or_insert_archetype`, is found again by its
/// table and columns: asking again for the archetype of a table and column
/// set returns the same archetype and adds none.
pub proof fn lemma_archetype_found_again(archetypes: Archetypes, i: int)
    requires
        archetypes.wf(),
        1 <= i < archetypes.spec_archetypes().len(),
    ensures
        archetype_position(
            archetypes.spec_archetypes(),
            archetypes.spec_archetypes()[i].spec_table_id(),
            archetypes.spec_archetypes()[i].spec_column_ids(),
        ) == Some(i),
{
    let archs = archetypes.spec_archetypes();
    let t = archs[i].spec_table_id();
    let c = archs[i].spec_column_ids();
    assert(has_key(archs[i], t, c));
    let j = choose|j: int| 1 <= j < archs.len() && has_key(#[trigger] archs[j], t, c);
    if j != i {
        if j < i {
            assert(!has_key(archs[j], archs[i].spec_table_id(), archs[i].spec_column_ids()));
        } else {
            assert(!has_key(archs[i], archs[j].spec_table_id(), archs[j].spec_column_ids()));
        }
    }
}

} // verus!
