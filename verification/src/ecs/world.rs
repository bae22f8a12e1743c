use vstd::prelude::*;

use super::archetype::{ArchetypeId, Archetypes};
use super::component::{Component, ComponentId, Components, StoragePolicy};
use super::entity::{Entities, EntityId, EntityLocation};
use super::storage::{Storages, TableRow};
use super::storage::table::strictly_sorted;
use super::Error;
use crate::any::TypeInfo;

verus! {

/// Whether `after` is `before` with the new entity `e`: the next index,
/// placed in the empty archetype with no row, and nothing else changed.
pub open spec fn entity_created(before: World, after: World, e: EntityId) -> bool {
    &&& e.spec_index() == before.spec_last_entity_index() + 1
    &&& after.spec_last_entity_index() == e.spec_index()
    &&& !before.spec_entities()@.contains_key(e.spec_index())
    &&& after.spec_entities()@ == before.spec_entities()@.insert(
        e.spec_index(),
        EntityLocation::spec_build(ArchetypeId::spec_zero(), TableRow::spec_invalid()),
    )
    &&& after.spec_archetypes().spec_entities() == before.spec_archetypes().spec_entities().insert(
        e.spec_index(),
        ArchetypeId::spec_zero(),
    )
    &&& after.spec_archetypes().spec_archetypes() == before.spec_archetypes().spec_archetypes()
    &&& after.spec_components() == before.spec_components()
    &&& after.spec_storages() == before.spec_storages()
}

/// Everything that exists: the entities, their archetypes, the registered
/// component types and the storage of the components' values.
pub struct World {
    archetypes: Archetypes,
    components: Components,
    entities: Entities,
    storages: Storages,
    last_entity_index: usize,
}

impl World {
    pub closed spec fn spec_archetypes(&self) -> Archetypes {
        self.archetypes
    }

    pub closed spec fn spec_components(&self) -> Components {
        self.components
    }

    pub closed spec fn spec_entities(&self) -> Entities {
        self.entities
    }

    pub closed spec fn spec_storages(&self) -> Storages {
        self.storages
    }

    pub closed spec fn spec_last_entity_index(&self) -> usize {
        self.last_entity_index
    }

    /// Every id that the world holds names something that exists, and each
    /// entity's location agrees with its archetype.
    pub open spec fn wf(&self) -> bool {
        let archetypes = self.spec_archetypes();
        let components = self.spec_components();
        let tables = self.spec_storages().spec_tables();
        &&& archetypes.wf()
        &&& components.wf()
        &&& self.spec_storages().wf()
        &&& forall|i: int| 0 <= i < archetypes.spec_archetypes().len() ==> {
            let a = #[trigger] archetypes.spec_archetypes()[i];
            &&& a.spec_table_id().spec_index() < tables.spec_tables().len()
            &&& forall|k: int| 0 <= k < a.spec_component_ids().len() ==> (#[trigger] a.spec_component_ids()[k]).spec_index() < components@.len()
            &&& forall|k: int| 0 <= k < a.spec_column_ids().len() ==> (#[trigger] a.spec_column_ids()[k]).spec_index() < components@.len()
            &&& forall|x: ComponentId| #[trigger] a.spec_component_ids().contains(x) <==> (
                tables.spec_keys()[a.spec_table_id().spec_index() as int].contains(x) || a.spec_column_ids().contains(x))
            &&& strictly_sorted(a.spec_column_ids())
        }
        &&& forall|t: int| 0 <= t < tables.spec_keys().len() ==> strictly_sorted(#[trigger] tables.spec_keys()[t])
        &&& forall|t: int, k: int| 0 <= t < tables.spec_keys().len() && 0 <= k < tables.spec_keys()[t].len() ==>
            (#[trigger] tables.spec_keys()[t][k]).spec_index() < components@.len()
        &&& self.spec_entities()@.dom() == archetypes.spec_entities().dom()
        &&& forall|e: usize| #[trigger] self.spec_entities()@.contains_key(e) ==> {
            &&& self.spec_entities()@[e].spec_archetype_id() == archetypes.spec_entities()[e]
            &&& 1 <= e <= self.spec_last_entity_index()
        }
        &&& self.columns_registered()
    }

    /// Every column, of a table or sparse, belongs to a registered component
    /// and holds values of its type; and every registered type has a size
    /// below `usize::MAX`.
    pub open spec fn columns_registered(&self) -> bool {
        let comps = self.spec_components()@;
        let tables = self.spec_storages().spec_tables().spec_tables();
        let cols = self.spec_storages().spec_columns();
        &&& forall|t: int, k: int| 0 <= t < tables.len() && 0 <= k < tables[t].spec_columns().len() ==> {
            &&& (#[trigger] tables[t].spec_components()[k]).spec_index() < comps.len()
            &&& tables[t].spec_columns()[k].spec_info() == comps[tables[t].spec_components()[k].spec_index() as int].spec_type_info()
            &&& comps[tables[t].spec_components()[k].spec_index() as int].spec_storage_policy() == StoragePolicy::Dense
        }
        &&& forall|k: int| 0 <= k < cols.spec_ids().len() ==> {
            &&& (#[trigger] cols.spec_ids()[k]).spec_index() < comps.len()
            &&& cols.spec_columns()[k].spec_info() == comps[cols.spec_ids()[k].spec_index() as int].spec_type_info()
        }
        &&& forall|i: int| 0 <= i < comps.len() ==> (#[trigger] comps[i]).spec_type_info().spec_size() < usize::MAX
    }

    /// A world without entities or component types.
    pub fn new() -> (w: Self)
        ensures
            w.wf(),
            w.spec_entities()@ == Map::<usize, EntityLocation>::empty(),
            w.spec_components()@ == Seq::<super::component::ComponentInfo>::empty(),
            w.spec_archetypes().spec_archetypes().len() == 1,
            w.spec_archetypes().spec_archetypes()[0].spec_table_id().spec_index() == 0,
            w.spec_archetypes().spec_archetypes()[0].spec_column_ids().len() == 0,
            w.spec_archetypes().spec_archetypes()[0].spec_component_ids().len() == 0,
            w.spec_archetypes().spec_entities() == Map::<usize, ArchetypeId>::empty(),
            w.spec_storages().spec_tables().spec_tables().len() == 1,
            w.spec_storages().spec_tables().spec_keys() == seq![Seq::<ComponentId>::empty()],
            w.spec_storages().spec_tables().spec_tables()[0].spec_columns().len() == 0,
            w.spec_storages().spec_columns().spec_ids().len() == 0,
            w.spec_last_entity_index() == 0,
    {
        let w = World {
            archetypes: Archetypes::new(),
            components: Components::new(),
            entities: Entities::new(),
            storages: Storages::new(),
            last_entity_index: 0usize,
        };
        proof {
            assert(w.spec_entities()@.dom() =~= w.spec_archetypes().spec_entities().dom());
            let a0 = w.spec_archetypes().spec_archetypes()[0];
            assert forall|x: ComponentId| #[trigger] a0.spec_component_ids().contains(x) <==> (
                w.spec_storages().spec_tables().spec_keys()[a0.spec_table_id().spec_index() as int].contains(x) || a0.spec_column_ids().contains(x)) by {
            }
            let tables = w.spec_storages().spec_tables();
            assert forall|t: int, k: int| 0 <= t < tables.spec_keys().len() && 0 <= k < tables.spec_keys()[t].len() implies
                (#[trigger] tables.spec_keys()[t][k]).spec_index() < w.spec_components()@.len() by {
                assert(t == 0);
            }
        }
        w
    }

    pub fn archetypes(&self) -> (a: &Archetypes)
        ensures
            *a == self.spec_archetypes(),
    {
        &self.archetypes
    }

    pub fn archetypes_mut(&mut self) -> (a: &mut Archetypes)
        ensures
            *a == old(self).spec_archetypes(),
            final(self).spec_archetypes() == *final(a),
            final(self).spec_components() == old(self).spec_components(),
            final(self).spec_entities() == old(self).spec_entities(),
            final(self).spec_storages() == old(self).spec_storages(),
            final(self).spec_last_entity_index() == old(self).spec_last_entity_index(),
    {
        &mut self.archetypes
    }

    pub fn components(&self) -> (c: &Components)
        ensures
            *c == self.spec_components(),
    {
        &self.components
    }

    pub fn components_mut(&mut self) -> (c: &mut Components)
        ensures
            *c == old(self).spec_components(),
            final(self).spec_components() == *final(c),
            final(self).spec_archetypes() == old(self).spec_archetypes(),
            final(self).spec_entities() == old(self).spec_entities(),
            final(self).spec_storages() == old(self).spec_storages(),
            final(self).spec_last_entity_index() == old(self).spec_last_entity_index(),
    {
        &mut self.components
    }

    pub fn entities(&self) -> (e: &Entities)
        ensures
            *e == self.spec_entities(),
    {
        &self.entities
    }

    pub fn entities_mut(&mut self) -> (e: &mut Entities)
        ensures
            *e == old(self).spec_entities(),
            final(self).spec_entities() == *final(e),
            final(self).spec_archetypes() == old(self).spec_archetypes(),
            final(self).spec_components() == old(self).spec_components(),
            final(self).spec_storages() == old(self).spec_storages(),
            final(self).spec_last_entity_index() == old(self).spec_last_entity_index(),
    {
        &mut self.entities
    }

    pub fn storages(&self) -> (s: &Storages)
        ensures
            *s == self.spec_storages(),
    {
        &self.storages
    }

    pub fn storages_mut(&mut self) -> (s: &mut Storages)
        ensures
            *s == old(self).spec_storages(),
            final(self).spec_storages() == *final(s),
            final(self).spec_archetypes() == old(self).spec_archetypes(),
            final(self).spec_components() == old(self).spec_components(),
            final(self).spec_entities() == old(self).spec_entities(),
            final(self).spec_last_entity_index() == old(self).spec_last_entity_index(),
    {
        &mut self.storages
    }

    /// A new entity, with no component, in the empty archetype; fails with
    /// `WorldOutOfBounds` when every index has been handed out.
    pub fn create_entity(&mut self) -> (r: Result<EntityId, Error>)
        requires
            old(self).wf(),
        ensures
            final(self).wf(),
            old(self).spec_last_entity_index() == usize::MAX ==> {
                &&& r matches Err(Error::WorldOutOfBounds)
                &&& *final(self) == *old(self)
            },
            old(self).spec_last_entity_index() < usize::MAX ==> (r matches Ok(e) && entity_created(*old(self), *final(self), e)),
    {
        if self.last_entity_index == usize::MAX {
            Err(Error::WorldOutOfBounds)
        } else {
            self.last_entity_index = self.last_entity_index + 1;
            let entity = EntityId::new(self.last_entity_index);
            self.archetypes.insert_empty_entity(entity);
            let location = EntityLocation::new(ArchetypeId::new(0usize), TableRow::invalid());
            self.entities.set_entity_location(&entity, location);
            proof {
                ArchetypeId::lemma_from(0);
                assert(self.spec_entities()@.dom() =~= self.spec_archetypes().spec_entities().dom());
                assert forall|e: usize| #[trigger] self.spec_entities()@.contains_key(e) implies {
                    &&& self.spec_entities()@[e].spec_archetype_id() == self.spec_archetypes().spec_entities()[e]
                    &&& 1 <= e <= self.spec_last_entity_index()
                } by {
                    if e != entity.spec_index() {
                        assert(old(self).spec_entities()@.contains_key(e));
                    }
                }
                assert(location == EntityLocation::spec_build(ArchetypeId::spec_zero(), TableRow::spec_invalid()));
            }
            Ok(entity)
        }
    }

    /// Registers component type `C`, unless registered, and returns its id.
    pub fn register_component<C: Component>(&mut self) -> (id: ComponentId)
        requires
            old(self).wf(),
            old(self).spec_components()@.len() < usize::MAX,
            vstd::layout::size_of::<C>() < usize::MAX,
        ensures
            final(self).wf(),
            id.spec_index() < final(self).spec_components()@.len(),
            final(self).spec_components()@.subrange(0, old(self).spec_components()@.len() as int) == old(self).spec_components()@,
            old(self).spec_components()@.len() <= final(self).spec_components()@.len() <= old(self).spec_components()@.len() + 1,
            final(self).spec_components()@.len() > old(self).spec_components()@.len() ==> {
                let added = final(self).spec_components()@[old(self).spec_components()@.len() as int];
                &&& added.spec_type_info().spec_size() as nat == vstd::layout::size_of::<C>()
                &&& added.spec_storage_policy() == C::STORAGE_POLICY
                &&& id.spec_index() == old(self).spec_components()@.len()
            },
            final(self).spec_archetypes() == old(self).spec_archetypes(),
            final(self).spec_entities() == old(self).spec_entities(),
            final(self).spec_storages() == old(self).spec_storages(),
    {
        let id = self.components.register::<C>();
        proof {
            let o = old(self).spec_components()@;
            let n = self.spec_components()@;
            assert(n.subrange(0, o.len() as int) =~= o);
            assert forall|i: int| 0 <= i < o.len() implies #[trigger] n[i] == o[i] by {
                assert(n.subrange(0, o.len() as int)[i] == o[i]);
            }
            assert forall|i: int| 0 <= i < n.len() implies (#[trigger] n[i]).spec_type_info().spec_size() < usize::MAX by {
                if i < o.len() {
                    assert(n[i] == o[i]);
                }
            }
            let tables = self.spec_storages().spec_tables().spec_tables();
            let cols = self.spec_storages().spec_columns();
            assert forall|t: int, k: int| 0 <= t < tables.len() && 0 <= k < tables[t].spec_columns().len() implies {
                &&& (#[trigger] tables[t].spec_components()[k]).spec_index() < n.len()
                &&& tables[t].spec_columns()[k].spec_info() == n[tables[t].spec_components()[k].spec_index() as int].spec_type_info()
                &&& n[tables[t].spec_components()[k].spec_index() as int].spec_storage_policy() == StoragePolicy::Dense
            } by {
                assert(n[tables[t].spec_components()[k].spec_index() as int] == o[tables[t].spec_components()[k].spec_index() as int]);
            }
            assert forall|k: int| 0 <= k < cols.spec_ids().len() implies {
                &&& (#[trigger] cols.spec_ids()[k]).spec_index() < n.len()
                &&& cols.spec_columns()[k].spec_info() == n[cols.spec_ids()[k].spec_index() as int].spec_type_info()
            } by {
                assert(n[cols.spec_ids()[k].spec_index() as int] == o[cols.spec_ids()[k].spec_index() as int]);
            }
        }
        id
    }
}


/// The id that the next entity gets is held by no entity of the world, and
/// is above every id handed out so far.
pub proof fn lemma_next_entity_fresh(world: World)
    requires
        world.wf(),
        world.spec_last_entity_index() < usize::MAX,
    ensures
        !world.spec_entities()@.contains_key((world.spec_last_entity_index() + 1) as usize),
        forall|e: usize| #[trigger] world.spec_entities()@.contains_key(e) ==> e < world.spec_last_entity_index() + 1,
{
}

/// The entities that one world hands out, from its creation on, are
/// numbered 1, 2, 3, ... in order, so no two are equal, and each starts in
/// the empty archetype; once `usize::MAX` ids are out, `create_entity` fails
/// with `WorldOutOfBounds` and changes nothing.
pub proof fn lemma_created_ids(worlds: Seq<World>, ids: Seq<EntityId>)
    requires
        worlds.len() == ids.len() + 1,
        worlds[0].spec_last_entity_index() == 0,
        forall|k: int| 0 <= k < ids.len() ==> entity_created(#[trigger] worlds[k], worlds[k + 1], ids[k]),
    ensures
        forall|k: int| 0 <= k < ids.len() ==> (#[trigger] ids[k]).spec_index() == k + 1,
        forall|j: int, k: int| 0 <= j < k < ids.len() ==> (#[trigger] ids[j]).spec_index() < (#[trigger] ids[k]).spec_index(),
        forall|k: int| 0 <= k < ids.len() ==> (#[trigger] worlds[k + 1]).spec_archetypes().spec_entities()[ids[k].spec_index()]
            == ArchetypeId::spec_zero(),
        worlds[ids.len() as int].spec_last_entity_index() == ids.len(),
    decreases ids.len(),
{
    if ids.len() > 0 {
        let n = ids.len() - 1;
        let w2 = worlds.drop_last();
        let i2 = ids.drop_last();
        assert forall|k: int| 0 <= k < i2.len() implies entity_created(#[trigger] w2[k], w2[k + 1], i2[k]) by {
            assert(entity_created(worlds[k], worlds[k + 1], ids[k]));
        }
        lemma_created_ids(w2, i2);
        assert(entity_created(worlds[n], worlds[n + 1], ids[n]));
        assert forall|k: int| 0 <= k < ids.len() implies (#[trigger] ids[k]).spec_index() == k + 1 by {
            if k < n {
                assert(i2[k] == ids[k]);
            }
        }
        assert forall|k: int| 0 <= k < ids.len() implies (#[trigger] worlds[k + 1]).spec_archetypes().spec_entities()[ids[k].spec_index()]
            == ArchetypeId::spec_zero() by {
            assert(entity_created(worlds[k], worlds[k + 1], ids[k]));
        }
    }
}

/// Two tables of a world whose keys hold the same components are the same
/// table: so the table a bundle insertion writes to is the one a query for
/// those dense components reads.
pub proof fn lemma_same_components_same_table(world: World, t1: int, t2: int)
    requires
        world.wf(),
        0 <= t1 < world.spec_storages().spec_tables().spec_keys().len(),
        0 <= t2 < world.spec_storages().spec_tables().spec_keys().len(),
        forall|x: ComponentId| #[trigger] world.spec_storages().spec_tables().spec_keys()[t1].contains(x)
            <==> world.spec_storages().spec_tables().spec_keys()[t2].contains(x),
    ensures
        t1 == t2,
{
    let keys = world.spec_storages().spec_tables().spec_keys();
    assert(strictly_sorted(keys[t1]));
    assert(strictly_sorted(keys[t2]));
    super::archetype::archetype::lemma_sorted_same_members(keys[t1], keys[t2]);
    if t1 < t2 {
        assert(keys[t1] != keys[t2]);
    } else if t2 < t1 {
        assert(keys[t2] != keys[t1]);
    }
}

} // verus!
