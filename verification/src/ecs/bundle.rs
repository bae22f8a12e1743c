use vstd::prelude::*;

use super::archetype::ArchetypeId;
use super::archetype::Archetype;
use super::entity::{EntityId, EntityLocation};
use super::storage::TableRow;
use super::archetype::archetypes::has_key;
use super::component::{contains_id, ComponentId, StoragePolicy};
use super::storage::table::{sorted_union, strictly_sorted};
use super::storage::TableId;
use super::storage::Column;
use super::world::World;

verus! {

/// Whether adding the components `bundle` to an archetype with components
/// `components` adds `x`, with storage policy `policy`, in `world`.
pub open spec fn is_new_with_policy(
    world: World,
    components: Seq<ComponentId>,
    bundle: Seq<ComponentId>,
    x: ComponentId,
    policy: StoragePolicy,
) -> bool {
    &&& bundle.contains(x)
    &&& !components.contains(x)
    &&& world.spec_components()@[x.spec_index() as int].spec_storage_policy() == policy
}

/// Whether every id of `bundle` is registered in `world`.
pub open spec fn registered(world: World, bundle: Seq<ComponentId>) -> bool {
    forall|k: int| 0 <= k < bundle.len() ==> (#[trigger] bundle[k]).spec_index() < world.spec_components()@.len()
}

/// The archetype that an entity of archetype `archetype_id` has once the
/// components `component_ids` are added: `archetype_id` itself when it has
/// them all, otherwise the archetype whose table adds the new dense
/// components and whose columns add the new sparse ones, created if missing.
pub fn add_bundle_to_archetype(world: &mut World, archetype_id: ArchetypeId, component_ids: &[ComponentId]) -> (r: ArchetypeId)
    requires
        old(world).wf(),
        archetype_id.spec_index() < old(world).spec_archetypes().spec_archetypes().len(),
        registered(*old(world), component_ids@),
        old(world).spec_storages().spec_tables().spec_tables().len() < usize::MAX,
        old(world).spec_archetypes().spec_archetypes().len() < usize::MAX,
    ensures
        final(world).wf(),
        r.spec_index() < final(world).spec_archetypes().spec_archetypes().len(),
        r == archetype_id || r.spec_index() >= 1,
        ({
            let a = old(world).spec_archetypes().spec_archetypes()[archetype_id.spec_index() as int];
            let n = final(world).spec_archetypes().spec_archetypes()[r.spec_index() as int];
            let old_keys = old(world).spec_storages().spec_tables().spec_keys();
            let new_keys = final(world).spec_storages().spec_tables().spec_keys();
            &&& (forall|k: int| 0 <= k < component_ids@.len() ==> a.spec_component_ids().contains(#[trigger] component_ids@[k]))
                ==> (r == archetype_id && *final(world) == *old(world))
            &&& forall|x: ComponentId| #[trigger] n.spec_component_ids().contains(x) <==> (
                a.spec_component_ids().contains(x) || component_ids@.contains(x))
            &&& forall|x: ComponentId| #[trigger] new_keys[n.spec_table_id().spec_index() as int].contains(x) <==> (
                old_keys[a.spec_table_id().spec_index() as int].contains(x)
                    || is_new_with_policy(*old(world), a.spec_component_ids(), component_ids@, x, StoragePolicy::Dense))
            &&& forall|x: ComponentId| #[trigger] n.spec_column_ids().contains(x) <==> (
                a.spec_column_ids().contains(x)
                    || is_new_with_policy(*old(world), a.spec_component_ids(), component_ids@, x, StoragePolicy::Sparse))
            &&& strictly_sorted(new_keys[n.spec_table_id().spec_index() as int])
            &&& strictly_sorted(n.spec_column_ids())
        }),
        final(world).spec_components() == old(world).spec_components(),
        final(world).spec_entities() == old(world).spec_entities(),
        final(world).spec_archetypes().spec_entities() == old(world).spec_archetypes().spec_entities(),
        final(world).spec_last_entity_index() == old(world).spec_last_entity_index(),
        final(world).spec_storages().spec_columns() == old(world).spec_storages().spec_columns(),
        old(world).spec_archetypes().spec_archetypes().len() <= final(world).spec_archetypes().spec_archetypes().len(),
        final(world).spec_archetypes().spec_archetypes().subrange(0, old(world).spec_archetypes().spec_archetypes().len() as int)
            == old(world).spec_archetypes().spec_archetypes(),
        old(world).spec_storages().spec_tables().spec_tables().len() <= final(world).spec_storages().spec_tables().spec_tables().len(),
        final(world).spec_storages().spec_tables().spec_tables().subrange(0, old(world).spec_storages().spec_tables().spec_tables().len() as int)
            == old(world).spec_storages().spec_tables().spec_tables(),
        final(world).spec_storages().spec_tables().spec_keys().subrange(0, old(world).spec_storages().spec_tables().spec_keys().len() as int)
            == old(world).spec_storages().spec_tables().spec_keys(),
        forall|t: int| old(world).spec_storages().spec_tables().spec_tables().len() <= t < final(world).spec_storages().spec_tables().spec_tables().len()
            ==> (#[trigger] final(world).spec_storages().spec_tables().spec_tables()[t]).spec_columns().len() == 0,
{
    let ghost w0 = *world;
    let ghost a = w0.spec_archetypes().spec_archetypes()[archetype_id.spec_index() as int];
    let ghost dense = |x: ComponentId| is_new_with_policy(w0, a.spec_component_ids(), component_ids@, x, StoragePolicy::Dense);
    let ghost sparse = |x: ComponentId| is_new_with_policy(w0, a.spec_component_ids(), component_ids@, x, StoragePolicy::Sparse);
    let archetype = world.archetypes().get_archetype(archetype_id);
    let old_table_id = archetype.table_id();
    let old_columns = vstd::slice::slice_to_vec(archetype.column_ids());
    let old_components = vstd::slice::slice_to_vec(archetype.component_ids());
    let mut new_dense: Vec<ComponentId> = Vec::new();
    let mut new_sparse: Vec<ComponentId> = Vec::new();
    let mut i: usize = 0;
    while i < component_ids.len()
        invariant
            0 <= i <= component_ids@.len(),
            *world == w0,
            w0.wf(),
            registered(w0, component_ids@),
            old_components@ == a.spec_component_ids(),
            forall|x: ComponentId| #[trigger] new_dense@.contains(x) <==> (component_ids@.subrange(0, i as int).contains(x)
                && !a.spec_component_ids().contains(x) && w0.spec_components()@[x.spec_index() as int].spec_storage_policy() == StoragePolicy::Dense),
            forall|x: ComponentId| #[trigger] new_sparse@.contains(x) <==> (component_ids@.subrange(0, i as int).contains(x)
                && !a.spec_component_ids().contains(x) && w0.spec_components()@[x.spec_index() as int].spec_storage_policy() == StoragePolicy::Sparse),
        decreases component_ids@.len() - i,
    {
        let id = component_ids[i];
        proof {
            assert forall|x: ComponentId| #[trigger] component_ids@.subrange(0, i + 1).contains(x) <==> (
                component_ids@.subrange(0, i as int).contains(x) || x == id) by {
                if component_ids@.subrange(0, i + 1).contains(x) {
                    let k = component_ids@.subrange(0, i + 1).index_of(x);
                    if k < i {
                        assert(component_ids@.subrange(0, i as int)[k] == x);
                    }
                }
                if component_ids@.subrange(0, i as int).contains(x) {
                    let k = component_ids@.subrange(0, i as int).index_of(x);
                    assert(component_ids@.subrange(0, i + 1)[k] == x);
                }
                if x == id {
                    assert(component_ids@.subrange(0, i + 1)[i as int] == x);
                }
            }
        }
        let ghost nd0 = new_dense@;
        let ghost ns0 = new_sparse@;
        let present = contains_id(old_components.as_slice(), id);
        if !present {
            let policy = *world.components().get_component_info(id).storage_policy();
            match policy {
                StoragePolicy::Dense => new_dense.push(id),
                StoragePolicy::Sparse => new_sparse.push(id),
            }
        }
        proof {
            let pol = w0.spec_components()@[id.spec_index() as int].spec_storage_policy();
            assert(new_dense@ == if !present && pol == StoragePolicy::Dense { nd0.push(id) } else { nd0 });
            assert(new_sparse@ == if !present && pol == StoragePolicy::Sparse { ns0.push(id) } else { ns0 });
            assert forall|x: ComponentId| #[trigger] new_dense@.contains(x) <==> (nd0.contains(x) || (x == id && !present && pol == StoragePolicy::Dense)) by {
                if !present && pol == StoragePolicy::Dense {
                    if nd0.push(id).contains(x) && x != id {
                        let k = nd0.push(id).index_of(x);
                        assert(nd0[k] == x);
                    }
                    if nd0.contains(x) {
                        let k = nd0.index_of(x);
                        assert(nd0.push(id)[k] == x);
                    }
                    assert(nd0.push(id)[nd0.len() as int] == id);
                }
            }
            assert forall|x: ComponentId| #[trigger] new_sparse@.contains(x) <==> (ns0.contains(x) || (x == id && !present && pol == StoragePolicy::Sparse)) by {
                if !present && pol == StoragePolicy::Sparse {
                    if ns0.push(id).contains(x) && x != id {
                        let k = ns0.push(id).index_of(x);
                        assert(ns0[k] == x);
                    }
                    if ns0.contains(x) {
                        let k = ns0.index_of(x);
                        assert(ns0.push(id)[k] == x);
                    }
                    assert(ns0.push(id)[ns0.len() as int] == id);
                }
            }
        }
        i = i + 1;
    }
    proof {
        assert(component_ids@.subrange(0, i as int) =~= component_ids@);
    }
    if new_dense.len() == 0 && new_sparse.len() == 0 {
        proof {
            assert forall|x: ComponentId| #[trigger] a.spec_component_ids().contains(x) <==> (
                a.spec_component_ids().contains(x) || component_ids@.contains(x)) by {
                if component_ids@.contains(x) && !a.spec_component_ids().contains(x) {
                    match w0.spec_components()@[x.spec_index() as int].spec_storage_policy() {
                        StoragePolicy::Dense => assert(new_dense@.contains(x)),
                        StoragePolicy::Sparse => assert(new_sparse@.contains(x)),
                    }
                }
            }
            assert forall|x: ComponentId| !#[trigger] dense(x) && !sparse(x) by {
                if dense(x) {
                    assert(new_dense@.contains(x));
                }
                if sparse(x) {
                    assert(new_sparse@.contains(x));
                }
            }
        }
        return archetype_id;
    }
    let ghost tables0 = w0.spec_storages().spec_tables();
    let table_id = if new_dense.len() == 0 {
        old_table_id
    } else {
        let key = sorted_union(new_dense.as_slice(), world.storages().tables().key_of(old_table_id));
        world.storages_mut().tables_mut().get_or_insert_table(key.as_slice())
    };
    let ghost w1 = *world;
    proof {
        let keys1 = w1.spec_storages().spec_tables().spec_keys();
        let keys0 = w0.spec_storages().spec_tables().spec_keys();
        assert(strictly_sorted(keys1[table_id.spec_index() as int]));
        assert forall|t: int| 0 <= t < keys1.len() implies strictly_sorted(#[trigger] keys1[t]) by {
            if t < keys0.len() {
                assert(keys1.subrange(0, keys0.len() as int)[t] == keys0[t]);
            } else {
                assert(keys1.len() == keys0.len() + 1);
                assert(t == table_id.spec_index());
            }
        }
        assert(strictly_sorted(a.spec_column_ids()));
    }
    let column_ids = if new_sparse.len() == 0 {
        old_columns
    } else {
        sorted_union(new_sparse.as_slice(), old_columns.as_slice())
    };
    let components = sorted_union(old_components.as_slice(), component_ids);
    let ghost cids = column_ids@;
    proof {
        assert(strictly_sorted(cids));
    }
    let ghost comps = components@;
    let r = world.archetypes_mut().get_or_insert_archetype(table_id, column_ids, components);
    proof {
        let keys1 = w1.spec_storages().spec_tables().spec_keys();
        assert forall|x: ComponentId| #[trigger] keys1[table_id.spec_index() as int].contains(x) <==> (
            tables0.spec_keys()[a.spec_table_id().spec_index() as int].contains(x) || dense(x)) by {
            if new_dense.len() == 0 {
                if dense(x) {
                    assert(new_dense@.contains(x));
                }
            }
        }
        assert forall|x: ComponentId| #[trigger] cids.contains(x) <==> (a.spec_column_ids().contains(x) || sparse(x)) by {
            if new_sparse.len() == 0 {
                if sparse(x) {
                    assert(new_sparse@.contains(x));
                }
            }
        }
        let w2 = *world;
        let archs0 = w0.spec_archetypes().spec_archetypes();
        let archs2 = w2.spec_archetypes().spec_archetypes();
        let keys0 = tables0.spec_keys();
        let keys2 = w2.spec_storages().spec_tables().spec_keys();
        assert(keys2 == keys1);
        assert(keys1.subrange(0, keys0.len() as int) == keys0);
        assert(archs2.subrange(0, archs0.len() as int) == archs0);
        assert(w0.wf());
        // what the bundle adds is exactly the new dense and sparse ids
        assert forall|x: ComponentId| (component_ids@.contains(x) && !a.spec_component_ids().contains(x))
            <==> #[trigger] dense(x) || sparse(x) by {
            if component_ids@.contains(x) {
                let k = component_ids@.index_of(x);
                assert(component_ids@[k].spec_index() < w0.spec_components()@.len());
            }
        }
        // the archetype found or made has the union of the components
        let n = archs2[r.spec_index() as int];
        assert(has_key(n, table_id, cids));
        assert forall|x: ComponentId| #[trigger] n.spec_component_ids().contains(x) <==> (
            a.spec_component_ids().contains(x) || component_ids@.contains(x)) by {
            if r.spec_index() < archs0.len() {
                let e = archs0[r.spec_index() as int];
                assert(e == n);
                assert(keys0[e.spec_table_id().spec_index() as int] == keys1[e.spec_table_id().spec_index() as int]);
            } else {
                assert(n.spec_component_ids() == comps);
            }
        }
        // no component is new when the archetype has them all
        if forall|k: int| 0 <= k < component_ids@.len() ==> a.spec_component_ids().contains(#[trigger] component_ids@[k]) {
            assert(new_dense@.len() > 0 || new_sparse@.len() > 0);
            if new_dense@.len() > 0 {
                let x = new_dense@[0];
                assert(new_dense@.contains(x));
                let k = component_ids@.index_of(x);
                assert(component_ids@[k] == x);
            } else {
                let x = new_sparse@[0];
                assert(new_sparse@.contains(x));
                let k = component_ids@.index_of(x);
                assert(component_ids@[k] == x);
            }
        }
        // the world stays well formed
        assert forall|t: int| 0 <= t < keys2.len() implies strictly_sorted(#[trigger] keys2[t]) by {
            assert(keys2[t] == keys1[t]);
        }
        assert forall|i2: int| 0 <= i2 < archs2.len() implies strictly_sorted((#[trigger] archs2[i2]).spec_column_ids()) by {
            if i2 < archs0.len() {
                assert(archs2.subrange(0, archs0.len() as int)[i2] == archs0[i2]);
            } else {
                assert(i2 == r.spec_index());
                assert(archs2[i2].spec_column_ids() == cids);
            }
        }
        let tables2 = w2.spec_storages().spec_tables();
        let comps_n = w2.spec_components()@.len();
        assert forall|t: int, k: int| 0 <= t < keys2.len() && 0 <= k < keys2[t].len() implies
            (#[trigger] keys2[t][k]).spec_index() < comps_n by {
            if t < keys0.len() {
                assert(keys2[t] == keys0[t]);
            } else {
                let y = keys2[t][k];
                assert(keys2[t].contains(y));
                assert(t == table_id.spec_index());
                if keys0[a.spec_table_id().spec_index() as int].contains(y) {
                    let q = keys0[a.spec_table_id().spec_index() as int].index_of(y);
                } else {
                    assert(dense(y));
                    let q = component_ids@.index_of(y);
                    assert(component_ids@[q] == y);
                }
            }
        }
        assert forall|i2: int| 0 <= i2 < archs2.len() implies {
            let b = #[trigger] archs2[i2];
            &&& b.spec_table_id().spec_index() < tables2.spec_tables().len()
            &&& forall|k: int| 0 <= k < b.spec_component_ids().len() ==> (#[trigger] b.spec_component_ids()[k]).spec_index() < comps_n
            &&& forall|k: int| 0 <= k < b.spec_column_ids().len() ==> (#[trigger] b.spec_column_ids()[k]).spec_index() < comps_n
            &&& forall|x: ComponentId| #[trigger] b.spec_component_ids().contains(x) <==> (
                keys2[b.spec_table_id().spec_index() as int].contains(x) || b.spec_column_ids().contains(x))
        } by {
            let b = archs2[i2];
            if i2 < archs0.len() {
                assert(b == archs0[i2]);
                assert(keys2[b.spec_table_id().spec_index() as int] == keys0[b.spec_table_id().spec_index() as int]);
            } else {
                assert(i2 == r.spec_index());
                assert forall|k: int| 0 <= k < b.spec_component_ids().len() implies (#[trigger] b.spec_component_ids()[k]).spec_index() < comps_n by {
                    let y = b.spec_component_ids()[k];
                    assert(b.spec_component_ids().contains(y));
                    if a.spec_component_ids().contains(y) {
                        let q = a.spec_component_ids().index_of(y);
                    } else {
                        let q = component_ids@.index_of(y);
                        assert(component_ids@[q] == y);
                    }
                }
                assert forall|k: int| 0 <= k < b.spec_column_ids().len() implies (#[trigger] b.spec_column_ids()[k]).spec_index() < comps_n by {
                    let y = b.spec_column_ids()[k];
                    assert(cids.contains(y));
                    if a.spec_column_ids().contains(y) {
                        let q = a.spec_column_ids().index_of(y);
                    } else {
                        let q = component_ids@.index_of(y);
                        assert(component_ids@[q] == y);
                    }
                }
            }
        }
        assert(w2.spec_entities()@.dom() == w2.spec_archetypes().spec_entities().dom());
        let tb0 = tables0.spec_tables();
        let tb2 = tables2.spec_tables();
        assert forall|t: int, k: int| 0 <= t < tb2.len() && 0 <= k < tb2[t].spec_columns().len() implies {
            &&& (#[trigger] tb2[t].spec_components()[k]).spec_index() < comps_n
            &&& tb2[t].spec_columns()[k].spec_info() == w2.spec_components()@[tb2[t].spec_components()[k].spec_index() as int].spec_type_info()
            &&& w2.spec_components()@[tb2[t].spec_components()[k].spec_index() as int].spec_storage_policy() == StoragePolicy::Dense
        } by {
            if t < tb0.len() {
                assert(tb2.subrange(0, tb0.len() as int)[t] == tb0[t]);
            } else {
                assert(tb2[t].spec_columns().len() == 0);
            }
        }
    }
    r
}

/// How adding a bundle changes an entity's archetype.
#[derive(Clone, Copy, Debug)]
pub enum BundleInsertionResult {
    SameArchetype,
    NewArchetypeSameTable { new_archetype_id: ArchetypeId },
    NewArchetypeNewTable { new_archetype_id: ArchetypeId, new_table_id: TableId },
}

/// Whether archetype `n` of `after` is the one that adding `bundle` to
/// archetype `a` of `before` leads to: its table is keyed by the sorted ids
/// of `a`'s table and the bundle's new dense components, its columns are the
/// sorted ids of `a`'s columns and the bundle's new sparse components, and
/// it holds `a`'s components and the bundle's.
pub open spec fn extends_archetype(before: World, after: World, a: Archetype, bundle: Seq<ComponentId>, n: Archetype) -> bool {
    let old_keys = before.spec_storages().spec_tables().spec_keys();
    let new_keys = after.spec_storages().spec_tables().spec_keys();
    &&& forall|x: ComponentId| #[trigger] new_keys[n.spec_table_id().spec_index() as int].contains(x) <==> (
        old_keys[a.spec_table_id().spec_index() as int].contains(x)
            || is_new_with_policy(before, a.spec_component_ids(), bundle, x, StoragePolicy::Dense))
    &&& strictly_sorted(new_keys[n.spec_table_id().spec_index() as int])
    &&& forall|x: ComponentId| #[trigger] n.spec_column_ids().contains(x) <==> (
        a.spec_column_ids().contains(x)
            || is_new_with_policy(before, a.spec_component_ids(), bundle, x, StoragePolicy::Sparse))
    &&& strictly_sorted(n.spec_column_ids())
    &&& holds_union(n, a, bundle)
}

/// Adds one bundle of components to entities of one archetype.
pub struct BundleInserter {
    archetype_id: ArchetypeId,
    table_id: TableId,
    result: BundleInsertionResult,
}

/// Whether archetype `n` of `world` holds the components of `a` and those of
/// `bundle`, and nothing else.
pub open spec fn holds_union(n: super::archetype::Archetype, a: super::archetype::Archetype, bundle: Seq<ComponentId>) -> bool {
    forall|x: ComponentId| #[trigger] n.spec_component_ids().contains(x) <==> (
        a.spec_component_ids().contains(x) || bundle.contains(x))
}

impl BundleInserter {
    pub closed spec fn spec_archetype_id(&self) -> ArchetypeId {
        self.archetype_id
    }

    pub closed spec fn spec_table_id(&self) -> TableId {
        self.table_id
    }

    pub closed spec fn spec_result(&self) -> BundleInsertionResult {
        self.result
    }

    /// Prepares adding the components `component_ids` to entities of
    /// archetype `archetype_id`, finding or creating the archetype they
    /// move to and telling whether its table differs.
    pub fn new(world: &mut World, archetype_id: ArchetypeId, component_ids: &[ComponentId]) -> (b: Self)
        requires
            old(world).wf(),
            archetype_id.spec_index() < old(world).spec_archetypes().spec_archetypes().len(),
            registered(*old(world), component_ids@),
            old(world).spec_storages().spec_tables().spec_tables().len() < usize::MAX,
            old(world).spec_archetypes().spec_archetypes().len() < usize::MAX,
        ensures
            final(world).wf(),
            b.spec_archetype_id() == archetype_id,
            ({
                let archs = final(world).spec_archetypes().spec_archetypes();
                let a = old(world).spec_archetypes().spec_archetypes()[archetype_id.spec_index() as int];
                &&& b.spec_table_id() == a.spec_table_id()
                &&& match b.spec_result() {
                    BundleInsertionResult::SameArchetype => {
                        &&& forall|k: int| 0 <= k < component_ids@.len() ==> a.spec_component_ids().contains(#[trigger] component_ids@[k])
                        &&& *final(world) == *old(world)
                    },
                    BundleInsertionResult::NewArchetypeSameTable { new_archetype_id } => {
                        &&& 1 <= new_archetype_id.spec_index() < archs.len()
                        &&& new_archetype_id != archetype_id
                        &&& extends_archetype(*old(world), *final(world), a, component_ids@, archs[new_archetype_id.spec_index() as int])
                        &&& holds_union(archs[new_archetype_id.spec_index() as int], a, component_ids@)
                        &&& archs[new_archetype_id.spec_index() as int].spec_table_id() == a.spec_table_id()
                    },
                    BundleInsertionResult::NewArchetypeNewTable { new_archetype_id, new_table_id } => {
                        &&& 1 <= new_archetype_id.spec_index() < archs.len()
                        &&& new_archetype_id != archetype_id
                        &&& extends_archetype(*old(world), *final(world), a, component_ids@, archs[new_archetype_id.spec_index() as int])
                        &&& holds_union(archs[new_archetype_id.spec_index() as int], a, component_ids@)
                        &&& archs[new_archetype_id.spec_index() as int].spec_table_id() == new_table_id
                        &&& new_table_id != a.spec_table_id()
                    },
                }
            }),
            final(world).spec_components() == old(world).spec_components(),
            final(world).spec_entities() == old(world).spec_entities(),
            final(world).spec_archetypes().spec_entities() == old(world).spec_archetypes().spec_entities(),
            final(world).spec_last_entity_index() == old(world).spec_last_entity_index(),
            final(world).spec_storages().spec_columns() == old(world).spec_storages().spec_columns(),
            old(world).spec_archetypes().spec_archetypes().len() <= final(world).spec_archetypes().spec_archetypes().len(),
            final(world).spec_archetypes().spec_archetypes().subrange(0, old(world).spec_archetypes().spec_archetypes().len() as int)
                == old(world).spec_archetypes().spec_archetypes(),
            b.prepared_for(*final(world), component_ids@),
            (forall|k: int| 0 <= k < component_ids@.len() ==> old(world).spec_archetypes().spec_archetypes()[archetype_id.spec_index() as int]
                .spec_component_ids().contains(#[trigger] component_ids@[k])) ==> b.spec_result() is SameArchetype,
            old(world).spec_storages().spec_tables().spec_tables().len() <= final(world).spec_storages().spec_tables().spec_tables().len(),
            final(world).spec_storages().spec_tables().spec_tables().subrange(0, old(world).spec_storages().spec_tables().spec_tables().len() as int)
                == old(world).spec_storages().spec_tables().spec_tables(),
            forall|t: int| old(world).spec_storages().spec_tables().spec_tables().len() <= t < final(world).spec_storages().spec_tables().spec_tables().len()
                ==> (#[trigger] final(world).spec_storages().spec_tables().spec_tables()[t]).spec_columns().len() == 0,
    {
        let ghost a = world.spec_archetypes().spec_archetypes()[archetype_id.spec_index() as int];
        let ghost n0 = world.spec_archetypes().spec_archetypes().len();
        let new_archetype_id = add_bundle_to_archetype(world, archetype_id, component_ids);
        let table_id = world.archetypes().get_archetype(archetype_id).table_id();
        proof {
            broadcast use super::archetype::ArchetypeId::lemma_index_determines;
            assert(world.spec_archetypes().spec_archetypes().subrange(0, n0 as int)[archetype_id.spec_index() as int] == a);
            assert(world.spec_archetypes().spec_archetypes()[archetype_id.spec_index() as int] == a);
        }
        if new_archetype_id.as_usize() == archetype_id.as_usize() {
            proof {
                broadcast use super::archetype::ArchetypeId::lemma_index_determines;
                let archs = world.spec_archetypes().spec_archetypes();
                assert(archs[new_archetype_id.spec_index() as int] == a);
                assert forall|k: int| 0 <= k < component_ids@.len() implies a.spec_component_ids().contains(#[trigger] component_ids@[k]) by {
                    assert(component_ids@.contains(component_ids@[k]));
                }
            }
            BundleInserter { archetype_id, table_id, result: BundleInsertionResult::SameArchetype }
        } else {
            let new_table_id = world.archetypes().get_archetype(new_archetype_id).table_id();
            if new_table_id.as_usize() == table_id.as_usize() {
                proof {
                    super::storage::TableId::lemma_index_determines(new_table_id, table_id);
                }
                BundleInserter {
                    archetype_id,
                    table_id,
                    result: BundleInsertionResult::NewArchetypeSameTable { new_archetype_id },
                }
            } else {
                BundleInserter {
                    archetype_id,
                    table_id,
                    result: BundleInsertionResult::NewArchetypeNewTable { new_archetype_id, new_table_id },
                }
            }
        }
    }
}

/// The value that `entity` has for component `id` in table `table_id` (a
/// dense component) or in the sparse column of `id` (a sparse one), if any.
pub open spec fn stored_value(world: World, table_id: TableId, entity: EntityId, id: ComponentId) -> Option<Seq<u8>> {
    if world.spec_components()@[id.spec_index() as int].spec_storage_policy() == StoragePolicy::Dense {
        let table = world.spec_storages().spec_tables().spec_tables()[table_id.spec_index() as int];
        if table.spec_components().contains(id) && table.column_of(id).spec_map().contains_key(entity) {
            Some(table.column_of(id).spec_map()[entity])
        } else {
            None
        }
    } else {
        let cols = world.spec_storages().spec_columns();
        if cols.spec_ids().contains(id) && cols.column_of(id).spec_map().contains_key(entity) {
            Some(cols.column_of(id).spec_map()[entity])
        } else {
            None
        }
    }
}

/// The value that `entity` has for component `id`: in the table of its
/// archetype for a dense component, in the sparse column otherwise.
pub open spec fn component_value(world: World, entity: EntityId, id: ComponentId) -> Option<Seq<u8>> {
    let a = world.spec_archetypes().spec_entities()[entity.spec_index()];
    let table_id = world.spec_archetypes().spec_archetypes()[a.spec_index() as int].spec_table_id();
    stored_value(world, table_id, entity, id)
}

/// Whether every column of `world` can take one more value or already
/// holds one of `entity`.
pub open spec fn room_for(world: World, entity: EntityId) -> bool {
    let tables = world.spec_storages().spec_tables().spec_tables();
    let cols = world.spec_storages().spec_columns();
    &&& forall|t: int, k: int| 0 <= t < tables.len() && 0 <= k < tables[t].spec_columns().len() ==>
        (#[trigger] tables[t].spec_columns()[k]).has_room() || tables[t].spec_columns()[k].spec_entities().contains(entity)
    &&& forall|k: int| 0 <= k < cols.spec_columns().len() ==>
        (#[trigger] cols.spec_columns()[k]).has_room() || cols.spec_columns()[k].spec_entities().contains(entity)
}

/// Whether every entity but `entity` has in `after` the values it had in
/// `before`, in every table of `before`.
pub open spec fn others_kept(after: World, before: World, entity: EntityId) -> bool {
    forall|t: TableId, e: EntityId, x: ComponentId|
        #![trigger stored_value(after, t, e, x)]
        #![trigger stored_value(before, t, e, x)]
        e != entity && t.spec_index() < before.spec_storages().spec_tables().spec_tables().len()
            ==> stored_value(after, t, e, x) == stored_value(before, t, e, x)
}

/// Gives `entity` the value `data` for component `id`: in table
/// `table_id` if the component is dense, in its sparse column otherwise.
fn write_one(world: &mut World, entity: EntityId, table_id: TableId, id: ComponentId, data: &[u8])
    requires
        old(world).wf(),
        room_for(*old(world), entity),
        table_id.spec_index() < old(world).spec_storages().spec_tables().spec_tables().len(),
        id.spec_index() < old(world).spec_components()@.len(),
        data@.len() == old(world).spec_components()@[id.spec_index() as int].spec_type_info().spec_size(),
    ensures
        final(world).wf(),
        room_for(*final(world), entity),
        stored_value(*final(world), table_id, entity, id) == Some(data@),
        forall|t: TableId, x: ComponentId| x != id && t.spec_index() < old(world).spec_storages().spec_tables().spec_tables().len()
            ==> #[trigger] stored_value(*final(world), t, entity, x) == stored_value(*old(world), t, entity, x),
        old(world).spec_components()@[id.spec_index() as int].spec_storage_policy() == StoragePolicy::Dense ==>
            forall|t: TableId| t != table_id && t.spec_index() < old(world).spec_storages().spec_tables().spec_tables().len()
                ==> #[trigger] stored_value(*final(world), t, entity, id) == stored_value(*old(world), t, entity, id),
        final(world).spec_components() == old(world).spec_components(),
        final(world).spec_archetypes() == old(world).spec_archetypes(),
        final(world).spec_entities() == old(world).spec_entities(),
        final(world).spec_last_entity_index() == old(world).spec_last_entity_index(),
        final(world).spec_storages().spec_tables().spec_keys() == old(world).spec_storages().spec_tables().spec_keys(),
        final(world).spec_storages().spec_tables().spec_tables().len() == old(world).spec_storages().spec_tables().spec_tables().len(),
        forall|t: int| 0 <= t < old(world).spec_storages().spec_tables().spec_tables().len() && t != table_id.spec_index() ==>
            #[trigger] final(world).spec_storages().spec_tables().spec_tables()[t] == old(world).spec_storages().spec_tables().spec_tables()[t],
        others_kept(*final(world), *old(world), entity),
{
    let info = *world.components().get_component_info(id);
    let ghost w0 = *world;
    proof {
        ComponentId::lemma_index_determines(info.spec_id(), id);
        assert(info.spec_id() == id);
        assert(w0.spec_components()@[id.spec_index() as int].spec_type_info().spec_size() < usize::MAX);
    }
    match *info.storage_policy() {
        StoragePolicy::Dense => {
            let ghost t0 = w0.spec_storages().spec_tables().spec_tables()[table_id.spec_index() as int];
            proof {
                if t0.spec_components().contains(id) {
                    let k = t0.spec_components().index_of(id);
                    assert(t0.spec_components()[k] == id);
                    assert(t0.spec_columns()[k].spec_info() == info.spec_type_info());
                    assert(t0.spec_columns()[k].has_room() || t0.spec_columns()[k].spec_entities().contains(entity));
                }
            }
            let table = world.storages_mut().tables_mut().get_table_mut(table_id);
            table.write_value(&info, entity, data);
            proof {
                let w1 = *world;
                let tb0 = w0.spec_storages().spec_tables().spec_tables();
                let tb1 = w1.spec_storages().spec_tables().spec_tables();
                let t1 = tb1[table_id.spec_index() as int];
                assert(tb1 == tb0.update(table_id.spec_index() as int, t1));
                assert forall|t: int, k: int| 0 <= t < tb1.len() && 0 <= k < tb1[t].spec_columns().len() implies {
                    &&& (#[trigger] tb1[t].spec_components()[k]).spec_index() < w1.spec_components()@.len()
                    &&& tb1[t].spec_columns()[k].spec_info() == w1.spec_components()@[tb1[t].spec_components()[k].spec_index() as int].spec_type_info()
                    &&& w1.spec_components()@[tb1[t].spec_components()[k].spec_index() as int].spec_storage_policy() == StoragePolicy::Dense
                    &&& tb1[t].spec_columns()[k].has_room() || tb1[t].spec_columns()[k].spec_entities().contains(entity)
                } by {
                    if t == table_id.spec_index() {
                        let x = t1.spec_components()[k];
                        assert(t1.spec_components().contains(x));
                        t1.lemma_column_at(k);
                        if x == id {
                        } else {
                            assert(t0.spec_components().contains(x));
                            let k0 = t0.spec_components().index_of(x);
                            assert(t0.spec_components()[k0] == x);
                            t0.lemma_column_at(k0);
                        }
                    }
                }
                assert forall|t: int, k: int| 0 <= t < tb1.len() && 0 <= k < tb1[t].spec_columns().len() implies
                    (#[trigger] tb1[t].spec_columns()[k]).has_room() || tb1[t].spec_columns()[k].spec_entities().contains(entity) by {
                    assert(tb1[t].spec_components()[k].spec_index() < w1.spec_components()@.len());
                }
                assert(room_for(w1, entity));
                assert forall|t: TableId, x: ComponentId| x != id && t.spec_index() < tb0.len()
                    implies #[trigger] stored_value(w1, t, entity, x) == stored_value(w0, t, entity, x) by {
                    if t.spec_index() == table_id.spec_index() {
                        assert(t == table_id) by {
                            super::storage::TableId::lemma_index_determines(t, table_id);
                        }
                        assert(t1.spec_components().contains(x) == t0.spec_components().contains(x));
                    }
                }
                assert forall|t: TableId| t != table_id && t.spec_index() < tb0.len()
                    implies #[trigger] stored_value(w1, t, entity, id) == stored_value(w0, t, entity, id) by {
                    super::storage::TableId::lemma_index_determines(t, table_id);
                }
                assert(t1.spec_components().contains(id));
                assert(t1.column_of(id).spec_map().contains_key(entity));
                assert forall|t: TableId, e: EntityId, x: ComponentId| e != entity && t.spec_index() < tb0.len()
                    implies #[trigger] stored_value(w1, t, e, x) == stored_value(w0, t, e, x) by {
                    if t.spec_index() == table_id.spec_index() {
                        super::storage::TableId::lemma_index_determines(t, table_id);
                        if x == id {
                            if t0.spec_components().contains(id) {
                                assert(t1.column_of(id).spec_map() == t0.column_of(id).spec_map().insert(entity, data@));
                            } else {
                                assert(t1.column_of(id).spec_map() == Map::<EntityId, Seq<u8>>::empty().insert(entity, data@));
                                assert(!t1.column_of(id).spec_map().contains_key(e));
                            }
                        } else {
                            assert(t1.spec_components().contains(x) == t0.spec_components().contains(x));
                        }
                    }
                }
            }
        },
        StoragePolicy::Sparse => {
            let ghost c0 = w0.spec_storages().spec_columns();
            proof {
                if c0.spec_ids().contains(id) {
                    let k = c0.spec_ids().index_of(id);
                    assert(c0.spec_ids()[k] == id);
                    assert(c0.spec_columns()[k].has_room() || c0.spec_columns()[k].spec_entities().contains(entity));
                }
            }
            let col = world.storages_mut().columns_mut().get_or_create_column(&info);
            let ghost col0 = *col;
            col.insert_data(entity, data);
            proof {
                let w1 = *world;
                let c1 = w1.spec_storages().spec_columns();
                let col1 = c1.column_of(id);
                let idx = c1.spec_ids().index_of(id);
                assert(c1.spec_ids().contains(id)) by {
                    if !c0.spec_ids().contains(id) {
                        assert(c1.spec_ids()[c0.spec_ids().len() as int] == id);
                    }
                }
                assert(c1.spec_ids().no_duplicates()) by {
                    if !c0.spec_ids().contains(id) {
                        assert forall|a: int, b: int| 0 <= a < b < c1.spec_ids().len() implies c1.spec_ids()[a] != c1.spec_ids()[b] by {
                            if b == c0.spec_ids().len() {
                                assert(c0.spec_ids().contains(c0.spec_ids()[a]));
                            }
                        }
                    }
                }
                assert(c1.spec_ids()[idx] == id);
                assert(col1.spec_entities().contains(entity)) by {
                    if !col0.spec_entities().contains(entity) {
                        assert(col1.spec_entities()[col0.spec_entities().len() as int] == entity);
                    }
                }
                assert forall|k: int| 0 <= k < c1.spec_columns().len() implies {
                    &&& (#[trigger] c1.spec_columns()[k]).wf()
                    &&& c1.spec_columns()[k].has_room() || c1.spec_columns()[k].spec_entities().contains(entity)
                    &&& c1.spec_ids()[k].spec_index() < w1.spec_components()@.len()
                    &&& c1.spec_columns()[k].spec_info() == w1.spec_components()@[c1.spec_ids()[k].spec_index() as int].spec_type_info()
                } by {
                    if k == idx {
                    } else if k < c0.spec_columns().len() {
                        assert(c1.spec_columns()[k] == c0.spec_columns()[k]);
                        assert(c1.spec_ids()[k] == c0.spec_ids()[k]);
                    } else {
                        assert(c1.spec_ids()[k] == id);
                    }
                }
                assert forall|k: int| 0 <= k < c1.spec_ids().len() implies {
                    &&& (#[trigger] c1.spec_ids()[k]).spec_index() < w1.spec_components()@.len()
                    &&& c1.spec_columns()[k].spec_info() == w1.spec_components()@[c1.spec_ids()[k].spec_index() as int].spec_type_info()
                } by {
                    assert(c1.spec_columns()[k].wf());
                }
                assert(w1.spec_storages().wf());
                assert(w1.columns_registered());
                assert forall|t: TableId, x: ComponentId| x != id && t.spec_index() < w0.spec_storages().spec_tables().spec_tables().len()
                    implies #[trigger] stored_value(w1, t, entity, x) == stored_value(w0, t, entity, x) by {
                    if c1.spec_ids().contains(x) {
                        let j = c1.spec_ids().index_of(x);
                        assert(c1.spec_ids()[j] == x);
                        assert(j != idx);
                        if j < c0.spec_ids().len() {
                            assert(c0.spec_ids()[j] == x);
                            assert(c0.spec_ids().index_of(x) == j);
                        } else {
                            assert(c1.spec_ids()[j] == id);
                        }
                    }
                    if c0.spec_ids().contains(x) {
                        let j = c0.spec_ids().index_of(x);
                        assert(c0.spec_ids()[j] == x);
                        assert(c1.spec_ids()[j] == x);
                    }
                }
                assert forall|t: TableId, e: EntityId, x: ComponentId| e != entity && t.spec_index() < w0.spec_storages().spec_tables().spec_tables().len()
                    implies #[trigger] stored_value(w1, t, e, x) == stored_value(w0, t, e, x) by {
                    if c1.spec_ids().contains(x) {
                        let j = c1.spec_ids().index_of(x);
                        assert(c1.spec_ids()[j] == x);
                        if x == id {
                            assert(j == idx);
                            assert(col1.spec_map() == col0.spec_map().insert(entity, data@));
                            if !c0.spec_ids().contains(id) {
                                Column::lemma_empty_map(col0);
                                assert(!col1.spec_map().contains_key(e));
                            } else {
                                assert(col0 == c0.column_of(id));
                            }
                        } else if j < c0.spec_ids().len() {
                            assert(c0.spec_ids()[j] == x);
                            assert(c0.spec_ids().index_of(x) == j);
                        } else {
                            assert(c1.spec_ids()[j] == id);
                        }
                    }
                    if c0.spec_ids().contains(x) {
                        let j = c0.spec_ids().index_of(x);
                        assert(c0.spec_ids()[j] == x);
                        assert(c1.spec_ids()[j] == x);
                    }
                }
            }
        },
    }
}

/// Whether `ids` are registered and distinct, and `data` holds a value of
/// the right size for each.
pub open spec fn bundle_data_fits(world: World, ids: Seq<ComponentId>, data: Seq<Vec<u8>>) -> bool {
    &&& registered(world, ids)
    &&& ids.no_duplicates()
    &&& data.len() == ids.len()
    &&& forall|k: int| 0 <= k < ids.len() ==> (#[trigger] data[k])@.len()
        == world.spec_components()@[ids[k].spec_index() as int].spec_type_info().spec_size()
}

/// Writes the value `data[k]` of component `component_ids[k]` of `entity`,
/// for every `k`: dense components into table `table_id`, sparse ones into
/// their columns.
fn write_components(world: &mut World, entity: EntityId, table_id: TableId, component_ids: &[ComponentId], data: &[Vec<u8>])
    requires
        old(world).wf(),
        room_for(*old(world), entity),
        table_id.spec_index() < old(world).spec_storages().spec_tables().spec_tables().len(),
        bundle_data_fits(*old(world), component_ids@, data@),
    ensures
        final(world).wf(),
        room_for(*final(world), entity),
        forall|k: int| 0 <= k < component_ids@.len() ==> stored_value(*final(world), table_id, entity, #[trigger] component_ids@[k])
            == Some(data@[k]@),
        forall|t: TableId, x: ComponentId| !component_ids@.contains(x) && t.spec_index() < old(world).spec_storages().spec_tables().spec_tables().len()
            ==> #[trigger] stored_value(*final(world), t, entity, x) == stored_value(*old(world), t, entity, x),
        final(world).spec_components() == old(world).spec_components(),
        final(world).spec_archetypes() == old(world).spec_archetypes(),
        final(world).spec_entities() == old(world).spec_entities(),
        final(world).spec_last_entity_index() == old(world).spec_last_entity_index(),
        final(world).spec_storages().spec_tables().spec_keys() == old(world).spec_storages().spec_tables().spec_keys(),
        final(world).spec_storages().spec_tables().spec_tables().len() == old(world).spec_storages().spec_tables().spec_tables().len(),
    others_kept(*final(world), *old(world), entity),
{
    let ghost w0 = *world;
    let mut k: usize = 0;
    while k < component_ids.len()
        invariant
            0 <= k <= component_ids@.len(),
            world.wf(),
            room_for(*world, entity),
            table_id.spec_index() < w0.spec_storages().spec_tables().spec_tables().len(),
            bundle_data_fits(w0, component_ids@, data@),
            world.spec_components() == w0.spec_components(),
            world.spec_archetypes() == w0.spec_archetypes(),
            world.spec_entities() == w0.spec_entities(),
            world.spec_last_entity_index() == w0.spec_last_entity_index(),
            world.spec_storages().spec_tables().spec_keys() == w0.spec_storages().spec_tables().spec_keys(),
            world.spec_storages().spec_tables().spec_tables().len() == w0.spec_storages().spec_tables().spec_tables().len(),
            others_kept(*world, w0, entity),
            forall|j: int| 0 <= j < k ==> stored_value(*world, table_id, entity, #[trigger] component_ids@[j]) == Some(data@[j]@),
            forall|t: TableId, x: ComponentId| !component_ids@.subrange(0, k as int).contains(x) && t.spec_index() < w0.spec_storages().spec_tables().spec_tables().len()
                ==> #[trigger] stored_value(*world, t, entity, x) == stored_value(w0, t, entity, x),
        decreases component_ids@.len() - k,
    {
        let ghost w1 = *world;
        let id = component_ids[k];
        write_one(world, entity, table_id, id, data[k].as_slice());
        proof {
            assert forall|j: int| 0 <= j < k + 1 implies stored_value(*world, table_id, entity, #[trigger] component_ids@[j]) == Some(data@[j]@) by {
                if j < k {
                    assert(component_ids@[j] != id);
                }
            }
            assert forall|t: TableId, x: ComponentId| !component_ids@.subrange(0, k + 1).contains(x) && t.spec_index() < w0.spec_storages().spec_tables().spec_tables().len()
                implies #[trigger] stored_value(*world, t, entity, x) == stored_value(w0, t, entity, x) by {
                assert(component_ids@.subrange(0, k + 1)[k as int] == id);
                assert(x != id);
                if component_ids@.subrange(0, k as int).contains(x) {
                    let q = component_ids@.subrange(0, k as int).index_of(x);
                    assert(component_ids@.subrange(0, k + 1)[q] == x);
                }
                assert(stored_value(*world, t, entity, x) == stored_value(w1, t, entity, x));
            }
        }
        k = k + 1;
    }
    proof {
        assert(component_ids@.subrange(0, k as int) =~= component_ids@);
    }
}

/// Takes away the value of `entity` from the column at position `pos` of
/// table `table_id`, and returns it.
fn take_one(world: &mut World, entity: EntityId, table_id: TableId, pos: usize) -> (r: Option<Vec<u8>>)
    requires
        old(world).wf(),
        room_for(*old(world), entity),
        table_id.spec_index() < old(world).spec_storages().spec_tables().spec_tables().len(),
        pos < old(world).spec_storages().spec_tables().spec_tables()[table_id.spec_index() as int].spec_columns().len(),
    ensures
        ({
            let tables = old(world).spec_storages().spec_tables().spec_tables();
            let id = tables[table_id.spec_index() as int].spec_components()[pos as int];
            &&& id.spec_index() < old(world).spec_components()@.len()
            &&& old(world).spec_components()@[id.spec_index() as int].spec_storage_policy() == StoragePolicy::Dense
            &&& r is Some <==> stored_value(*old(world), table_id, entity, id) is Some
            &&& r matches Some(v) ==> Some(v@) == stored_value(*old(world), table_id, entity, id)
                && v@.len() == old(world).spec_components()@[id.spec_index() as int].spec_type_info().spec_size()
            &&& stored_value(*final(world), table_id, entity, id) is None
            &&& forall|t: TableId, x: ComponentId| (t != table_id || x != id) && t.spec_index() < tables.len()
                ==> #[trigger] stored_value(*final(world), t, entity, x) == stored_value(*old(world), t, entity, x)
            &&& final(world).spec_storages().spec_tables().spec_tables()[table_id.spec_index() as int].spec_components()
                == tables[table_id.spec_index() as int].spec_components()
            &&& forall|t: int| 0 <= t < tables.len() && t != table_id.spec_index() ==>
                #[trigger] final(world).spec_storages().spec_tables().spec_tables()[t] == tables[t]
        }),
        final(world).wf(),
        room_for(*final(world), entity),
        others_kept(*final(world), *old(world), entity),
        final(world).spec_components() == old(world).spec_components(),
        final(world).spec_archetypes() == old(world).spec_archetypes(),
        final(world).spec_entities() == old(world).spec_entities(),
        final(world).spec_last_entity_index() == old(world).spec_last_entity_index(),
        final(world).spec_storages().spec_columns() == old(world).spec_storages().spec_columns(),
        final(world).spec_storages().spec_tables().spec_keys() == old(world).spec_storages().spec_tables().spec_keys(),
        final(world).spec_storages().spec_tables().spec_tables().len() == old(world).spec_storages().spec_tables().spec_tables().len(),
{
    let ghost w0 = *world;
    let ghost tb0 = w0.spec_storages().spec_tables().spec_tables();
    let ghost t0 = tb0[table_id.spec_index() as int];
    let ghost id = t0.spec_components()[pos as int];
    proof {
        t0.lemma_column_at(pos as int);
        t0.spec_columns()[pos as int].lemma_value_sizes();
        assert(t0.spec_components().contains(id));
    }
    let table = world.storages_mut().tables_mut().get_table_mut(table_id);
    let r = table.take_value(pos, entity);
    proof {
        let w1 = *world;
        let tb1 = w1.spec_storages().spec_tables().spec_tables();
        let t1 = tb1[table_id.spec_index() as int];
        assert(tb1 == tb0.update(table_id.spec_index() as int, t1));
        t1.lemma_column_at(pos as int);
        assert forall|t: int, k: int| 0 <= t < tb1.len() && 0 <= k < tb1[t].spec_columns().len() implies {
            &&& (#[trigger] tb1[t].spec_components()[k]).spec_index() < w1.spec_components()@.len()
            &&& tb1[t].spec_columns()[k].spec_info() == w1.spec_components()@[tb1[t].spec_components()[k].spec_index() as int].spec_type_info()
            &&& w1.spec_components()@[tb1[t].spec_components()[k].spec_index() as int].spec_storage_policy() == StoragePolicy::Dense
            &&& tb1[t].spec_columns()[k].has_room() || tb1[t].spec_columns()[k].spec_entities().contains(entity)
        } by {
            assert(tb0[t].spec_components()[k].spec_index() < w0.spec_components()@.len());
        }
        assert forall|t: int, k: int| 0 <= t < tb1.len() && 0 <= k < tb1[t].spec_columns().len() implies
            (#[trigger] tb1[t].spec_columns()[k]).has_room() || tb1[t].spec_columns()[k].spec_entities().contains(entity) by {
            assert(tb1[t].spec_components()[k].spec_index() < w1.spec_components()@.len());
        }
        assert(room_for(w1, entity));
        assert forall|t: TableId, x: ComponentId| (t != table_id || x != id) && t.spec_index() < tb0.len()
            implies #[trigger] stored_value(w1, t, entity, x) == stored_value(w0, t, entity, x) by {
            if t.spec_index() == table_id.spec_index() {
                super::storage::TableId::lemma_index_determines(t, table_id);
                if t0.spec_components().contains(x) {
                    let j = t0.spec_components().index_of(x);
                    assert(t0.spec_components()[j] == x);
                    t0.lemma_column_at(j);
                    t1.lemma_column_at(j);
                }
            }
        }
        assert forall|t: TableId, e: EntityId, x: ComponentId| e != entity && t.spec_index() < tb0.len()
            implies #[trigger] stored_value(w1, t, e, x) == stored_value(w0, t, e, x) by {
            if t.spec_index() == table_id.spec_index() {
                super::storage::TableId::lemma_index_determines(t, table_id);
                if t0.spec_components().contains(x) {
                    let j = t0.spec_components().index_of(x);
                    assert(t0.spec_components()[j] == x);
                    t0.lemma_column_at(j);
                    t1.lemma_column_at(j);
                }
            }
        }
    }
    r
}

/// Takes away every value that `entity` has in table `table_id`.
fn clear_entity(world: &mut World, entity: EntityId, table_id: TableId)
    requires
        old(world).wf(),
        room_for(*old(world), entity),
        table_id.spec_index() < old(world).spec_storages().spec_tables().spec_tables().len(),
    ensures
        final(world).wf(),
        room_for(*final(world), entity),
        forall|x: ComponentId| x.spec_index() < old(world).spec_components()@.len()
            && old(world).spec_components()@[x.spec_index() as int].spec_storage_policy() == StoragePolicy::Dense
            ==> #[trigger] stored_value(*final(world), table_id, entity, x) is None,
        forall|t: TableId, x: ComponentId| t.spec_index() < old(world).spec_storages().spec_tables().spec_tables().len()
            && (t != table_id || old(world).spec_components()@[x.spec_index() as int].spec_storage_policy() != StoragePolicy::Dense)
            ==> #[trigger] stored_value(*final(world), t, entity, x) == stored_value(*old(world), t, entity, x),
        forall|t: int| 0 <= t < old(world).spec_storages().spec_tables().spec_tables().len() && t != table_id.spec_index() ==>
            #[trigger] final(world).spec_storages().spec_tables().spec_tables()[t] == old(world).spec_storages().spec_tables().spec_tables()[t],
        final(world).spec_components() == old(world).spec_components(),
        final(world).spec_archetypes() == old(world).spec_archetypes(),
        final(world).spec_entities() == old(world).spec_entities(),
        final(world).spec_last_entity_index() == old(world).spec_last_entity_index(),
        final(world).spec_storages().spec_columns() == old(world).spec_storages().spec_columns(),
        final(world).spec_storages().spec_tables().spec_keys() == old(world).spec_storages().spec_tables().spec_keys(),
        final(world).spec_storages().spec_tables().spec_tables().len() == old(world).spec_storages().spec_tables().spec_tables().len(),
    others_kept(*final(world), *old(world), entity),
{
    let ghost w0 = *world;
    let ghost n = w0.spec_storages().spec_tables().spec_tables().len();
    let ghost comps = w0.spec_storages().spec_tables().spec_tables()[table_id.spec_index() as int].spec_components();
    let count = match world.storages().tables().get_table(table_id) {
        Some(table) => table.components().len(),
        None => 0,
    };
    let mut k: usize = 0;
    while k < count
        invariant
            0 <= k <= count,
            count == comps.len(),
            world.wf(),
            room_for(*world, entity),
            table_id.spec_index() < n,
            world.spec_storages().spec_tables().spec_tables().len() == n,
            world.spec_storages().spec_tables().spec_tables()[table_id.spec_index() as int].spec_components() == comps,
            world.spec_components() == w0.spec_components(),
            world.spec_archetypes() == w0.spec_archetypes(),
            world.spec_entities() == w0.spec_entities(),
            world.spec_last_entity_index() == w0.spec_last_entity_index(),
            world.spec_storages().spec_columns() == w0.spec_storages().spec_columns(),
            world.spec_storages().spec_tables().spec_keys() == w0.spec_storages().spec_tables().spec_keys(),
            n == w0.spec_storages().spec_tables().spec_tables().len(),
            others_kept(*world, w0, entity),
            forall|j: int| 0 <= j < k ==> #[trigger] stored_value(*world, table_id, entity, comps[j]) is None,
            forall|t: TableId, x: ComponentId| t.spec_index() < n && (t != table_id || !comps.subrange(0, k as int).contains(x))
                ==> #[trigger] stored_value(*world, t, entity, x) == stored_value(w0, t, entity, x),
            forall|t: int| 0 <= t < n && t != table_id.spec_index() ==>
                #[trigger] world.spec_storages().spec_tables().spec_tables()[t] == w0.spec_storages().spec_tables().spec_tables()[t],
        decreases count - k,
    {
        let ghost w1 = *world;
        let _ = take_one(world, entity, table_id, k);
        proof {
            let id = comps[k as int];
            assert forall|t: TableId, e: EntityId, x: ComponentId| e != entity && t.spec_index() < n
                implies #[trigger] stored_value(*world, t, e, x) == stored_value(w0, t, e, x) by {
                assert(stored_value(w1, t, e, x) == stored_value(w0, t, e, x));
            }
            assert forall|j: int| 0 <= j < k + 1 implies #[trigger] stored_value(*world, table_id, entity, comps[j]) is None by {
                if j < k {
                    assert(strictly_sorted(comps));
                    assert(comps[j] != id) by {
                        assert(comps[j].spec_index() < comps[k as int].spec_index());
                    }
                }
            }
            assert forall|t: TableId, x: ComponentId| t.spec_index() < n && (t != table_id || !comps.subrange(0, k + 1).contains(x))
                implies #[trigger] stored_value(*world, t, entity, x) == stored_value(w0, t, entity, x) by {
                if t == table_id {
                    assert(comps.subrange(0, k + 1)[k as int] == id);
                    if comps.subrange(0, k as int).contains(x) {
                        let q = comps.subrange(0, k as int).index_of(x);
                        assert(comps.subrange(0, k + 1)[q] == x);
                    }
                }
                assert(stored_value(*world, t, entity, x) == stored_value(w1, t, entity, x));
            }
        }
        k = k + 1;
    }
    proof {
        assert(comps.subrange(0, k as int) =~= comps);
        let tb = world.spec_storages().spec_tables().spec_tables();
        let tab = tb[table_id.spec_index() as int];
        assert forall|x: ComponentId| x.spec_index() < w0.spec_components()@.len()
            && w0.spec_components()@[x.spec_index() as int].spec_storage_policy() == StoragePolicy::Dense
            implies #[trigger] stored_value(*world, table_id, entity, x) is None by {
            if tab.spec_components().contains(x) {
                let j = comps.index_of(x);
                assert(comps[j] == x);
            }
        }
        assert forall|t: TableId, x: ComponentId| t.spec_index() < n
            && (t != table_id || w0.spec_components()@[x.spec_index() as int].spec_storage_policy() != StoragePolicy::Dense)
            implies #[trigger] stored_value(*world, t, entity, x) == stored_value(w0, t, entity, x) by {
            if t == table_id && comps.contains(x) {
                let j = comps.index_of(x);
                assert(comps[j] == x);
            }
        }
    }
}

/// Whether `x` is a registered component of `world` stored in tables.
pub open spec fn is_dense(world: World, x: ComponentId) -> bool {
    &&& x.spec_index() < world.spec_components()@.len()
    &&& world.spec_components()@[x.spec_index() as int].spec_storage_policy() == StoragePolicy::Dense
}

/// Moves the values of `entity` from table `from` to table `to`: afterwards
/// `to` holds for `entity` exactly what `from` held, and `from` holds nothing.
fn move_between_tables(world: &mut World, entity: EntityId, from: TableId, to: TableId)
    requires
        old(world).wf(),
        room_for(*old(world), entity),
        from.spec_index() < old(world).spec_storages().spec_tables().spec_tables().len(),
        to.spec_index() < old(world).spec_storages().spec_tables().spec_tables().len(),
        from != to,
    ensures
        final(world).wf(),
        room_for(*final(world), entity),
        forall|x: ComponentId| is_dense(*old(world), x) ==>
            #[trigger] stored_value(*final(world), to, entity, x) == stored_value(*old(world), from, entity, x),
        forall|x: ComponentId| is_dense(*old(world), x) ==> #[trigger] stored_value(*final(world), from, entity, x) is None,
        forall|t: TableId, x: ComponentId| t.spec_index() < old(world).spec_storages().spec_tables().spec_tables().len()
            && ((t != from && t != to) || !is_dense(*old(world), x))
            ==> #[trigger] stored_value(*final(world), t, entity, x) == stored_value(*old(world), t, entity, x),
        final(world).spec_components() == old(world).spec_components(),
        final(world).spec_archetypes() == old(world).spec_archetypes(),
        final(world).spec_entities() == old(world).spec_entities(),
        final(world).spec_last_entity_index() == old(world).spec_last_entity_index(),
        final(world).spec_storages().spec_tables().spec_keys() == old(world).spec_storages().spec_tables().spec_keys(),
        final(world).spec_storages().spec_tables().spec_tables().len() == old(world).spec_storages().spec_tables().spec_tables().len(),
    others_kept(*final(world), *old(world), entity),
{
    let ghost w0 = *world;
    let ghost n = w0.spec_storages().spec_tables().spec_tables().len();
    clear_entity(world, entity, to);
    let ghost w1 = *world;
    let comps = match world.storages().tables().get_table(from) {
        Some(table) => vstd::slice::slice_to_vec(table.components()),
        None => Vec::new(),
    };
    proof {
        assert(from.spec_index() != to.spec_index()) by {
            if from.spec_index() == to.spec_index() {
                super::storage::TableId::lemma_index_determines(from, to);
            }
        }
        assert(w1.spec_storages().spec_tables().spec_tables()[from.spec_index() as int]
            == w0.spec_storages().spec_tables().spec_tables()[from.spec_index() as int]);
    }
    let mut k: usize = 0;
    while k < comps.len()
        invariant
            0 <= k <= comps@.len(),
            world.wf(),
            room_for(*world, entity),
            from.spec_index() < n,
            to.spec_index() < n,
            from.spec_index() != to.spec_index(),
            from != to,
            world.spec_storages().spec_tables().spec_tables().len() == n,
            world.spec_storages().spec_tables().spec_tables()[from.spec_index() as int].spec_components() == comps@,
            w0.spec_storages().spec_tables().spec_tables()[from.spec_index() as int].spec_components() == comps@,
            world.spec_components() == w0.spec_components(),
            world.spec_archetypes() == w0.spec_archetypes(),
            world.spec_entities() == w0.spec_entities(),
            world.spec_last_entity_index() == w0.spec_last_entity_index(),
            world.spec_storages().spec_tables().spec_keys() == w0.spec_storages().spec_tables().spec_keys(),
            n == w0.spec_storages().spec_tables().spec_tables().len(),
            others_kept(*world, w0, entity),
            forall|j: int| 0 <= j < k ==> #[trigger] stored_value(*world, to, entity, comps@[j]) == stored_value(w0, from, entity, comps@[j]),
            forall|j: int| 0 <= j < k ==> #[trigger] stored_value(*world, from, entity, comps@[j]) is None,
            forall|x: ComponentId| is_dense(w0, x) && !comps@.subrange(0, k as int).contains(x) ==> {
                &&& #[trigger] stored_value(*world, to, entity, x) is None
                &&& stored_value(*world, from, entity, x) == stored_value(w0, from, entity, x)
            },
            forall|t: TableId, x: ComponentId| t.spec_index() < n && ((t != from && t != to) || !is_dense(w0, x))
                ==> #[trigger] stored_value(*world, t, entity, x) == stored_value(w0, t, entity, x),
        decreases comps@.len() - k,
    {
        let ghost w2 = *world;
        let id = comps[k];
        let taken = take_one(world, entity, from, k);
        let ghost w3 = *world;
        match taken {
            Some(v) => {
                write_one(world, entity, to, id, v.as_slice());
            },
            None => {},
        }
        proof {
            assert forall|t: TableId, e: EntityId, x: ComponentId| e != entity && t.spec_index() < n
                implies #[trigger] stored_value(*world, t, e, x) == stored_value(w0, t, e, x) by {
                assert(stored_value(w3, t, e, x) == stored_value(w2, t, e, x));
                assert(stored_value(w2, t, e, x) == stored_value(w0, t, e, x));
            }
            assert(strictly_sorted(comps@));
            assert(world.spec_storages().spec_tables().spec_tables()[from.spec_index() as int]
                == w3.spec_storages().spec_tables().spec_tables()[from.spec_index() as int]);
            assert(is_dense(w0, id));
            assert forall|j: int| 0 <= j < k + 1 implies #[trigger] stored_value(*world, to, entity, comps@[j])
                == stored_value(w0, from, entity, comps@[j]) by {
                if j < k {
                    assert(comps@[j].spec_index() < comps@[k as int].spec_index());
                } else {
                    assert(!comps@.subrange(0, k as int).contains(id)) by {
                        if comps@.subrange(0, k as int).contains(id) {
                            let q = comps@.subrange(0, k as int).index_of(id);
                            assert(comps@[q] == id);
                            assert(comps@[q].spec_index() < comps@[k as int].spec_index());
                        }
                    }
                }
            }
            assert forall|j: int| 0 <= j < k + 1 implies #[trigger] stored_value(*world, from, entity, comps@[j]) is None by {
                if j < k {
                    assert(comps@[j].spec_index() < comps@[k as int].spec_index());
                }
            }
            assert forall|x: ComponentId| is_dense(w0, x) && !comps@.subrange(0, k + 1).contains(x) implies {
                &&& #[trigger] stored_value(*world, to, entity, x) is None
                &&& stored_value(*world, from, entity, x) == stored_value(w0, from, entity, x)
            } by {
                assert(comps@.subrange(0, k + 1)[k as int] == id);
                assert(x != id);
                if comps@.subrange(0, k as int).contains(x) {
                    let q = comps@.subrange(0, k as int).index_of(x);
                    assert(comps@.subrange(0, k + 1)[q] == x);
                }
            }
        }
        k = k + 1;
    }
    proof {
        assert(comps@.subrange(0, k as int) =~= comps@);
        let tb0 = w0.spec_storages().spec_tables().spec_tables();
        assert forall|x: ComponentId| is_dense(w0, x) implies
            #[trigger] stored_value(*world, to, entity, x) == stored_value(w0, from, entity, x) by {
            if comps@.contains(x) {
                let j = comps@.index_of(x);
                assert(comps@[j] == x);
            } else {
                assert(!tb0[from.spec_index() as int].spec_components().contains(x));
            }
        }
        assert forall|x: ComponentId| is_dense(w0, x) implies #[trigger] stored_value(*world, from, entity, x) is None by {
            if comps@.contains(x) {
                let j = comps@.index_of(x);
                assert(comps@[j] == x);
            }
        }
    }
}

/// Records that `entity`, which exists, now stands at `location`.
fn relocate(world: &mut World, entity: EntityId, location: EntityLocation)
    requires
        old(world).wf(),
        old(world).spec_entities()@.contains_key(entity.spec_index()),
        location.spec_archetype_id().spec_index() < old(world).spec_archetypes().spec_archetypes().len(),
    ensures
        final(world).wf(),
        final(world).spec_entities()@ == old(world).spec_entities()@.insert(entity.spec_index(), location),
        final(world).spec_archetypes().spec_entities() == old(world).spec_archetypes().spec_entities().insert(
            entity.spec_index(),
            location.spec_archetype_id(),
        ),
        final(world).spec_archetypes().spec_archetypes() == old(world).spec_archetypes().spec_archetypes(),
        final(world).spec_components() == old(world).spec_components(),
        final(world).spec_storages() == old(world).spec_storages(),
        final(world).spec_last_entity_index() == old(world).spec_last_entity_index(),
{
    *world.entities_mut().get_entity_location_mut(&entity) = location;
    world.archetypes_mut().set_entity_archetype_id(entity, location.archetype_id());
    proof {
        assert(world.spec_entities()@.dom() =~= world.spec_archetypes().spec_entities().dom());
    }
}

impl BundleInserter {
    /// The archetype that entities end in once the bundle is added.
    pub open spec fn target(&self) -> ArchetypeId {
        match self.spec_result() {
            BundleInsertionResult::SameArchetype => self.spec_archetype_id(),
            BundleInsertionResult::NewArchetypeSameTable { new_archetype_id } => new_archetype_id,
            BundleInsertionResult::NewArchetypeNewTable { new_archetype_id, .. } => new_archetype_id,
        }
    }

    /// Whether the inserter describes, in `world`, adding the components
    /// `component_ids` to entities of its archetype.
    pub open spec fn prepared_for(&self, world: World, component_ids: Seq<ComponentId>) -> bool {
        let archs = world.spec_archetypes().spec_archetypes();
        let a = archs[self.spec_archetype_id().spec_index() as int];
        &&& self.spec_archetype_id().spec_index() < archs.len()
        &&& self.spec_table_id() == a.spec_table_id()
        &&& match self.spec_result() {
            BundleInsertionResult::SameArchetype =>
                forall|k: int| 0 <= k < component_ids.len() ==> a.spec_component_ids().contains(#[trigger] component_ids[k]),
            BundleInsertionResult::NewArchetypeSameTable { new_archetype_id } => {
                &&& new_archetype_id.spec_index() < archs.len()
                &&& holds_union(archs[new_archetype_id.spec_index() as int], a, component_ids)
                &&& archs[new_archetype_id.spec_index() as int].spec_table_id() == a.spec_table_id()
            },
            BundleInsertionResult::NewArchetypeNewTable { new_archetype_id, new_table_id } => {
                &&& new_archetype_id.spec_index() < archs.len()
                &&& holds_union(archs[new_archetype_id.spec_index() as int], a, component_ids)
                &&& archs[new_archetype_id.spec_index() as int].spec_table_id() == new_table_id
                &&& new_table_id != a.spec_table_id()
            },
        }
    }

    /// Adds the bundle to `entity_id`, which stands at `location` in the
    /// inserter's archetype: the values `data[k]` of the components
    /// `component_ids[k]` are written, the entity's other values stay, moved
    /// to the new table if its archetype's table changes, and the entity's
    /// new location is returned.
    pub fn insert(
        &mut self,
        world: &mut World,
        entity_id: EntityId,
        location: EntityLocation,
        component_ids: &[ComponentId],
        data: &[Vec<u8>],
    ) -> (l: EntityLocation)
        requires
            old(world).wf(),
            old(self).prepared_for(*old(world), component_ids@),
            old(world).spec_entities()@.contains_key(entity_id.spec_index()),
            old(world).spec_entities()@[entity_id.spec_index()] == location,
            location.spec_archetype_id() == old(self).spec_archetype_id(),
            bundle_data_fits(*old(world), component_ids@, data@),
            room_for(*old(world), entity_id),
        ensures
            final(world).wf(),
            room_for(*final(world), entity_id),
            l.spec_archetype_id() == old(self).target(),
            old(self).spec_result() is SameArchetype ==> l == location,
            old(self).spec_result() is NewArchetypeSameTable ==> l.spec_table_row() == location.spec_table_row(),
            old(self).spec_result() matches BundleInsertionResult::NewArchetypeNewTable { new_table_id, .. } ==> ({
                let len = final(world).spec_storages().spec_tables().spec_tables()[new_table_id.spec_index() as int].spec_len();
                l.spec_table_row().spec_index() == if len > 0 { len - 1 } else { usize::MAX as int }
            }),
            final(world).spec_entities()@ == old(world).spec_entities()@.insert(entity_id.spec_index(), l),
            final(world).spec_archetypes().spec_entities() == old(world).spec_archetypes().spec_entities().insert(
                entity_id.spec_index(),
                l.spec_archetype_id(),
            ),
            forall|k: int| 0 <= k < component_ids@.len() ==>
                component_value(*final(world), entity_id, #[trigger] component_ids@[k]) == Some(data@[k]@),
            forall|x: ComponentId| x.spec_index() < old(world).spec_components()@.len() && !component_ids@.contains(x) ==>
                #[trigger] component_value(*final(world), entity_id, x) == component_value(*old(world), entity_id, x),
            final(world).spec_archetypes().spec_archetypes() == old(world).spec_archetypes().spec_archetypes(),
            final(world).spec_components() == old(world).spec_components(),
            final(world).spec_last_entity_index() == old(world).spec_last_entity_index(),
            others_kept(*final(world), *old(world), entity_id),
            final(world).spec_storages().spec_tables().spec_tables().len() == old(world).spec_storages().spec_tables().spec_tables().len(),
            final(self).spec_table_id() == old(self).spec_table_id(),
            final(self).spec_result() == old(self).spec_result(),
            final(self).spec_archetype_id() == match old(self).spec_result() {
                BundleInsertionResult::NewArchetypeSameTable { new_archetype_id } => new_archetype_id,
                _ => old(self).spec_archetype_id(),
            },
    {
        let ghost w0 = *world;
        let ghost archs = w0.spec_archetypes().spec_archetypes();
        let ghost a = archs[self.spec_archetype_id().spec_index() as int];
        proof {
            assert(a.spec_table_id().spec_index() < w0.spec_storages().spec_tables().spec_tables().len());
        }
        match self.result {
            BundleInsertionResult::SameArchetype => {
                write_components(world, entity_id, self.table_id, component_ids, data);
                proof {
                    assert(world.spec_entities()@ =~= w0.spec_entities()@.insert(entity_id.spec_index(), location));
                    assert(world.spec_archetypes().spec_entities() =~= w0.spec_archetypes().spec_entities().insert(
                        entity_id.spec_index(), location.spec_archetype_id()));
                }
                location
            },
            BundleInsertionResult::NewArchetypeSameTable { new_archetype_id } => {
                let new_location = EntityLocation::new(new_archetype_id, location.table_row());
                self.archetype_id = new_archetype_id;
                relocate(world, entity_id, new_location);
                let ghost wr = *world;
                write_components(world, entity_id, self.table_id, component_ids, data);
                proof {
                    assert forall|t: TableId, e: EntityId, x: ComponentId| e != entity_id
                        && t.spec_index() < w0.spec_storages().spec_tables().spec_tables().len()
                        implies #[trigger] stored_value(*world, t, e, x) == stored_value(w0, t, e, x) by {
                        assert(stored_value(wr, t, e, x) == stored_value(w0, t, e, x));
                    }
                }
                new_location
            },
            BundleInsertionResult::NewArchetypeNewTable { new_archetype_id, new_table_id } => {
                move_between_tables(world, entity_id, self.table_id, new_table_id);
                let ghost w1 = *world;
                write_components(world, entity_id, new_table_id, component_ids, data);
                let ghost w2 = *world;
                let len = match world.storages().tables().get_table(new_table_id) {
                    Some(table) => table.len(),
                    None => 0,
                };
                let row = if len > 0 {
                    TableRow::new(len - 1)
                } else {
                    TableRow::invalid()
                };
                let new_location = EntityLocation::new(new_archetype_id, row);
                relocate(world, entity_id, new_location);
                proof {
                    assert forall|t: TableId, e: EntityId, x: ComponentId| e != entity_id
                        && t.spec_index() < w0.spec_storages().spec_tables().spec_tables().len()
                        implies #[trigger] stored_value(*world, t, e, x) == stored_value(w0, t, e, x) by {
                        assert(stored_value(w2, t, e, x) == stored_value(w1, t, e, x));
                        assert(stored_value(w1, t, e, x) == stored_value(w0, t, e, x));
                    }
                    assert forall|x: ComponentId| x.spec_index() < w0.spec_components()@.len() && !component_ids@.contains(x) implies
                        #[trigger] component_value(*world, entity_id, x) == component_value(w0, entity_id, x) by {
                        assert(stored_value(w2, new_table_id, entity_id, x) == stored_value(w1, new_table_id, entity_id, x));
                        if is_dense(w0, x) {
                        } else {
                            assert(stored_value(w1, new_table_id, entity_id, x) == stored_value(w0, new_table_id, entity_id, x));
                        }
                    }
                }
                new_location
            },
        }
    }
}

/// Adds the components `component_ids`, with the values `data`, to the
/// existing entity `entity_id`: the entity moves to the archetype of its
/// components and the bundle's, and its new location is returned.
pub fn insert_bundle(world: &mut World, entity_id: EntityId, component_ids: &[ComponentId], data: &[Vec<u8>]) -> (l: EntityLocation)
    requires
        old(world).wf(),
        old(world).spec_entities()@.contains_key(entity_id.spec_index()),
        bundle_data_fits(*old(world), component_ids@, data@),
        room_for(*old(world), entity_id),
        old(world).spec_storages().spec_tables().spec_tables().len() < usize::MAX,
        old(world).spec_archetypes().spec_archetypes().len() < usize::MAX,
    ensures
        final(world).wf(),
        final(world).spec_entities()@ == old(world).spec_entities()@.insert(entity_id.spec_index(), l),
        ({
            let a = old(world).spec_archetypes().spec_archetypes()[old(world).spec_entities()@[entity_id.spec_index()].spec_archetype_id().spec_index() as int];
            &&& l.spec_archetype_id().spec_index() < final(world).spec_archetypes().spec_archetypes().len()
            &&& holds_union(final(world).spec_archetypes().spec_archetypes()[l.spec_archetype_id().spec_index() as int], a, component_ids@)
            &&& (forall|k: int| 0 <= k < component_ids@.len() ==> a.spec_component_ids().contains(#[trigger] component_ids@[k]))
                ==> l == old(world).spec_entities()@[entity_id.spec_index()]
        }),
        forall|k: int| 0 <= k < component_ids@.len() ==>
            component_value(*final(world), entity_id, #[trigger] component_ids@[k]) == Some(data@[k]@),
        forall|x: ComponentId| x.spec_index() < old(world).spec_components()@.len() && !component_ids@.contains(x) ==>
            #[trigger] component_value(*final(world), entity_id, x) == component_value(*old(world), entity_id, x),
        forall|e: EntityId, x: ComponentId| e != entity_id && old(world).spec_entities()@.contains_key(e.spec_index()) ==>
            #[trigger] component_value(*final(world), e, x) == component_value(*old(world), e, x),
        final(world).spec_components() == old(world).spec_components(),
        final(world).spec_last_entity_index() == old(world).spec_last_entity_index(),
{
    let ghost w0 = *world;
    let location = *world.entities().get_entity_location(&entity_id);
    proof {
        assert(w0.spec_archetypes().spec_entities().contains_key(entity_id.spec_index()));
    }
    let mut inserter = BundleInserter::new(world, location.archetype_id(), component_ids);
    let ghost w1 = *world;
    proof {
        let tb0 = w0.spec_storages().spec_tables().spec_tables();
        let tb1 = w1.spec_storages().spec_tables().spec_tables();
        let archs0 = w0.spec_archetypes().spec_archetypes();
        let archs1 = w1.spec_archetypes().spec_archetypes();
        assert forall|t: int, k: int| 0 <= t < tb1.len() && 0 <= k < tb1[t].spec_columns().len() implies
            (#[trigger] tb1[t].spec_columns()[k]).has_room() || tb1[t].spec_columns()[k].spec_entities().contains(entity_id) by {
            assert(tb1.subrange(0, tb0.len() as int)[t] == tb1[t]);
        }
        assert(room_for(w1, entity_id));
        assert(archs1.subrange(0, archs0.len() as int)[location.spec_archetype_id().spec_index() as int]
            == archs0[location.spec_archetype_id().spec_index() as int]);
        let a = archs0[location.spec_archetype_id().spec_index() as int];
        assert(a.spec_table_id().spec_index() < tb0.len());
        assert(tb1.subrange(0, tb0.len() as int)[a.spec_table_id().spec_index() as int] == tb0[a.spec_table_id().spec_index() as int]);
        assert forall|x: ComponentId| #[trigger] component_value(w1, entity_id, x) == component_value(w0, entity_id, x) by {
        }
    }
    let l = inserter.insert(world, entity_id, location, component_ids, data);
    proof {
        let archs0 = w0.spec_archetypes().spec_archetypes();
        let archs1 = w1.spec_archetypes().spec_archetypes();
        let a = archs0[location.spec_archetype_id().spec_index() as int];
        assert(archs1.subrange(0, archs0.len() as int)[location.spec_archetype_id().spec_index() as int] == a);
        if inserter.spec_result() is SameArchetype {
            assert forall|x: ComponentId| #[trigger] a.spec_component_ids().contains(x) <==> (
                a.spec_component_ids().contains(x) || component_ids@.contains(x)) by {
                if component_ids@.contains(x) {
                    let q = component_ids@.index_of(x);
                    assert(component_ids@[q] == x);
                }
            }
        }
        if forall|k: int| 0 <= k < component_ids@.len() ==> a.spec_component_ids().contains(#[trigger] component_ids@[k]) {
            match inserter.spec_result() {
                BundleInsertionResult::SameArchetype => {},
                BundleInsertionResult::NewArchetypeSameTable { new_archetype_id } => {
                    assert(false);
                },
                BundleInsertionResult::NewArchetypeNewTable { new_archetype_id, new_table_id } => {
                    assert(false);
                },
            }
        }
        assert(location == w0.spec_entities()@[entity_id.spec_index()]);
        let tb0 = w0.spec_storages().spec_tables().spec_tables();
        let tb1 = w1.spec_storages().spec_tables().spec_tables();
        assert forall|e: EntityId, x: ComponentId| e != entity_id && w0.spec_entities()@.contains_key(e.spec_index()) implies
            #[trigger] component_value(*world, e, x) == component_value(w0, e, x) by {
            broadcast use super::entity::EntityId::lemma_index_determines;
            assert(e.spec_index() != entity_id.spec_index());
            let ae = w0.spec_archetypes().spec_entities()[e.spec_index()];
            assert(w0.spec_archetypes().spec_entities().contains_key(e.spec_index()));
            assert(ae.spec_index() < archs0.len());
            assert(world.spec_archetypes().spec_entities()[e.spec_index()] == ae);
            assert(archs1.subrange(0, archs0.len() as int)[ae.spec_index() as int] == archs0[ae.spec_index() as int]);
            let te = archs0[ae.spec_index() as int].spec_table_id();
            assert(te.spec_index() < tb0.len());
            assert(tb1.subrange(0, tb0.len() as int)[te.spec_index() as int] == tb0[te.spec_index() as int]);
            assert(stored_value(*world, te, e, x) == stored_value(w1, te, e, x));
        }
        let archs2 = world.spec_archetypes().spec_archetypes();
        assert(l.spec_archetype_id().spec_index() < archs2.len());
        assert(holds_union(archs2[l.spec_archetype_id().spec_index() as int], a, component_ids@));
    }
    l
}

/// Only one archetype made by the world's archetype lookup is what adding a
/// bundle to an archetype leads to: the table key and column list are pinned
/// as sequences, so the archetype is.
pub proof fn lemma_extension_unique(before: World, after: World, a: Archetype, bundle: Seq<ComponentId>, i: int, j: int)
    requires
        after.wf(),
        1 <= i < after.spec_archetypes().spec_archetypes().len(),
        1 <= j < after.spec_archetypes().spec_archetypes().len(),
        extends_archetype(before, after, a, bundle, after.spec_archetypes().spec_archetypes()[i]),
        extends_archetype(before, after, a, bundle, after.spec_archetypes().spec_archetypes()[j]),
    ensures
        i == j,
{
    let archs = after.spec_archetypes().spec_archetypes();
    let keys = after.spec_storages().spec_tables().spec_keys();
    let ni = archs[i];
    let nj = archs[j];
    let ti = ni.spec_table_id().spec_index() as int;
    let tj = nj.spec_table_id().spec_index() as int;
    super::archetype::archetype::lemma_sorted_same_members(keys[ti], keys[tj]);
    super::archetype::archetype::lemma_sorted_same_members(ni.spec_column_ids(), nj.spec_column_ids());
    if ti != tj {
        if ti < tj {
            assert(keys[ti] != keys[tj]);
        } else {
            assert(keys[tj] != keys[ti]);
        }
    }
    TableId::lemma_index_determines(ni.spec_table_id(), nj.spec_table_id());
    if i < j {
        assert(!has_key(archs[i], archs[j].spec_table_id(), archs[j].spec_column_ids()));
    } else if j < i {
        assert(!has_key(archs[j], archs[i].spec_table_id(), archs[i].spec_column_ids()));
    }
}

} // verus!
