//! Which component sets a query asks for, the archetypes that store them,
//! and the walk over the entities of those archetypes.

use vstd::prelude::*;

use super::component::{ComponentId, ComponentInfo, StoragePolicy};
use super::entity::EntityId;
use super::storage::table::{sorted_union, strictly_sorted};
use super::storage::{Column, Columns, Table, TableId, Tables};
use super::world::World;
use super::bundle::stored_value;

verus! {

/// Whether `s` holds `info`.
pub open spec fn set_of(s: Seq<ComponentInfo>) -> Set<ComponentInfo> {
    s.to_set()
}

/// The component sets a query asks for, one per alternative.
pub struct ComponentSetRequest {
    sets: Vec<Vec<ComponentInfo>>,
}

fn contains_info(v: &Vec<ComponentInfo>, info: &ComponentInfo) -> (b: bool)
    ensures
        b == v@.contains(*info),
{
    let mut i: usize = 0;
    while i < v.len()
        invariant
            0 <= i <= v@.len(),
            forall|k: int| 0 <= k < i ==> v@[k] != *info,
        decreases v@.len() - i,
    {
        if v[i] == *info {
            return true;
        }
        i = i + 1;
    }
    false
}

fn insert_info(v: &mut Vec<ComponentInfo>, info: ComponentInfo)
    ensures
        set_of(final(v)@) == set_of(old(v)@).insert(info),
{
    if !contains_info(v, &info) {
        v.push(info);
        proof {
            assert(set_of(v@) =~= set_of(old(v)@).insert(info)) by {
                assert forall|x: ComponentInfo| set_of(v@).contains(x) <==> set_of(old(v)@).insert(info).contains(x) by {
                    if v@.contains(x) && x != info {
                        let k = v@.index_of(x);
                        assert(old(v)@[k] == x);
                    }
                    if old(v)@.contains(x) {
                        let k = old(v)@.index_of(x);
                        assert(v@[k] == x);
                    }
                    assert(v@[v@.len() - 1] == info);
                }
            }
        }
    } else {
        assert(set_of(v@) =~= set_of(old(v)@).insert(info));
    }
}

fn remove_info(v: &mut Vec<ComponentInfo>, info: &ComponentInfo)
    ensures
        set_of(final(v)@) == set_of(old(v)@).remove(*info),
{
    let mut kept: Vec<ComponentInfo> = Vec::new();
    let mut i: usize = 0;
    while i < v.len()
        invariant
            0 <= i <= v@.len(),
            v@ == old(v)@,
            forall|x: ComponentInfo| #[trigger] kept@.contains(x) <==> (v@.subrange(0, i as int).contains(x) && x != *info),
        decreases v@.len() - i,
    {
        let c = v[i];
        let ghost k0 = kept@;
        if c != *info {
            kept.push(c);
        }
        proof {
            assert forall|x: ComponentInfo| #[trigger] kept@.contains(x) <==> (v@.subrange(0, i + 1).contains(x) && x != *info) by {
                if v@.subrange(0, i + 1).contains(x) {
                    let k = v@.subrange(0, i + 1).index_of(x);
                    if k < i {
                        assert(v@.subrange(0, i as int)[k] == x);
                    }
                }
                if v@.subrange(0, i as int).contains(x) {
                    let k = v@.subrange(0, i as int).index_of(x);
                    assert(v@.subrange(0, i + 1)[k] == x);
                }
                assert(v@.subrange(0, i + 1)[i as int] == c);
                if kept@.contains(x) && c != *info && x != c {
                    let k = kept@.index_of(x);
                    assert(k0[k] == x);
                }
                if k0.contains(x) && c != *info {
                    let k = k0.index_of(x);
                    assert(kept@[k] == x);
                }
                if c != *info {
                    assert(kept@[kept@.len() - 1] == c);
                }
            }
        }
        i = i + 1;
    }
    proof {
        assert(v@.subrange(0, i as int) =~= old(v)@);
        assert(set_of(kept@) =~= set_of(old(v)@).remove(*info));
    }
    *v = kept;
}

impl ComponentSetRequest {
    /// The sets asked for, in order.
    pub closed spec fn spec_sets(&self) -> Seq<Set<ComponentInfo>> {
        self.sets@.map_values(|s: Vec<ComponentInfo>| set_of(s@))
    }

    /// No set asked for.
    pub fn new() -> (r: Self)
        ensures
            r.spec_sets() == Seq::<Set<ComponentInfo>>::empty(),
    {
        let r = ComponentSetRequest { sets: Vec::new() };
        assert(r.spec_sets() =~= Seq::<Set<ComponentInfo>>::empty());
        r
    }

    /// A proxy that adds to the request from its first set on.
    pub fn proxy<'a>(&'a mut self) -> (p: ComponentSetRequestProxy<'a>)
        ensures
            p.spec_cursor() == 0,
            p.spec_request() == *old(self),
    {
        ComponentSetRequestProxy::new(self)
    }

    /// The sets, as lists of component information.
    pub fn component_sets(&self) -> (sets: &Vec<Vec<ComponentInfo>>)
        ensures
            sets@.map_values(|s: Vec<ComponentInfo>| set_of(s@)) == self.spec_sets(),
    {
        &self.sets
    }

    /// Puts `info` into the set at `cursor`; past the last set, into a new
    /// last set that starts as a copy of the first one (or empty).
    pub fn require_at(&mut self, cursor: usize, info: ComponentInfo)
        ensures
            final(self).spec_sets() == if cursor < old(self).spec_sets().len() {
                old(self).spec_sets().update(cursor as int, old(self).spec_sets()[cursor as int].insert(info))
            } else {
                old(self).spec_sets().push(
                    if old(self).spec_sets().len() > 0 { old(self).spec_sets()[0] } else { Set::<ComponentInfo>::empty() }.insert(info),
                )
            },
    {
        if cursor < self.sets.len() {
            insert_info(&mut self.sets[cursor], info);
            proof {
                assert(self.spec_sets() =~= old(self).spec_sets().update(cursor as int, old(self).spec_sets()[cursor as int].insert(info)));
            }
        } else {
            let mut set = if self.sets.len() > 0 {
                vstd::slice::slice_to_vec(self.sets[0].as_slice())
            } else {
                Vec::new()
            };
            proof {
                if old(self).sets@.len() == 0 {
                    assert(set_of(set@) =~= Set::<ComponentInfo>::empty());
                }
            }
            insert_info(&mut set, info);
            self.sets.push(set);
            proof {
                assert(self.spec_sets() =~= old(self).spec_sets().push(
                    if old(self).spec_sets().len() > 0 { old(self).spec_sets()[0] } else { Set::<ComponentInfo>::empty() }.insert(info),
                ));
            }
        }
    }

    /// Takes `info` out of every set.
    pub fn exclude_all(&mut self, info: &ComponentInfo)
        ensures
            final(self).spec_sets().len() == old(self).spec_sets().len(),
            forall|k: int| 0 <= k < old(self).spec_sets().len() ==> #[trigger] final(self).spec_sets()[k] == old(self).spec_sets()[k].remove(*info),
    {
        let mut i: usize = 0;
        while i < self.sets.len()
            invariant
                0 <= i <= self.sets@.len(),
                self.sets@.len() == old(self).sets@.len(),
                forall|k: int| 0 <= k < i ==> #[trigger] set_of(self.sets@[k]@) == set_of(old(self).sets@[k]@).remove(*info),
                forall|k: int| i <= k < self.sets@.len() ==> #[trigger] self.sets@[k] == old(self).sets@[k],
            decreases self.sets@.len() - i,
        {
            remove_info(&mut self.sets[i], info);
            i = i + 1;
        }
    }
}

/// Adds to a request from one of its sets on.
pub struct ComponentSetRequestProxy<'a> {
    request: &'a mut ComponentSetRequest,
    cursor: usize,
}

impl<'a> ComponentSetRequestProxy<'a> {
    pub closed spec fn spec_request(&self) -> ComponentSetRequest {
        *self.request
    }

    pub closed spec fn spec_cursor(&self) -> usize {
        self.cursor
    }

    pub fn new(request: &'a mut ComponentSetRequest) -> (p: Self)
        ensures
            p.spec_cursor() == 0,
            p.spec_request() == *old(request),
    {
        ComponentSetRequestProxy { request, cursor: 0usize }
    }

    /// Moves to the next set.
    pub fn next(&mut self)
        requires
            old(self).spec_cursor() < usize::MAX,
        ensures
            final(self).spec_cursor() == old(self).spec_cursor() + 1,
            final(self).spec_request() == old(self).spec_request(),
    {
        self.cursor = self.cursor + 1;
    }

    /// Puts `info` into the current set (see `require_at`) and moves to the
    /// next set.
    pub fn require(&mut self, info: ComponentInfo)
        requires
            old(self).spec_cursor() < usize::MAX,
        ensures
            final(self).spec_cursor() == old(self).spec_cursor() + 1,
            final(self).spec_request().spec_sets() == if old(self).spec_cursor() < old(self).spec_request().spec_sets().len() {
                old(self).spec_request().spec_sets().update(
                    old(self).spec_cursor() as int,
                    old(self).spec_request().spec_sets()[old(self).spec_cursor() as int].insert(info),
                )
            } else {
                old(self).spec_request().spec_sets().push(
                    if old(self).spec_request().spec_sets().len() > 0 {
                        old(self).spec_request().spec_sets()[0]
                    } else {
                        Set::<ComponentInfo>::empty()
                    }.insert(info),
                )
            },
    {
        self.request.require_at(self.cursor, info);
        self.cursor = self.cursor + 1;
    }

    /// Takes `info` out of every set of the request.
    pub fn exclude(&mut self, info: &ComponentInfo)
        ensures
            final(self).spec_cursor() == old(self).spec_cursor(),
            final(self).spec_request().spec_sets().len() == old(self).spec_request().spec_sets().len(),
            forall|k: int| 0 <= k < old(self).spec_request().spec_sets().len() ==> #[trigger] final(self).spec_request().spec_sets()[k]
                == old(self).spec_request().spec_sets()[k].remove(*info),
    {
        self.request.exclude_all(info);
    }
}

/// Where the entities matching one set of a request live: the table of the
/// set's dense components and the columns of its sparse ones.
pub struct MatchedArchetype {
    dense_id: TableId,
    sparse_ids: Vec<ComponentId>,
}

impl MatchedArchetype {
    pub closed spec fn spec_dense_id(&self) -> TableId {
        self.dense_id
    }

    pub closed spec fn spec_sparse_ids(&self) -> Seq<ComponentId> {
        self.sparse_ids@
    }

    pub fn new(dense_id: TableId, sparse_ids: Vec<ComponentId>) -> (m: Self)
        ensures
            m.spec_dense_id() == dense_id,
            m.spec_sparse_ids() == sparse_ids@,
    {
        MatchedArchetype { dense_id, sparse_ids }
    }

    pub fn dense_id(&self) -> (id: TableId)
        ensures
            id == self.spec_dense_id(),
    {
        self.dense_id
    }

    pub fn sparse_ids(&self) -> (ids: &[ComponentId])
        ensures
            ids@ == self.spec_sparse_ids(),
    {
        self.sparse_ids.as_slice()
    }
}

/// Whether `set` has a component with id `x` and policy `policy`.
pub open spec fn has_id_with_policy(set: Set<ComponentInfo>, x: ComponentId, policy: StoragePolicy) -> bool {
    exists|c: ComponentInfo| #[trigger] set.contains(c) && c.spec_storage_policy() == policy && c.spec_id() == x
}

/// For every set of `request`, the table of its dense components (created
/// if missing) and the ids of its sparse components, each given a column.
pub fn matched_archetypes(world: &mut World, request: &ComponentSetRequest) -> (r: Vec<MatchedArchetype>)
    requires
        old(world).wf(),
        forall|i: int, c: ComponentInfo| 0 <= i < request.spec_sets().len() && #[trigger] request.spec_sets()[i].contains(c)
            ==> c.spec_id().spec_index() < old(world).spec_components()@.len()
                && c == old(world).spec_components()@[c.spec_id().spec_index() as int],
        old(world).spec_storages().spec_tables().spec_tables().len() + request.spec_sets().len() < usize::MAX,
    ensures
        final(world).wf(),
        r@.len() == request.spec_sets().len(),
        forall|i: int| 0 <= i < r@.len() ==> {
            let m = #[trigger] r@[i];
            let tables = final(world).spec_storages().spec_tables();
            &&& m.spec_dense_id().spec_index() < tables.spec_keys().len()
            &&& forall|x: ComponentId| #[trigger] tables.spec_keys()[m.spec_dense_id().spec_index() as int].contains(x)
                <==> has_id_with_policy(request.spec_sets()[i], x, StoragePolicy::Dense)
            &&& strictly_sorted(tables.spec_keys()[m.spec_dense_id().spec_index() as int])
            &&& forall|x: ComponentId| #[trigger] m.spec_sparse_ids().contains(x)
                <==> has_id_with_policy(request.spec_sets()[i], x, StoragePolicy::Sparse)
            &&& forall|x: ComponentId| #[trigger] m.spec_sparse_ids().contains(x)
                ==> final(world).spec_storages().spec_columns().spec_ids().contains(x)
        },
        final(world).spec_components() == old(world).spec_components(),
        final(world).spec_entities() == old(world).spec_entities(),
        final(world).spec_archetypes() == old(world).spec_archetypes(),
{
    let sets = request.component_sets();
    let mut out: Vec<MatchedArchetype> = Vec::new();
    let mut i: usize = 0;
    while i < sets.len()
        invariant
            0 <= i <= sets@.len(),
            sets@.map_values(|s: Vec<ComponentInfo>| set_of(s@)) == request.spec_sets(),
            world.wf(),
            world.spec_components() == old(world).spec_components(),
            forall|i: int, c: ComponentInfo| 0 <= i < request.spec_sets().len() && #[trigger] request.spec_sets()[i].contains(c)
                ==> c.spec_id().spec_index() < old(world).spec_components()@.len()
                    && c == old(world).spec_components()@[c.spec_id().spec_index() as int],
            world.spec_storages().spec_tables().spec_tables().len() + (sets@.len() - i) < usize::MAX,
            out@.len() == i,
            forall|k: int| 0 <= k < i ==> {
                let m = #[trigger] out@[k];
                let tables = world.spec_storages().spec_tables();
                &&& m.spec_dense_id().spec_index() < tables.spec_keys().len()
                &&& forall|x: ComponentId| #[trigger] tables.spec_keys()[m.spec_dense_id().spec_index() as int].contains(x)
                    <==> has_id_with_policy(request.spec_sets()[k], x, StoragePolicy::Dense)
                &&& forall|x: ComponentId| #[trigger] m.spec_sparse_ids().contains(x)
                    <==> has_id_with_policy(request.spec_sets()[k], x, StoragePolicy::Sparse)
                &&& forall|x: ComponentId| #[trigger] m.spec_sparse_ids().contains(x)
                    ==> world.spec_storages().spec_columns().spec_ids().contains(x)
            },
            world.spec_entities() == old(world).spec_entities(),
            world.spec_archetypes() == old(world).spec_archetypes(),
        decreases sets@.len() - i,
    {
        let set = &sets[i];
        let ghost setv = set@;
        proof {
            assert(request.spec_sets()[i as int] == set_of(setv));
        }
        let mut dense: Vec<ComponentId> = Vec::new();
        let mut sparse: Vec<ComponentId> = Vec::new();
        let ghost tables_before = world.spec_storages().spec_tables();
        let ghost columns_before = world.spec_storages().spec_columns();
        let mut j: usize = 0;
        while j < set.len()
            invariant
                0 <= j <= setv.len(),
                set@ == setv,
                request.spec_sets()[i as int] == set_of(setv),
                0 <= i < request.spec_sets().len(),
                world.wf(),
                world.spec_components() == old(world).spec_components(),
                world.spec_entities() == old(world).spec_entities(),
                world.spec_archetypes() == old(world).spec_archetypes(),
                forall|i: int, c: ComponentInfo| 0 <= i < request.spec_sets().len() && #[trigger] request.spec_sets()[i].contains(c)
                    ==> c.spec_id().spec_index() < old(world).spec_components()@.len()
                        && c == old(world).spec_components()@[c.spec_id().spec_index() as int],
                world.spec_storages().spec_tables() == tables_before,
                forall|x: ComponentId| #[trigger] columns_before.spec_ids().contains(x)
                    ==> world.spec_storages().spec_columns().spec_ids().contains(x),
                forall|x: ComponentId| #[trigger] dense@.contains(x) <==> has_id_with_policy(set_of(setv.subrange(0, j as int)), x, StoragePolicy::Dense),
                forall|x: ComponentId| #[trigger] sparse@.contains(x) <==> has_id_with_policy(set_of(setv.subrange(0, j as int)), x, StoragePolicy::Sparse),
                forall|x: ComponentId| #[trigger] sparse@.contains(x) ==> world.spec_storages().spec_columns().spec_ids().contains(x),
                forall|x: ComponentId| #[trigger] dense@.contains(x) ==> x.spec_index() < old(world).spec_components()@.len(),
            decreases setv.len() - j,
        {
            let c = set[j];
            let ghost d0 = dense@;
            let ghost s0 = sparse@;
            let ghost w0 = *world;
            proof {
                assert(setv.contains(c));
                assert(set_of(setv).contains(c));
            }
            match *c.storage_policy() {
                StoragePolicy::Dense => dense.push(c.id()),
                StoragePolicy::Sparse => {
                    world.storages_mut().columns_mut().get_or_create_column(&c);
                    proof {
                        let oc = w0.spec_storages().spec_columns();
                        let nc = world.spec_storages().spec_columns();
                        assert(nc.spec_ids().contains(c.spec_id())) by {
                            if oc.spec_ids().contains(c.spec_id()) {
                            } else {
                                assert(nc.spec_ids()[oc.spec_ids().len() as int] == c.spec_id());
                            }
                        }
                        assert forall|k: int| 0 <= k < nc.spec_columns().len() implies (#[trigger] nc.spec_columns()[k]).wf() by {
                            if !oc.spec_ids().contains(c.spec_id()) && k == oc.spec_columns().len() {
                            }
                        }
                        assert(nc.spec_ids().no_duplicates()) by {
                            if !oc.spec_ids().contains(c.spec_id()) {
                                assert forall|a: int, b: int| 0 <= a < b < nc.spec_ids().len() implies nc.spec_ids()[a] != nc.spec_ids()[b] by {
                                    if b == oc.spec_ids().len() {
                                        assert(oc.spec_ids().contains(oc.spec_ids()[a]));
                                    }
                                }
                            }
                        }
                        assert(world.spec_storages().wf());
                        let comps = world.spec_components()@;
                        assert forall|k: int| 0 <= k < nc.spec_ids().len() implies {
                            &&& (#[trigger] nc.spec_ids()[k]).spec_index() < comps.len()
                            &&& nc.spec_columns()[k].spec_info() == comps[nc.spec_ids()[k].spec_index() as int].spec_type_info()
                        } by {
                            if !oc.spec_ids().contains(c.spec_id()) && k == oc.spec_ids().len() {
                                assert(nc.spec_ids()[k] == c.spec_id());
                            }
                        }
                        assert(world.columns_registered());
                        assert forall|x: ComponentId| #[trigger] oc.spec_ids().contains(x) implies nc.spec_ids().contains(x) by {
                            let k = oc.spec_ids().index_of(x);
                            assert(nc.spec_ids()[k] == x);
                        }
                    }
                    sparse.push(c.id());
                },
            }
            proof {
                let pre = setv.subrange(0, j as int);
                let post = setv.subrange(0, j + 1);
                assert(post =~= pre.push(c));
                assert forall|y: ComponentInfo| set_of(post).contains(y) <==> (set_of(pre).contains(y) || y == c) by {
                    if post.contains(y) {
                        let k = post.index_of(y);
                        if k < j {
                            assert(pre[k] == y);
                        }
                    }
                    if pre.contains(y) {
                        let k = pre.index_of(y);
                        assert(post[k] == y);
                    }
                    assert(post[j as int] == c);
                }
                assert forall|x: ComponentId| #[trigger] dense@.contains(x) <==> has_id_with_policy(set_of(post), x, StoragePolicy::Dense) by {
                    if dense@.contains(x) {
                        if d0.contains(x) {
                            let w = choose|w: ComponentInfo| #[trigger] set_of(pre).contains(w) && w.spec_storage_policy() == StoragePolicy::Dense && w.spec_id() == x;
                            assert(set_of(post).contains(w));
                        } else {
                            assert(set_of(post).contains(c));
                        }
                    }
                    if has_id_with_policy(set_of(post), x, StoragePolicy::Dense) {
                        let w = choose|w: ComponentInfo| #[trigger] set_of(post).contains(w) && w.spec_storage_policy() == StoragePolicy::Dense && w.spec_id() == x;
                        if w == c {
                            assert(dense@[dense@.len() - 1] == x);
                        } else {
                            assert(set_of(pre).contains(w));
                            assert(d0.contains(x));
                            let k = d0.index_of(x);
                            assert(dense@[k] == x);
                        }
                    }
                }
                assert forall|x: ComponentId| #[trigger] sparse@.contains(x) <==> has_id_with_policy(set_of(post), x, StoragePolicy::Sparse) by {
                    if sparse@.contains(x) {
                        if s0.contains(x) {
                            let w = choose|w: ComponentInfo| #[trigger] set_of(pre).contains(w) && w.spec_storage_policy() == StoragePolicy::Sparse && w.spec_id() == x;
                            assert(set_of(post).contains(w));
                        } else {
                            assert(set_of(post).contains(c));
                        }
                    }
                    if has_id_with_policy(set_of(post), x, StoragePolicy::Sparse) {
                        let w = choose|w: ComponentInfo| #[trigger] set_of(post).contains(w) && w.spec_storage_policy() == StoragePolicy::Sparse && w.spec_id() == x;
                        if w == c {
                            assert(sparse@[sparse@.len() - 1] == x);
                        } else {
                            assert(set_of(pre).contains(w));
                            assert(s0.contains(x));
                            let k = s0.index_of(x);
                            assert(sparse@[k] == x);
                        }
                    }
                }
                assert forall|x: ComponentId| #[trigger] sparse@.contains(x) implies world.spec_storages().spec_columns().spec_ids().contains(x) by {
                    if s0.contains(x) {
                        assert(w0.spec_storages().spec_columns().spec_ids().contains(x));
                        let k = w0.spec_storages().spec_columns().spec_ids().index_of(x);
                        assert(world.spec_storages().spec_columns().spec_ids()[k] == x);
                    }
                }
                assert forall|x: ComponentId| #[trigger] dense@.contains(x) implies x.spec_index() < old(world).spec_components()@.len() by {
                    if d0.contains(x) {
                    } else {
                        assert(x == c.spec_id());
                    }
                }
            }
            j = j + 1;
        }
        proof {
            assert(setv.subrange(0, j as int) =~= setv);
        }
        let no_ids: Vec<ComponentId> = Vec::new();
        let key = sorted_union(dense.as_slice(), no_ids.as_slice());
        let ghost w1 = *world;
        let table_id = world.storages_mut().tables_mut().get_or_insert_table(key.as_slice());
        proof {
            let t1 = w1.spec_storages().spec_tables();
            let t2 = world.spec_storages().spec_tables();
            assert(t2.spec_keys().len() >= t1.spec_keys().len());
            assert forall|q: int| 0 <= q < t1.spec_keys().len() implies #[trigger] t2.spec_keys()[q] == t1.spec_keys()[q] by {
                if t2.spec_keys().len() > t1.spec_keys().len() {
                    assert(t2.spec_keys() == t1.spec_keys().push(key@));
                }
            }
            assert forall|x: ComponentId| #[trigger] key@.contains(x) <==> dense@.contains(x) by {
            }
            let archs = world.spec_archetypes().spec_archetypes();
            assert forall|q: int| 0 <= q < archs.len() implies {
                let a = #[trigger] archs[q];
                &&& a.spec_table_id().spec_index() < t2.spec_tables().len()
                &&& forall|k: int| 0 <= k < a.spec_component_ids().len() ==> (#[trigger] a.spec_component_ids()[k]).spec_index() < world.spec_components()@.len()
                &&& forall|k: int| 0 <= k < a.spec_column_ids().len() ==> (#[trigger] a.spec_column_ids()[k]).spec_index() < world.spec_components()@.len()
                &&& forall|x: ComponentId| #[trigger] a.spec_component_ids().contains(x) <==> (
                    t2.spec_keys()[a.spec_table_id().spec_index() as int].contains(x) || a.spec_column_ids().contains(x))
            } by {
                let a = archs[q];
                assert(t2.spec_keys()[a.spec_table_id().spec_index() as int] == t1.spec_keys()[a.spec_table_id().spec_index() as int]);
            }
            assert forall|t: int, k: int| 0 <= t < t2.spec_keys().len() && 0 <= k < t2.spec_keys()[t].len() implies
                (#[trigger] t2.spec_keys()[t][k]).spec_index() < world.spec_components()@.len() by {
                if t < t1.spec_keys().len() {
                    assert(t2.spec_keys()[t] == t1.spec_keys()[t]);
                } else {
                    assert(t2.spec_keys()[t] == key@);
                    assert(key@.contains(key@[k]));
                }
            }
            let tb1 = t1.spec_tables();
            let tb2 = t2.spec_tables();
            assert forall|t: int, k: int| 0 <= t < tb2.len() && 0 <= k < tb2[t].spec_columns().len() implies {
                &&& (#[trigger] tb2[t].spec_components()[k]).spec_index() < world.spec_components()@.len()
                &&& tb2[t].spec_columns()[k].spec_info() == world.spec_components()@[tb2[t].spec_components()[k].spec_index() as int].spec_type_info()
                &&& world.spec_components()@[tb2[t].spec_components()[k].spec_index() as int].spec_storage_policy() == StoragePolicy::Dense
            } by {
                if tb2.len() == tb1.len() {
                    assert(tb2 == tb1);
                } else if t < tb1.len() {
                    assert(tb2.subrange(0, tb1.len() as int)[t] == tb1[t]);
                } else {
                    assert(tb2[t].spec_columns().len() == 0);
                }
            }
            assert(world.wf());
        }
        let m = MatchedArchetype::new(table_id, sparse);
        let ghost out0 = out@;
        out.push(m);
        proof {
            let t1 = w1.spec_storages().spec_tables();
            let t2 = world.spec_storages().spec_tables();
            assert forall|k: int| 0 <= k < i + 1 implies {
                let m = #[trigger] out@[k];
                let tables = world.spec_storages().spec_tables();
                &&& m.spec_dense_id().spec_index() < tables.spec_keys().len()
                &&& forall|x: ComponentId| #[trigger] tables.spec_keys()[m.spec_dense_id().spec_index() as int].contains(x)
                    <==> has_id_with_policy(request.spec_sets()[k], x, StoragePolicy::Dense)
                &&& forall|x: ComponentId| #[trigger] m.spec_sparse_ids().contains(x)
                    <==> has_id_with_policy(request.spec_sets()[k], x, StoragePolicy::Sparse)
                &&& forall|x: ComponentId| #[trigger] m.spec_sparse_ids().contains(x)
                    ==> world.spec_storages().spec_columns().spec_ids().contains(x)
            } by {
                if k < i {
                    let mm = out0[k];
                    assert(out@[k] == mm);
                    assert forall|x: ComponentId| #[trigger] mm.spec_sparse_ids().contains(x) implies world.spec_storages().spec_columns().spec_ids().contains(x) by {
                        assert(columns_before.spec_ids().contains(x));
                    }
                    assert(t2.spec_keys()[mm.spec_dense_id().spec_index() as int] == t1.spec_keys()[mm.spec_dense_id().spec_index() as int]);
                }
            }
        }
        i = i + 1;
    }
    out
}

/// The entities of table `id` of `world`, in row order; none if there is
/// no such table or it has no column.
pub open spec fn table_entities(world: World, id: TableId) -> Seq<EntityId> {
    let tables = world.spec_storages().spec_tables().spec_tables();
    if id.spec_index() < tables.len() && tables[id.spec_index() as int].spec_columns().len() > 0 {
        tables[id.spec_index() as int].spec_columns()[0].spec_entities()
    } else {
        Seq::<EntityId>::empty()
    }
}

/// Whether `e` has every sparse component of `m` and passes the filters of
/// `excluded`: as the engine's `Without` filter decides, a component with a
/// sparse column passes the entities that column holds, and one without a
/// column passes every entity.
pub open spec fn passes(world: World, m: MatchedArchetype, excluded: Seq<ComponentId>, e: EntityId) -> bool {
    let cols = world.spec_storages().spec_columns();
    &&& forall|k: int| 0 <= k < m.spec_sparse_ids().len() ==> cols.spec_ids().contains(#[trigger] m.spec_sparse_ids()[k])
        && cols.column_of(m.spec_sparse_ids()[k]).spec_entities().contains(e)
    &&& forall|k: int| 0 <= k < excluded.len() && cols.spec_ids().contains(#[trigger] excluded[k])
        ==> cols.column_of(excluded[k]).spec_entities().contains(e)
}

/// Whether the walk of a query, at position `p` of matched archetype `a`,
/// runs without failing: each archetype it reaches names an existing table,
/// and it never stands past the end of a table's rows. The walk goes through
/// the rows of one table, and at the end of a table moves to the next
/// archetype keeping its position; it stops at a passing entity or at the
/// end of the last archetype's table.
pub open spec fn walk_safe(world: World, matched: Seq<MatchedArchetype>, excluded: Seq<ComponentId>, a: int, p: int) -> bool
    decreases matched.len() - a, table_entities(world, matched[a].spec_dense_id()).len() - p,
{
    let tables = world.spec_storages().spec_tables().spec_tables();
    if !(0 <= a < matched.len()) || matched[a].spec_dense_id().spec_index() >= tables.len() {
        false
    } else {
        let rows = table_entities(world, matched[a].spec_dense_id());
        if p > rows.len() || p < 0 {
            false
        } else if p == rows.len() {
            if a == matched.len() - 1 {
                true
            } else {
                walk_safe(world, matched, excluded, a + 1, p)
            }
        } else if passes(world, matched[a], excluded, rows[p]) {
            true
        } else {
            walk_safe(world, matched, excluded, a, p + 1)
        }
    }
}

/// Where the walk of a query from position `p` of matched archetype `a`
/// stops: the passing entity it returns, if any, and the archetype and
/// position it is left at.
pub open spec fn walk(world: World, matched: Seq<MatchedArchetype>, excluded: Seq<ComponentId>, a: int, p: int) -> (Option<EntityId>, int, int)
    decreases matched.len() - a, table_entities(world, matched[a].spec_dense_id()).len() - p,
{
    let tables = world.spec_storages().spec_tables().spec_tables();
    if !(0 <= a < matched.len()) || matched[a].spec_dense_id().spec_index() >= tables.len() {
        (None, a, p)
    } else {
        let rows = table_entities(world, matched[a].spec_dense_id());
        if p > rows.len() || p < 0 {
            (None, a, p)
        } else if p == rows.len() {
            if a == matched.len() - 1 {
                (None, a, p)
            } else {
                walk(world, matched, excluded, a + 1, p)
            }
        } else if passes(world, matched[a], excluded, rows[p]) {
            (Some(rows[p]), a, p + 1)
        } else {
            walk(world, matched, excluded, a, p + 1)
        }
    }
}

fn column_holds(columns: &Columns, id: ComponentId, e: &EntityId) -> (b: bool)
    requires
        columns.wf(),
    ensures
        b == (columns.spec_ids().contains(id) && columns.column_of(id).spec_entities().contains(*e)),
{
    match columns.get_column(id) {
        Some(col) => col.contains(e),
        None => false,
    }
}

fn entity_passes(world: &World, m: &MatchedArchetype, excluded: &[ComponentId], e: &EntityId) -> (b: bool)
    requires
        world.wf(),
    ensures
        b == passes(*world, *m, excluded@, *e),
{
    let columns = world.storages().columns();
    let ids = m.sparse_ids();
    let mut k: usize = 0;
    while k < ids.len()
        invariant
            0 <= k <= ids@.len(),
            columns.wf(),
            *columns == world.spec_storages().spec_columns(),
            ids@ == m.spec_sparse_ids(),
            forall|q: int| 0 <= q < k ==> columns.spec_ids().contains(#[trigger] ids@[q]) && columns.column_of(ids@[q]).spec_entities().contains(*e),
        decreases ids@.len() - k,
    {
        if !column_holds(columns, ids[k], e) {
            return false;
        }
        k = k + 1;
    }
    let mut q: usize = 0;
    while q < excluded.len()
        invariant
            0 <= q <= excluded@.len(),
            columns.wf(),
            *columns == world.spec_storages().spec_columns(),
            forall|r: int| 0 <= r < q && columns.spec_ids().contains(#[trigger] excluded@[r])
                ==> columns.column_of(excluded@[r]).spec_entities().contains(*e),
        decreases excluded@.len() - q,
    {
        if columns.has_column(&excluded[q]) && !column_holds(columns, excluded[q], e) {
            return false;
        }
        q = q + 1;
    }
    true
}

/// A walk over the entities of matched archetypes: the archetype it is at
/// and the position within that archetype's table.
pub struct QueryIterator {
    archetype_index: usize,
    pos: usize,
}

impl QueryIterator {
    pub closed spec fn spec_archetype_index(&self) -> usize {
        self.archetype_index
    }

    pub closed spec fn spec_pos(&self) -> usize {
        self.pos
    }

    /// A walk from the first position of the first archetype.
    pub fn new() -> (it: Self)
        ensures
            it.spec_archetype_index() == 0,
            it.spec_pos() == 0,
    {
        QueryIterator { archetype_index: 0usize, pos: 0usize }
    }

    /// The next entity of the walk (see `walk`): from the current position,
    /// the first row that has the archetype's sparse components and passes
    /// the filters of `excluded` (see `passes`); at the end of a table the
    /// walk moves to the next archetype and keeps its position; `None` at
    /// the end of the last archetype's table, where the walk stays.
    pub fn next(&mut self, world: &World, matched: &[MatchedArchetype], excluded: &[ComponentId]) -> (r: Option<EntityId>)
        requires
            world.wf(),
            walk_safe(*world, matched@, excluded@, old(self).spec_archetype_index() as int, old(self).spec_pos() as int),
        ensures
            walk(*world, matched@, excluded@, old(self).spec_archetype_index() as int, old(self).spec_pos() as int)
                == (r, final(self).spec_archetype_index() as int, final(self).spec_pos() as int),
    {
        let ghost target = walk(*world, matched@, excluded@, self.archetype_index as int, self.pos as int);
        let tables = world.storages().tables();
        loop
            invariant
                world.wf(),
                *tables == world.spec_storages().spec_tables(),
                walk_safe(*world, matched@, excluded@, self.archetype_index as int, self.pos as int),
                walk(*world, matched@, excluded@, self.archetype_index as int, self.pos as int) == target,
                target == walk(*world, matched@, excluded@, old(self).spec_archetype_index() as int, old(self).spec_pos() as int),
            decreases matched@.len() - self.archetype_index,
                table_entities(*world, matched@[self.archetype_index as int].spec_dense_id()).len() - self.pos,
        {
            let m = &matched[self.archetype_index];
            let entities: &[EntityId] = match tables.get_table(m.dense_id()) {
                Some(table) => table.entities(),
                None => vstd::pervasive::unreached(),
            };
            assert(entities@ == table_entities(*world, m.spec_dense_id()));
            if self.pos == entities.len() {
                if self.archetype_index == matched.len() - 1 {
                    assert(walk(*world, matched@, excluded@, self.archetype_index as int, self.pos as int)
                        == (None::<EntityId>, self.archetype_index as int, self.pos as int));
                    return None;
                }
                self.archetype_index = self.archetype_index + 1;
            } else {
                let e = entities[self.pos];
                let ghost p = self.pos as int;
                self.pos = self.pos + 1;
                if entity_passes(world, m, excluded, &e) {
                    assert(walk(*world, matched@, excluded@, self.archetype_index as int, p)
                        == (Some(e), self.archetype_index as int, p + 1));
                    return Some(e);
                }
            }
        }
    }
}

/// The value of component `id` of `entity`, read where a query reads it:
/// from table `table_id` for a dense component, from the component's sparse
/// column otherwise; `None` if the entity has none there.
pub fn fetch(world: &World, table_id: TableId, entity: &EntityId, id: ComponentId) -> (r: Option<Vec<u8>>)
    requires
        world.wf(),
        table_id.spec_index() < world.spec_storages().spec_tables().spec_tables().len(),
        id.spec_index() < world.spec_components()@.len(),
    ensures
        match r {
            Some(v) => stored_value(*world, table_id, *entity, id) == Some(v@),
            None => stored_value(*world, table_id, *entity, id) is None,
        },
{
    let info = world.components().get_component_info(id);
    match info.storage_policy() {
        StoragePolicy::Dense => {
            match world.storages().tables().get_table(table_id) {
                Some(table) => match table.get_column(id) {
                    Some(column) => {
                        proof {
                            let k = table.spec_components().index_of(id);
                            assert(table.spec_columns()[k].wf());
                        }
                        column.get_data(entity)
                    },
                    None => None,
                },
                None => None,
            }
        },
        StoragePolicy::Sparse => {
            match world.storages().columns().get_column(id) {
                Some(column) => {
                    proof {
                        let cols = world.spec_storages().spec_columns();
                        let k = cols.spec_ids().index_of(id);
                        assert(cols.spec_columns()[k].wf());
                    }
                    column.get_data(entity)
                },
                None => None,
            }
        },
    }
}

} // verus!

verus! {

/// The filter of `excluded` is the conjunction of one filter per excluded
/// component: an entity passes exactly when it has every sparse component
/// of `m` and, for each excluded component that has a sparse column, that
/// column holds it.
pub proof fn lemma_passes_every_exclusion(world: World, m: MatchedArchetype, excluded: Seq<ComponentId>, e: EntityId)
    ensures
        passes(world, m, excluded, e) <==> {
            &&& passes(world, m, Seq::<ComponentId>::empty(), e)
            &&& forall|k: int| 0 <= k < excluded.len() ==> passes(world, m, seq![#[trigger] excluded[k]], e)
        },
{
    let cols = world.spec_storages().spec_columns();
    if passes(world, m, excluded, e) {
        assert forall|k: int| 0 <= k < excluded.len() implies passes(world, m, seq![#[trigger] excluded[k]], e) by {
            let one = seq![excluded[k]];
            assert forall|j: int| 0 <= j < one.len() && cols.spec_ids().contains(#[trigger] one[j]) implies
                cols.column_of(one[j]).spec_entities().contains(e) by {
                assert(one[j] == excluded[k]);
            }
        }
    }
    if passes(world, m, Seq::<ComponentId>::empty(), e) && forall|k: int| 0 <= k < excluded.len() ==> passes(
        world,
        m,
        seq![#[trigger] excluded[k]],
        e,
    ) {
        assert forall|k: int| 0 <= k < excluded.len() && cols.spec_ids().contains(#[trigger] excluded[k]) implies
            cols.column_of(excluded[k]).spec_entities().contains(e) by {
            let one = seq![excluded[k]];
            assert(passes(world, m, one, e));
            assert(one[0] == excluded[k]);
        }
    }
}

/// Filters combine by conjunction: an entity passes the exclusions
/// `first + second` exactly when it passes `first` and passes `second`.
pub proof fn lemma_exclusions_combine(
    world: World,
    m: MatchedArchetype,
    first: Seq<ComponentId>,
    second: Seq<ComponentId>,
    e: EntityId,
)
    ensures
        passes(world, m, first + second, e) == (passes(world, m, first, e) && passes(world, m, second, e)),
{
    let cols = world.spec_storages().spec_columns();
    let both = first + second;
    if passes(world, m, both, e) {
        assert forall|k: int| 0 <= k < first.len() && cols.spec_ids().contains(#[trigger] first[k]) implies
            cols.column_of(first[k]).spec_entities().contains(e) by {
            assert(both[k] == first[k]);
        }
        assert forall|k: int| 0 <= k < second.len() && cols.spec_ids().contains(#[trigger] second[k]) implies
            cols.column_of(second[k]).spec_entities().contains(e) by {
            assert(both[first.len() + k] == second[k]);
        }
    }
    if passes(world, m, first, e) && passes(world, m, second, e) {
        assert forall|k: int| 0 <= k < both.len() && cols.spec_ids().contains(#[trigger] both[k]) implies
            cols.column_of(both[k]).spec_entities().contains(e) by {
            if k < first.len() {
                assert(both[k] == first[k]);
            } else {
                assert(both[k] == second[k - first.len()]);
            }
        }
    }
}

/// The order of the excluded components, and repeats among them, do not
/// matter: two lists that hold the same components filter alike.
pub proof fn lemma_exclusion_order_irrelevant(
    world: World,
    m: MatchedArchetype,
    ex1: Seq<ComponentId>,
    ex2: Seq<ComponentId>,
    e: EntityId,
)
    requires
        forall|x: ComponentId| ex1.contains(x) <==> ex2.contains(x),
    ensures
        passes(world, m, ex1, e) == passes(world, m, ex2, e),
{
    if passes(world, m, ex1, e) {
        lemma_exclusions_subset(world, m, ex1, ex2, e);
    }
    if passes(world, m, ex2, e) {
        lemma_exclusions_subset(world, m, ex2, ex1, e);
    }
}

proof fn lemma_exclusions_subset(world: World, m: MatchedArchetype, ex1: Seq<ComponentId>, ex2: Seq<ComponentId>, e: EntityId)
    requires
        forall|x: ComponentId| ex2.contains(x) ==> ex1.contains(x),
        passes(world, m, ex1, e),
    ensures
        passes(world, m, ex2, e),
{
    let cols = world.spec_storages().spec_columns();
    assert forall|k: int| 0 <= k < ex2.len() && cols.spec_ids().contains(#[trigger] ex2[k]) implies
        cols.column_of(ex2[k]).spec_entities().contains(e) by {
        assert(ex2.contains(ex2[k]));
        let j = choose|j: int| 0 <= j < ex1.len() && ex1[j] == ex2[k];
        assert(ex1[j] == ex2[k]);
    }
}

/// Every entity that the walk of a query yields has each sparse component
/// of its archetype, and each excluded component that has a sparse column
/// holds it in that column; it is a row of the table of the archetype
/// where the walk stopped.
pub proof fn lemma_walk_yields_passing(
    world: World,
    matched: Seq<MatchedArchetype>,
    excluded: Seq<ComponentId>,
    a: int,
    p: int,
)
    ensures
        walk(world, matched, excluded, a, p).0 matches Some(e) ==> {
            let cols = world.spec_storages().spec_columns();
            let stop = walk(world, matched, excluded, a, p).1;
            &&& 0 <= stop < matched.len()
            &&& table_entities(world, matched[stop].spec_dense_id()).contains(e)
            &&& forall|k: int| 0 <= k < matched[stop].spec_sparse_ids().len() ==> cols.spec_ids().contains(
                #[trigger] matched[stop].spec_sparse_ids()[k],
            ) && cols.column_of(matched[stop].spec_sparse_ids()[k]).spec_entities().contains(e)
            &&& forall|k: int| 0 <= k < excluded.len() && cols.spec_ids().contains(#[trigger] excluded[k])
                ==> cols.column_of(excluded[k]).spec_entities().contains(e)
        },
    decreases matched.len() - a, table_entities(world, matched[a].spec_dense_id()).len() - p,
{
    let tables = world.spec_storages().spec_tables().spec_tables();
    if !(0 <= a < matched.len()) || matched[a].spec_dense_id().spec_index() >= tables.len() {
    } else {
        let rows = table_entities(world, matched[a].spec_dense_id());
        if p > rows.len() || p < 0 {
        } else if p == rows.len() {
            if a != matched.len() - 1 {
                lemma_walk_yields_passing(world, matched, excluded, a + 1, p);
            }
        } else if passes(world, matched[a], excluded, rows[p]) {
            assert(rows.contains(rows[p]));
        } else {
            lemma_walk_yields_passing(world, matched, excluded, a, p + 1);
        }
    }
}

} // verus!
