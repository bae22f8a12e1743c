use vstd::prelude::*;

use crate::any::TypeInfo;

verus! {

/// How the values of a component are stored: in the columns of a table
/// shared by an archetype (`Dense`), or in a column of their own keyed by
/// entity (`Sparse`).
#[derive(Clone, Copy, Debug, PartialEq, Eq, Structural)]
pub enum StoragePolicy {
    Dense,
    Sparse,
}

/// The storage kinds of the row-packed layout.
#[derive(Clone, Copy, Debug, PartialEq, Eq, Structural)]
pub enum StorageType {
    Archetype,
    SparseSet,
}

/// A type whose values can be attached to entities.
pub trait Component: 'static {
    const STORAGE_POLICY: StoragePolicy;
}

/// Index of a registered component type.
#[derive(Clone, Copy, Debug, PartialEq, Eq, Hash, Structural)]
pub struct ComponentId(usize);

impl ComponentId {
    pub fn new(value: usize) -> (id: Self)
        ensures
            id.spec_index() == value,
    {
        ComponentId(value)
    }

    pub closed spec fn spec_index(self) -> usize {
        self.0
    }

    #[verifier::when_used_as_spec(spec_index)]
    pub fn as_usize(self) -> (value: usize)
        ensures
            value == self.spec_index(),
    {
        self.0
    }

    pub proof fn lemma_index_determines(a: Self, b: Self)
        ensures
            a.spec_index() == b.spec_index() <==> a == b,
    {
    }

    pub broadcast proof fn lemma_index_determines_b(a: Self, b: Self)
        ensures
            #![trigger a.spec_index(), b.spec_index()]
            a.spec_index() == b.spec_index() <==> a == b,
    {
    }
}

/// Whether `ids` holds `id`.
pub fn contains_id(ids: &[ComponentId], id: ComponentId) -> (b: bool)
    ensures
        b == ids@.contains(id),
{
    let mut i: usize = 0;
    while i < ids.len()
        invariant
            0 <= i <= ids@.len(),
            forall|k: int| 0 <= k < i ==> #[trigger] ids@[k] != id,
        decreases ids@.len() - i,
    {
        if ids[i].as_usize() == id.as_usize() {
            proof {
                ComponentId::lemma_index_determines(ids@[i as int], id);
            }
            return true;
        }
        proof {
            ComponentId::lemma_index_determines(ids@[i as int], id);
        }
        i = i + 1;
    }
    false
}

/// What the engine knows of a registered component type.
#[derive(Clone, Copy, Debug, PartialEq, Eq, Structural)]
pub struct ComponentInfo {
    id: ComponentId,
    type_info: TypeInfo,
    storage_policy: StoragePolicy,
}

impl ComponentInfo {
    pub closed spec fn spec_id(&self) -> ComponentId {
        self.id
    }

    pub closed spec fn spec_type_info(&self) -> TypeInfo {
        self.type_info
    }

    pub closed spec fn spec_storage_policy(&self) -> StoragePolicy {
        self.storage_policy
    }

    /// Information on component type `C` registered under `id`.
    pub fn new<C: Component>(id: ComponentId) -> (info: Self)
        ensures
            info.spec_id() == id,
            info.spec_storage_policy() == C::STORAGE_POLICY,
            info.spec_type_info().spec_size() as nat == vstd::layout::size_of::<C>(),
    {
        ComponentInfo { id, type_info: TypeInfo::of::<C>(), storage_policy: C::STORAGE_POLICY }
    }

    /// Information on a component type given by its parts.
    pub fn from_parts(id: ComponentId, type_info: TypeInfo, storage_policy: StoragePolicy) -> (info: Self)
        ensures
            info.spec_id() == id,
            info.spec_type_info() == type_info,
            info.spec_storage_policy() == storage_policy,
    {
        ComponentInfo { id, type_info, storage_policy }
    }

    #[verifier::when_used_as_spec(spec_id)]
    pub fn id(&self) -> (id: ComponentId)
        ensures
            id == self.spec_id(),
    {
        self.id
    }

    pub fn type_info(&self) -> (t: &TypeInfo)
        ensures
            *t == self.spec_type_info(),
    {
        &self.type_info
    }

    pub fn storage_policy(&self) -> (p: &StoragePolicy)
        ensures
            *p == self.spec_storage_policy(),
    {
        &self.storage_policy
    }
}

/// The registry of component types: the `i`th entry describes the type
/// whose id is `i`, and no type key is registered twice.
pub struct Components {
    components: Vec<ComponentInfo>,
}

impl View for Components {
    type V = Seq<ComponentInfo>;

    closed spec fn view(&self) -> Seq<ComponentInfo> {
        self.components@
    }
}

/// Index of the entry of `infos` whose type has key `key`, if any.
pub open spec fn registered_index(infos: Seq<ComponentInfo>, key: u64) -> Option<int> {
    if exists|i: int| 0 <= i < infos.len() && (#[trigger] infos[i]).spec_type_info().spec_id() == key {
        Some(choose|i: int| 0 <= i < infos.len() && (#[trigger] infos[i]).spec_type_info().spec_id() == key)
    } else {
        None
    }
}

/// The id that `infos` registers for key `key`, if any.
pub open spec fn id_for_key(infos: Seq<ComponentInfo>, key: u64) -> Option<ComponentId> {
    match registered_index(infos, key) {
        Some(i) => Some(infos[i].spec_id()),
        None => None,
    }
}

impl Components {
    pub open spec fn wf(&self) -> bool {
        &&& forall|i: int| 0 <= i < self@.len() ==> (#[trigger] self@[i]).spec_id().spec_index() == i
        &&& forall|i: int, j: int|
            0 <= i < j < self@.len() ==> (#[trigger] self@[i]).spec_type_info().spec_id()
                != (#[trigger] self@[j]).spec_type_info().spec_id()
    }

    /// An empty registry.
    pub fn new() -> (c: Self)
        ensures
            c.wf(),
            c@ == Seq::<ComponentInfo>::empty(),
    {
        Components { components: Vec::new() }
    }

    /// Number of registered component types.
    pub fn len(&self) -> (n: usize)
        ensures
            n == self@.len(),
    {
        self.components.len()
    }

    /// Id of the component type with the key of `type_info`, if registered.
    pub fn get_component_id_of(&self, type_info: &TypeInfo) -> (id: Option<ComponentId>)
        requires
            self.wf(),
        ensures
            match registered_index(self@, type_info.spec_id()) {
                Some(i) => id == Some(self@[i].spec_id()),
                None => id is None,
            },
    {
        let mut i: usize = 0;
        while i < self.components.len()
            invariant
                0 <= i <= self@.len(),
                self.wf(),
                forall|k: int| 0 <= k < i ==> (#[trigger] self@[k]).spec_type_info().spec_id()
                    != type_info.spec_id(),
            decreases self@.len() - i,
        {
            if self.components[i].type_info().id() == type_info.id() {
                let ghost r = registered_index(self@, type_info.spec_id());
                proof {
                    assert(self@[i as int].spec_type_info().spec_id() == type_info.spec_id());
                    let j = r->0;
                    assert(0 <= j < self@.len() && self@[j].spec_type_info().spec_id() == type_info.spec_id());
                    if j != i {
                        if j < i {
                        } else {
                            assert(self@[i as int].spec_type_info().spec_id() != self@[j].spec_type_info().spec_id());
                        }
                    }
                }
                return Some(self.components[i].id());
            }
            i = i + 1;
        }
        None
    }

    /// Id of the component type `C`, if registered: the registry's answer for
    /// the key that `TypeInfo::of` gives `C`, of which no more is known than
    /// that it is some key.
    pub fn get_component_id<C: Component>(&self) -> (id: Option<ComponentId>)
        requires
            self.wf(),
        ensures
            id matches Some(c) ==> c.spec_index() < self@.len(),
            exists|key: u64| id == #[trigger] id_for_key(self@, key),
    {
        let info = TypeInfo::of::<C>();
        let r = self.get_component_id_of(&info);
        proof {
            assert(r == id_for_key(self@, info.spec_id()));
            if r is Some {
                let i = registered_index(self@, info.spec_id())->0;
                assert(self@[i].spec_id().spec_index() == i);
            }
        }
        r
    }

    /// Information on the component type `id`.
    pub fn get_component_info(&self, id: ComponentId) -> (info: &ComponentInfo)
        requires
            id.spec_index() < self@.len(),
        ensures
            *info == self@[id.spec_index() as int],
    {
        &self.components[id.as_usize()]
    }

    /// Registers the type described by `type_info` with `storage_policy`,
    /// unless a type with its key is registered already, and returns its id.
    pub fn register_info(&mut self, type_info: TypeInfo, storage_policy: StoragePolicy) -> (id: ComponentId)
        requires
            old(self).wf(),
            old(self)@.len() < usize::MAX,
        ensures
            final(self).wf(),
            match registered_index(old(self)@, type_info.spec_id()) {
                Some(i) => final(self)@ == old(self)@ && id == old(self)@[i].spec_id(),
                None => {
                    &&& id.spec_index() == old(self)@.len()
                    &&& final(self)@ == old(self)@.push(ComponentInfo::from_parts_spec(id, type_info, storage_policy))
                },
            },
    {
        match self.get_component_id_of(&type_info) {
            Some(id) => id,
            None => {
                let id = ComponentId::new(self.components.len());
                let info = ComponentInfo::from_parts(id, type_info, storage_policy);
                self.components.push(info);
                proof {
                    assert forall|k: int| 0 <= k < old(self)@.len() implies
                        (#[trigger] old(self)@[k]).spec_type_info().spec_id() != type_info.spec_id() by {
                        if old(self)@[k].spec_type_info().spec_id() == type_info.spec_id() {
                            assert(registered_index(old(self)@, type_info.spec_id()) is Some);
                        }
                    }
                }
                id
            },
        }
    }

    /// Registers component type `C`, unless registered already, and returns its id.
    pub fn register<C: Component>(&mut self) -> (id: ComponentId)
        requires
            old(self).wf(),
            old(self)@.len() < usize::MAX,
        ensures
            final(self).wf(),
            id.spec_index() < final(self)@.len(),
            final(self)@[id.spec_index() as int].spec_storage_policy() == C::STORAGE_POLICY
                || old(self)@.len() == final(self)@.len(),
            old(self)@.len() <= final(self)@.len() <= old(self)@.len() + 1,
            final(self)@.subrange(0, old(self)@.len() as int) == old(self)@,
            final(self)@.len() > old(self)@.len() ==> final(self)@[old(self)@.len() as int].spec_type_info().spec_size() as nat
                == vstd::layout::size_of::<C>(),
            final(self)@.len() > old(self)@.len() ==> {
                &&& final(self)@[old(self)@.len() as int].spec_storage_policy() == C::STORAGE_POLICY
                &&& id.spec_index() == old(self)@.len()
            },
    {
        let info = TypeInfo::of::<C>();
        let r = self.register_info(info, C::STORAGE_POLICY);
        proof {
            assert(self@.subrange(0, old(self)@.len() as int) =~= old(self)@);
            if let Some(i) = registered_index(old(self)@, info.spec_id()) {
                assert(old(self)@[i].spec_id().spec_index() == i);
            }
        }
        r
    }
}

impl ComponentInfo {
    pub open spec fn from_parts_spec(id: ComponentId, type_info: TypeInfo, storage_policy: StoragePolicy) -> Self {
        ComponentInfo::spec_build(id, type_info, storage_policy)
    }

    pub closed spec fn spec_build(id: ComponentId, type_info: TypeInfo, storage_policy: StoragePolicy) -> Self {
        ComponentInfo { id, type_info, storage_policy }
    }
}


/// Entry `i` of a registry is found again by its type: registering a type
/// twice gives the same id and registers nothing the second time.
pub proof fn lemma_registered_found_again(components: Components, i: int)
    requires
        components.wf(),
        0 <= i < components@.len(),
    ensures
        registered_index(components@, components@[i].spec_type_info().spec_id()) == Some(i),
{
    let infos = components@;
    let key = infos[i].spec_type_info().spec_id();
    assert(infos[i].spec_type_info().spec_id() == key);
    let j = choose|j: int| 0 <= j < infos.len() && (#[trigger] infos[j]).spec_type_info().spec_id() == key;
    if j != i {
        if j < i {
            assert(infos[j].spec_type_info().spec_id() != infos[i].spec_type_info().spec_id());
        } else {
            assert(infos[i].spec_type_info().spec_id() != infos[j].spec_type_info().spec_id());
        }
    }
}

} // verus!
