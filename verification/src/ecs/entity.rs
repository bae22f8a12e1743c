use vstd::prelude::*;

use super::archetype::ArchetypeId;
use super::storage::TableRow;

verus! {

/// Identifier of an entity.
#[derive(Clone, Copy, Debug, PartialEq, Eq, Hash, Structural)]
pub struct EntityId(usize);

impl EntityId {
    pub fn new(value: usize) -> (id: Self)
        ensures
            id.spec_index() == value,
    {
        EntityId(value)
    }

    pub closed spec fn spec_index(self) -> usize {
        self.0
    }

    #[verifier::when_used_as_spec(spec_index)]
    pub fn as_usize(self) -> (value: usize)
        ensures
            value == self.spec_index(),
    {
        self.0
    }

    pub broadcast proof fn lemma_index_determines(a: Self, b: Self)
        ensures
            #![trigger a.spec_index(), b.spec_index()]
            a.spec_index() == b.spec_index() <==> a == b,
    {
    }

    pub proof fn lemma_from_index(a: Self)
        ensures
            EntityId::spec_new(a.spec_index()) == a,
    {
    }

    pub closed spec fn spec_new(value: usize) -> Self {
        EntityId(value)
    }

    pub proof fn lemma_new_index(value: usize)
        ensures
            #[trigger] EntityId::spec_new(value).spec_index() == value,
    {
    }
}

/// Where an entity's components live: its archetype and its row in the
/// archetype's table.
#[derive(Clone, Copy, Debug, PartialEq, Eq, Structural)]
pub struct EntityLocation {
    archetype_id: ArchetypeId,
    table_row: TableRow,
}

impl EntityLocation {
    pub closed spec fn spec_archetype_id(self) -> ArchetypeId {
        self.archetype_id
    }

    pub closed spec fn spec_table_row(self) -> TableRow {
        self.table_row
    }

    pub closed spec fn spec_build(archetype_id: ArchetypeId, table_row: TableRow) -> Self {
        EntityLocation { archetype_id, table_row }
    }

    pub fn new(archetype_id: ArchetypeId, table_row: TableRow) -> (l: Self)
        ensures
            l.spec_archetype_id() == archetype_id,
            l.spec_table_row() == table_row,
            l == EntityLocation::spec_build(archetype_id, table_row),
    {
        EntityLocation { archetype_id, table_row }
    }

    #[verifier::when_used_as_spec(spec_archetype_id)]
    pub fn archetype_id(self) -> (a: ArchetypeId)
        ensures
            a == self.spec_archetype_id(),
    {
        self.archetype_id
    }

    #[verifier::when_used_as_spec(spec_table_row)]
    pub fn table_row(self) -> (r: TableRow)
        ensures
            r == self.spec_table_row(),
    {
        self.table_row
    }
}

/// Calls `std::collections::HashMap::get_mut`: a reference to the value of
/// `key` through which it can be changed, `None` if the map has no such key.
/// Claimed: the reference starts at the key's value, and the map afterwards
/// holds at `key` whatever the reference ends with, the rest unchanged.
#[verifier::external_body]
fn location_get_mut<'a>(
    map: &'a mut std::collections::HashMap<usize, EntityLocation>,
    key: &usize,
) -> (r: Option<&'a mut EntityLocation>)
    ensures
        match r {
            Some(v) => {
                &&& old(map)@.contains_key(*key)
                &&& *v == old(map)@[*key]
                &&& final(map)@ == old(map)@.insert(*key, *final(v))
            },
            None => {
                &&& !old(map)@.contains_key(*key)
                &&& final(map)@ == old(map)@
            },
        },
{
    map.get_mut(key)
}

/// The location of every live entity, keyed by the entity's index.
pub struct Entities {
    locations: std::collections::HashMap<usize, EntityLocation>,
}

impl View for Entities {
    type V = Map<usize, EntityLocation>;

    closed spec fn view(&self) -> Map<usize, EntityLocation> {
        self.locations@
    }
}

impl Entities {
    /// No entity has a location.
    pub fn new() -> (e: Self)
        ensures
            e@ == Map::<usize, EntityLocation>::empty(),
    {
        Entities { locations: std::collections::HashMap::new() }
    }

    /// Whether `id` has a location.
    pub fn contains(&self, id: &EntityId) -> (b: bool)
        ensures
            b == self@.contains_key(id.spec_index()),
    {
        broadcast use vstd::std_specs::hash::group_hash_axioms;
        self.locations.contains_key(&id.as_usize())
    }

    /// The location of `id`, which must have one.
    pub fn get_entity_location(&self, id: &EntityId) -> (l: &EntityLocation)
        requires
            self@.contains_key(id.spec_index()),
        ensures
            *l == self@[id.spec_index()],
    {
        broadcast use vstd::std_specs::hash::group_hash_axioms;
        match self.locations.get(&id.as_usize()) {
            Some(l) => l,
            None => vstd::pervasive::unreached(),
        }
    }

    /// The location of `id`, which must have one, for changing.
    pub fn get_entity_location_mut(&mut self, id: &EntityId) -> (l: &mut EntityLocation)
        requires
            old(self)@.contains_key(id.spec_index()),
        ensures
            *l == old(self)@[id.spec_index()],
            final(self)@ == old(self)@.insert(id.spec_index(), *final(l)),
    {
        match location_get_mut(&mut self.locations, &id.as_usize()) {
            Some(l) => l,
            None => vstd::pervasive::unreached(),
        }
    }

    /// Gives `id` the location `location`, returning the one it had.
    pub fn set_entity_location(&mut self, id: &EntityId, location: EntityLocation) -> (prev: Option<EntityLocation>)
        ensures
            final(self)@ == old(self)@.insert(id.spec_index(), location),
            prev == (if old(self)@.contains_key(id.spec_index()) {
                Some(old(self)@[id.spec_index()])
            } else {
                None
            }),
    {
        broadcast use vstd::std_specs::hash::group_hash_axioms;
        self.locations.insert(id.as_usize(), location)
    }
}

} // verus!
