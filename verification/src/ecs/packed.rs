//! Archetypes that pack all the components of an entity into one row of
//! bytes, the types kept in sorted order.

use vstd::prelude::*;

use crate::any::any_vec::rows_of;
use crate::any::{AnyVec, TypeInfo};

use super::entity::EntityId;
use super::Error;

verus! {

/// Whether `a` orders before or equal to `b`.
pub open spec fn type_le(a: TypeInfo, b: TypeInfo) -> bool {
    !b.precedes(&a)
}

/// Whether `s` is sorted in the order of `TypeInfo::precedes`.
pub open spec fn types_sorted(s: Seq<TypeInfo>) -> bool {
    forall|i: int, j: int| 0 <= i < j < s.len() ==> type_le(#[trigger] s[i], #[trigger] s[j])
}

/// Sum of the sizes of the types of `s`.
pub open spec fn total_size(s: Seq<TypeInfo>) -> nat
    decreases s.len(),
{
    if s.len() == 0 {
        0
    } else {
        total_size(s.drop_last()) + s.last().spec_size() as nat
    }
}

pub proof fn lemma_total_size_prefix(s: Seq<TypeInfo>, i: int)
    requires
        0 <= i < s.len(),
    ensures
        total_size(s.subrange(0, i)) + s[i].spec_size() == total_size(s.subrange(0, i + 1)),
        total_size(s.subrange(0, i + 1)) <= total_size(s),
    decreases s.len() - i,
{
    assert(s.subrange(0, i + 1).drop_last() =~= s.subrange(0, i));
    if i + 1 == s.len() {
        assert(s.subrange(0, i + 1) =~= s);
    } else {
        lemma_total_size_prefix(s, i + 1);
    }
}

pub proof fn lemma_total_size_insert(s: Seq<TypeInfo>, i: int, t: TypeInfo)
    requires
        0 <= i <= s.len(),
    ensures
        total_size(s.insert(i, t)) == total_size(s) + t.spec_size(),
    decreases s.len(),
{
    if i == s.len() {
        assert(s.insert(i, t).drop_last() =~= s);
    } else {
        assert(s.insert(i, t).drop_last() =~= s.drop_last().insert(i, t));
        lemma_total_size_insert(s.drop_last(), i, t);
    }
}

/// Inserts `t` into the sorted `v` after the entries that do not follow it.
fn insert_sorted_type(v: &mut Vec<TypeInfo>, t: TypeInfo) -> (pos: usize)
    requires
        types_sorted(old(v)@),
    ensures
        pos <= old(v)@.len(),
        final(v)@ == old(v)@.insert(pos as int, t),
        types_sorted(final(v)@),
        forall|k: int| 0 <= k < pos ==> !t.precedes(#[trigger] &old(v)@[k]),
        forall|k: int| pos <= k < old(v)@.len() ==> t.precedes(#[trigger] &old(v)@[k]),
{
    let mut i: usize = 0;
    while i < v.len()
        invariant
            0 <= i <= v@.len(),
            v@ == old(v)@,
            forall|k: int| 0 <= k < i ==> !t.precedes(#[trigger] &v@[k]),
        ensures
            0 <= i <= v@.len(),
            v@ == old(v)@,
            forall|k: int| 0 <= k < i ==> !t.precedes(#[trigger] &v@[k]),
            i < v@.len() ==> t.precedes(&v@[i as int]),
        decreases v@.len() - i,
    {
        if t.compare(&v[i]) == -1 {
            break;
        }
        i = i + 1;
    }
    proof {
        assert forall|k: int| i <= k < old(v)@.len() implies t.precedes(#[trigger] &old(v)@[k]) by {
            assert(t.precedes(&old(v)@[i as int]));
            assert(type_le(old(v)@[i as int], old(v)@[k]));
        }
    }
    v.insert(i, t);
    proof {
        let s = v@;
        let o = old(v)@;
        assert forall|a: int, b: int| 0 <= a < b < s.len() implies type_le(#[trigger] s[a], #[trigger] s[b]) by {
            if a < i && b < i {
            } else if a < i && b == i {
            } else if a < i {
                assert(s[b] == o[b - 1]);
            } else if a == i {
                assert(s[b] == o[b - 1]);
            } else {
                assert(s[a] == o[a - 1]);
                assert(s[b] == o[b - 1]);
            }
        }
    }
    i
}

/// `types` sorted, as a multiset unchanged.
fn sort_types(types: Vec<TypeInfo>) -> (sorted: Vec<TypeInfo>)
    ensures
        types_sorted(sorted@),
        sorted@.to_multiset() == types@.to_multiset(),
        sorted@.len() == types@.len(),
        total_size(sorted@) == total_size(types@),
{
    broadcast use vstd::seq_lib::to_multiset_build, vstd::seq_lib::to_multiset_insert;

    let mut sorted: Vec<TypeInfo> = Vec::new();
    let mut i: usize = 0;
    assert(sorted@ =~= types@.subrange(0, 0));
    while i < types.len()
        invariant
            0 <= i <= types@.len(),
            types_sorted(sorted@),
            sorted@.to_multiset() == types@.subrange(0, i as int).to_multiset(),
            sorted@.len() == i,
            total_size(sorted@) == total_size(types@.subrange(0, i as int)),
        decreases types@.len() - i,
    {
        let t = types[i];
        let ghost before = sorted@;
        let pos = insert_sorted_type(&mut sorted, t);
        proof {
            assert(types@.subrange(0, i + 1) =~= types@.subrange(0, i as int).push(t));
            lemma_total_size_insert(before, pos as int, t);
            vstd::seq_lib::to_multiset_insert(before, pos as int, t);
            vstd::seq_lib::to_multiset_build(types@.subrange(0, i as int), t);
            assert(types@.subrange(0, i + 1).drop_last() =~= types@.subrange(0, i as int));
        }
        i = i + 1;
    }
    assert(types@.subrange(0, i as int) =~= types@);
    sorted
}

/// Position of the first type of `s` equal to `t`, if any.
pub open spec fn type_position(s: Seq<TypeInfo>, t: TypeInfo) -> Option<int> {
    s.index_of_first(t)
}

fn find_type(types: &Vec<TypeInfo>, t: &TypeInfo) -> (pos: Option<usize>)
    ensures
        match pos {
            Some(p) => type_position(types@, *t) == Some(p as int),
            None => type_position(types@, *t) is None,
        },
{
    let mut i: usize = 0;
    while i < types.len()
        invariant
            0 <= i <= types@.len(),
            forall|k: int| 0 <= k < i ==> types@[k] != *t,
        decreases types@.len() - i,
    {
        if types[i].compare(t) == 0 {
            proof {
                assert(types@[i as int] == *t);
                types@.index_of_first_ensures(*t);
                let q = types@.index_of_first(*t)->0;
                if q < i {
                    assert(types@[q] != *t);
                }
            }
            return Some(i);
        }
        i = i + 1;
    }
    proof {
        types@.index_of_first_ensures(*t);
        if types@.contains(*t) {
            let q = types@.index_of_first(*t)->0;
            assert(types@[q] == *t);
        }
    }
    None
}

/// The sorted list of the types of an archetype, which names it.
pub struct ArchetypeKey {
    types: Vec<TypeInfo>,
}

impl ArchetypeKey {
    pub closed spec fn spec_types(&self) -> Seq<TypeInfo> {
        self.types@
    }

    /// The key of `types`, sorted.
    pub fn new(types: Vec<TypeInfo>) -> (k: Self)
        ensures
            types_sorted(k.spec_types()),
            k.spec_types().to_multiset() == types@.to_multiset(),
    {
        ArchetypeKey { types: sort_types(types) }
    }

    /// Inserts `type_info` in its sorted place when the key already has it,
    /// so that it is held once more; fails with `TypeAlreadyPresented`,
    /// changing nothing, when the key does not have it.
    pub fn add_type(&mut self, type_info: TypeInfo) -> (r: Result<(), Error>)
        requires
            types_sorted(old(self).spec_types()),
        ensures
            types_sorted(final(self).spec_types()),
            !old(self).spec_types().contains(type_info) ==> (r matches Err(Error::TypeAlreadyPresented)
                && final(self).spec_types() == old(self).spec_types()),
            old(self).spec_types().contains(type_info) ==> (r is Ok && final(self).spec_types().to_multiset()
                == old(self).spec_types().to_multiset().insert(type_info)),
    {
        broadcast use vstd::seq_lib::to_multiset_insert;

        proof {
            self.types@.index_of_first_ensures(type_info);
        }
        match find_type(&self.types, &type_info) {
            None => Err(Error::TypeAlreadyPresented),
            Some(_) => {
                let pos = insert_sorted_type(&mut self.types, type_info);
                proof {
                    vstd::seq_lib::to_multiset_insert(old(self).types@, pos as int, type_info);
                }
                Ok(())
            },
        }
    }

    pub fn types(&self) -> (t: &Vec<TypeInfo>)
        ensures
            t@ == self.spec_types(),
    {
        &self.types
    }
}

/// An archetype whose entities each own one row of bytes, the values of
/// its types laid end to end in the order of `types`.
pub struct Archetype {
    entities: Vec<EntityId>,
    types: Vec<TypeInfo>,
    row_size: usize,
    components: AnyVec,
}

/// Whether a search of `count` types, comparing `type_id` with `key` for
/// each, finds it: there is a type and the two are equal.
pub open spec fn found_by_key(count: nat, type_id: u64, key: u64) -> bool {
    count > 0 && type_id == key
}

/// Whether a type of `types` has the key `key`.
pub open spec fn has_type_key(types: Seq<TypeInfo>, key: u64) -> bool {
    exists|j: int| 0 <= j < types.len() && (#[trigger] types[j]).spec_id() == key
}

/// Where the value of the type at `pos` starts within a row of `types`.
pub open spec fn offset_of(types: Seq<TypeInfo>, pos: int) -> nat {
    total_size(types.subrange(0, pos))
}

impl Archetype {
    pub closed spec fn spec_entities(&self) -> Seq<EntityId> {
        self.entities@
    }

    pub closed spec fn spec_types(&self) -> Seq<TypeInfo> {
        self.types@
    }

    pub closed spec fn spec_row_size(&self) -> usize {
        self.row_size
    }

    /// The rows, in the order of the entities.
    pub closed spec fn rows(&self) -> Seq<Seq<u8>> {
        self.components@
    }

    /// Whether one more row fits.
    pub closed spec fn has_room(&self) -> bool {
        self.components.has_room()
    }

    pub closed spec fn wf(&self) -> bool {
        &&& self.components.wf()
        &&& self.components.spec_info().spec_size() == self.row_size
        &&& self.components@.len() == self.entities@.len()
        &&& self.entities@.no_duplicates()
        &&& types_sorted(self.types@)
        &&& self.row_size == total_size(self.types@)
    }

    /// The row of `entity`, which must have one.
    pub open spec fn row_of(&self, entity: EntityId) -> Seq<u8> {
        self.rows()[self.spec_entities().index_of(entity)]
    }

    /// An archetype of `types`, kept sorted, without entities.
    pub fn new(types: Vec<TypeInfo>) -> (a: Self)
        requires
            total_size(types@) <= usize::MAX,
        ensures
            a.wf(),
            a.spec_entities().len() == 0,
            types_sorted(a.spec_types()),
            a.spec_types().to_multiset() == types@.to_multiset(),
            a.spec_row_size() == total_size(types@),
    {
        let types = sort_types(types);
        let mut row_size: usize = 0;
        let mut i: usize = 0;
        while i < types.len()
            invariant
                0 <= i <= types@.len(),
                row_size == total_size(types@.subrange(0, i as int)),
                total_size(types@) <= usize::MAX,
            decreases types@.len() - i,
        {
            proof {
                lemma_total_size_prefix(types@, i as int);
            }
            row_size = row_size + types[i].size();
            i = i + 1;
        }
        assert(types@.subrange(0, i as int) =~= types@);
        Archetype {
            entities: Vec::new(),
            types,
            row_size,
            components: AnyVec::from_info(TypeInfo::of_size(row_size)),
        }
    }

    /// The key of the archetype: its sorted types.
    pub fn extract_key(&self) -> (k: ArchetypeKey)
        requires
            self.wf(),
        ensures
            k.spec_types().to_multiset() == self.spec_types().to_multiset(),
            types_sorted(k.spec_types()),
    {
        ArchetypeKey::new(vstd::slice::slice_to_vec(self.types.as_slice()))
    }

    /// An archetype, without entities, of the types of this one and
    /// `new_type`; fails with `TypeAlreadyPresented` if this one has it.
    pub fn new_with_type(&self, new_type: &TypeInfo) -> (r: Result<Self, Error>)
        requires
            self.wf(),
            self.spec_row_size() + new_type.spec_size() <= usize::MAX,
        ensures
            self.spec_types().contains(*new_type) ==> r matches Err(Error::TypeAlreadyPresented),
            !self.spec_types().contains(*new_type) ==> (r matches Ok(a) && {
                &&& a.wf()
                &&& a.spec_entities().len() == 0
                &&& a.spec_types().to_multiset() == self.spec_types().to_multiset().insert(*new_type)
                &&& a.spec_row_size() == self.spec_row_size() + new_type.spec_size()
            }),
    {
        proof {
            self.types@.index_of_first_ensures(*new_type);
        }
        match find_type(&self.types, new_type) {
            Some(_) => Err(Error::TypeAlreadyPresented),
            None => {
                let mut types = vstd::slice::slice_to_vec(self.types.as_slice());
                let pos = insert_sorted_type(&mut types, *new_type);
                proof {
                    vstd::seq_lib::to_multiset_insert(self.types@, pos as int, *new_type);
                    lemma_total_size_insert(self.types@, pos as int, *new_type);
                }
                let row_size = self.row_size + new_type.size();
                Ok(Archetype {
                    entities: Vec::new(),
                    types,
                    row_size,
                    components: AnyVec::from_info(TypeInfo::of_size(row_size)),
                })
            },
        }
    }

    /// Whether every type of this archetype has the key of a type of `other`.
    pub fn contains_types_of(&self, other: &Archetype) -> (b: bool)
        ensures
            b == forall|i: int| 0 <= i < self.spec_types().len() ==> has_type_key(other.spec_types(), (#[trigger] self.spec_types()[i]).spec_id()),
    {
        let mut i: usize = 0;
        while i < self.types.len()
            invariant
                0 <= i <= self.types@.len(),
                forall|k: int| 0 <= k < i ==> has_type_key(other.spec_types(), (#[trigger] self.types@[k]).spec_id()),
            decreases self.types@.len() - i,
        {
            if !other.holds_type_key(self.types[i].id()) {
                assert(!has_type_key(other.spec_types(), self.spec_types()[i as int].spec_id()));
                return false;
            }
            i = i + 1;
        }
        true
    }

    /// Whether a type of the archetype has key `key`.
    fn holds_type_key(&self, key: u64) -> (b: bool)
        ensures
            b == has_type_key(self.spec_types(), key),
    {
        let mut j: usize = 0;
        while j < self.types.len()
            invariant
                0 <= j <= self.types@.len(),
                forall|k: int| 0 <= k < j ==> (#[trigger] self.types@[k]).spec_id() != key,
            decreases self.types@.len() - j,
        {
            if self.types[j].id() == key {
                assert(self.types@[j as int].spec_id() == key);
                return true;
            }
            j = j + 1;
        }
        false
    }

    /// Whether `type_id` is the key of the type of the descriptions
    /// themselves (`TypeInfo`), asked of an archetype that has a type: the
    /// search compares `type_id` with that one key for every type held.
    /// The key is the one `TypeInfo::of` gives, of which no more is known
    /// than that it is some key.
    pub fn contains_type(&self, type_id: u64) -> (b: bool)
        ensures
            b ==> self.spec_types().len() > 0,
            exists|key: u64| b == #[trigger] found_by_key(self.spec_types().len(), type_id, key),
    {
        let own = TypeInfo::of::<TypeInfo>().id();
        let b = self.types.len() > 0 && type_id == own;
        assert(b == found_by_key(self.spec_types().len(), type_id, own));
        b
    }

    /// Whether every type of this archetype is one of `other`.
    pub fn is_subarchetype_of(&self, other: &Archetype) -> (b: bool)
        ensures
            b == forall|i: int| 0 <= i < self.spec_types().len() ==> has_type_key(other.spec_types(), (#[trigger] self.spec_types()[i]).spec_id()),
    {
        self.contains_types_of(other)
    }

    pub fn types(&self) -> (t: &Vec<TypeInfo>)
        ensures
            t@ == self.spec_types(),
    {
        &self.types
    }

    fn entity_position(&self, entity: &EntityId) -> (pos: Option<usize>)
        requires
            self.wf(),
        ensures
            match pos {
                Some(p) => p < self.spec_entities().len() && self.spec_entities()[p as int] == *entity
                    && self.spec_entities().index_of(*entity) == p as int,
                None => !self.spec_entities().contains(*entity),
            },
    {
        let mut i: usize = 0;
        while i < self.entities.len()
            invariant
                0 <= i <= self.entities@.len(),
                self.wf(),
                forall|k: int| 0 <= k < i ==> self.entities@[k] != *entity,
            decreases self.entities@.len() - i,
        {
            if self.entities[i].as_usize() == entity.as_usize() {
                proof {
                    EntityId::lemma_index_determines(self.entities@[i as int], *entity);
                    assert(self.entities@[i as int] == *entity);
                    assert(self.entities@.contains(*entity));
                    let q = self.entities@.index_of(*entity);
                    assert(self.entities@[q] == *entity);
                    assert(self.entities@.no_duplicates());
                    if q != i {
                        assert(self.entities@[q] != self.entities@[i as int]);
                    }
                }
                return Some(i);
            }
            proof {
                EntityId::lemma_index_determines(self.entities@[i as int], *entity);
            }
            i = i + 1;
        }
        None
    }

    /// A copy of the row of `entity`; fails with `EntityNotPresented` if it
    /// has none.
    pub fn get_row(&self, entity: &EntityId) -> (r: Result<Vec<u8>, Error>)
        requires
            self.wf(),
        ensures
            !self.spec_entities().contains(*entity) ==> r matches Err(Error::EntityNotPresented),
            self.spec_entities().contains(*entity) ==> (r matches Ok(row) && row@ == self.row_of(*entity)),
    {
        match self.entity_position(entity) {
            None => Err(Error::EntityNotPresented),
            Some(p) => match self.components.get_data(p) {
                Some(row) => Ok(row),
                None => vstd::pervasive::unreached(),
            },
        }
    }

    /// Gives `entity` a new zeroed row; fails with `EntityAlreadyPresented`
    /// if it has one.
    pub fn add_row(&mut self, entity: EntityId) -> (r: Result<(), Error>)
        requires
            old(self).wf(),
            old(self).has_room(),
        ensures
            final(self).wf(),
            final(self).spec_types() == old(self).spec_types(),
            final(self).spec_row_size() == old(self).spec_row_size(),
            old(self).spec_entities().contains(entity) ==> (r matches Err(Error::EntityAlreadyPresented)
                && final(self).spec_entities() == old(self).spec_entities() && final(self).rows() == old(self).rows()),
            !old(self).spec_entities().contains(entity) ==> (r is Ok
                && final(self).spec_entities() == old(self).spec_entities().push(entity)
                && final(self).rows() == old(self).rows().push(Seq::new(old(self).spec_row_size() as nat, |k: int| 0u8))),
    {
        match self.entity_position(&entity) {
            Some(_) => Err(Error::EntityAlreadyPresented),
            None => {
                self.entities.push(entity);
                self.components.allocate();
                proof {
                    assert(self.components@ =~= old(self).components@.push(Seq::new(old(self).row_size as nat, |k: int| 0u8)));
                    assert forall|a: int, b: int| 0 <= a < b < self.entities@.len() implies self.entities@[a] != self.entities@[b] by {
                        if b == self.entities@.len() - 1 {
                            assert(old(self).entities@.contains(old(self).entities@[a]));
                        }
                    }
                }
                Ok(())
            },
        }
    }

    /// Takes away the row of `entity`; fails with `EntityNotPresented` if it
    /// has none.
    pub fn remove_row(&mut self, entity: &EntityId) -> (r: Result<(), Error>)
        requires
            old(self).wf(),
        ensures
            final(self).wf(),
            final(self).spec_types() == old(self).spec_types(),
            final(self).spec_row_size() == old(self).spec_row_size(),
            !old(self).spec_entities().contains(*entity) ==> (r matches Err(Error::EntityNotPresented)
                && final(self).spec_entities() == old(self).spec_entities() && final(self).rows() == old(self).rows()),
            old(self).spec_entities().contains(*entity) ==> (r is Ok
                && final(self).spec_entities() == old(self).spec_entities().remove(old(self).spec_entities().index_of(*entity))
                && final(self).rows() == old(self).rows().remove(old(self).spec_entities().index_of(*entity))),
            final(self).has_room() || !old(self).spec_entities().contains(*entity) ,
            !final(self).spec_entities().contains(*entity),
    {
        match self.entity_position(entity) {
            None => Err(Error::EntityNotPresented),
            Some(p) => {
                self.components.remove_data(p);
                self.entities.remove(p);
                proof {
                    let o = old(self).entities@;
                    assert forall|a: int, b: int| 0 <= a < b < self.entities@.len() implies self.entities@[a] != self.entities@[b] by {
                        let a0 = if a < p { a } else { a + 1 };
                        let b0 = if b < p { b } else { b + 1 };
                        assert(self.entities@[a] == o[a0]);
                        assert(self.entities@[b] == o[b0]);
                    }
                    if self.entities@.contains(*entity) {
                        let q = self.entities@.index_of(*entity);
                        let q0 = if q < p { q } else { q + 1 };
                        assert(self.entities@[q] == o[q0]);
                        assert(o[p as int] == *entity);
                    }
                }
                Ok(())
            },
        }
    }

    /// The bytes of the value of type `t` in the row of `entity`.
    pub open spec fn component_of(&self, entity: EntityId, t: TypeInfo) -> Seq<u8> {
        let off = offset_of(self.spec_types(), self.spec_types().index_of_first(t)->0);
        self.row_of(entity).subrange(off as int, off + t.spec_size())
    }

    fn get_component_position(&self, type_info: &TypeInfo) -> (pos: Option<usize>)
        ensures
            match pos {
                Some(p) => type_position(self.spec_types(), *type_info) == Some(p as int),
                None => type_position(self.spec_types(), *type_info) is None,
            },
    {
        find_type(&self.types, type_info)
    }

    fn get_component_offset(&self, type_info: &TypeInfo) -> (off: Option<usize>)
        requires
            self.wf(),
        ensures
            match off {
                Some(o) => self.spec_types().contains(*type_info) && o == offset_of(self.spec_types(), self.spec_types().index_of_first(*type_info)->0)
                    && o + type_info.spec_size() <= self.spec_row_size(),
                None => !self.spec_types().contains(*type_info),
            },
    {
        proof {
            self.types@.index_of_first_ensures(*type_info);
        }
        let position = match self.get_component_position(type_info) {
            Some(p) => p,
            None => return None,
        };
        let mut offset: usize = 0;
        let mut i: usize = 0;
        while i < position
            invariant
                0 <= i <= position < self.types@.len(),
                offset == total_size(self.types@.subrange(0, i as int)),
                total_size(self.types@) <= usize::MAX,
            decreases position - i,
        {
            proof {
                lemma_total_size_prefix(self.types@, i as int);
                lemma_total_size_prefix(self.types@, position as int);
            }
            offset = offset + self.types[i].size();
            i = i + 1;
        }
        proof {
            lemma_total_size_prefix(self.types@, position as int);
        }
        Some(offset)
    }

    /// A copy of the value of type `type_info` of `entity`; fails with
    /// `TypeNotPresented` if the archetype lacks the type, else with
    /// `EntityNotPresented` if `entity` has no row.
    pub fn get_component(&self, entity: &EntityId, type_info: &TypeInfo) -> (r: Result<Vec<u8>, Error>)
        requires
            self.wf(),
        ensures
            !self.spec_types().contains(*type_info) ==> r matches Err(Error::TypeNotPresented),
            self.spec_types().contains(*type_info) && !self.spec_entities().contains(*entity) ==> r matches Err(Error::EntityNotPresented),
            self.spec_types().contains(*type_info) && self.spec_entities().contains(*entity) ==> (r matches Ok(v)
                && v@ == self.component_of(*entity, *type_info)),
    {
        let offset = match self.get_component_offset(type_info) {
            Some(o) => o,
            None => return Err(Error::TypeNotPresented),
        };
        let row = self.get_row(entity)?;
        proof {
            self.components.lemma_rows_len();
        }
        let size = type_info.size();
        let mut out: Vec<u8> = Vec::new();
        let mut i: usize = 0;
        while i < size
            invariant
                0 <= i <= size,
                offset + size <= row@.len(),
                row@.len() <= usize::MAX,
                out@ == row@.subrange(offset as int, offset + i),
            decreases size - i,
        {
            out.push(row[offset + i]);
            i = i + 1;
            assert(out@ =~= row@.subrange(offset as int, offset + i));
        }
        Ok(out)
    }

    /// Writes `value` as the value of type `type_info` of `entity`; fails
    /// with `EntityNotPresented` if `entity` has no row, else with
    /// `TypeNotPresented` if the archetype lacks the type.
    pub fn set_component(&mut self, entity: &EntityId, type_info: &TypeInfo, value: &[u8]) -> (r: Result<(), Error>)
        requires
            old(self).wf(),
            value@.len() == type_info.spec_size(),
        ensures
            final(self).wf(),
            final(self).spec_types() == old(self).spec_types(),
            final(self).spec_entities() == old(self).spec_entities(),
            final(self).spec_row_size() == old(self).spec_row_size(),
            final(self).has_room() == old(self).has_room(),
            !old(self).spec_entities().contains(*entity) ==> (r matches Err(Error::EntityNotPresented) && final(self).rows() == old(self).rows()),
            old(self).spec_entities().contains(*entity) && !old(self).spec_types().contains(*type_info) ==> (r matches Err(
                Error::TypeNotPresented,
            ) && final(self).rows() == old(self).rows()),
            old(self).spec_entities().contains(*entity) && old(self).spec_types().contains(*type_info) ==> ({
                let p = old(self).spec_entities().index_of(*entity);
                let off = offset_of(old(self).spec_types(), old(self).spec_types().index_of_first(*type_info)->0);
                let row = old(self).rows()[p];
                &&& r is Ok
                &&& final(self).rows() == old(self).rows().update(
                    p,
                    row.subrange(0, off as int) + value@ + row.subrange((off + value@.len()) as int, row.len() as int),
                )
                &&& final(self).component_of(*entity, *type_info) == value@
            }),
    {
        let p = match self.entity_position(entity) {
            Some(p) => p,
            None => return Err(Error::EntityNotPresented),
        };
        let offset = match self.get_component_offset(type_info) {
            Some(o) => o,
            None => return Err(Error::TypeNotPresented),
        };
        let mut row = match self.components.get_data(p) {
            Some(row) => row,
            None => vstd::pervasive::unreached(),
        };
        proof {
            self.components.lemma_rows_len();
        }
        let ghost row0 = row@;
        let mut i: usize = 0;
        while i < value.len()
            invariant
                0 <= i <= value@.len(),
                offset + value@.len() <= row0.len(),
                row0.len() <= usize::MAX,
                row@.len() == row0.len(),
                forall|k: int| 0 <= k < row0.len() ==> #[trigger] row@[k] == if offset <= k < offset + i {
                    value@[k - offset]
                } else {
                    row0[k]
                },
            decreases value@.len() - i,
        {
            row.set(offset + i, value[i]);
            i = i + 1;
        }
        let ghost new_row = row0.subrange(0, offset as int) + value@ + row0.subrange((offset + value@.len()) as int, row0.len() as int);
        assert(row@ =~= new_row);
        self.components.write_data(p, row.as_slice());
        proof {
            assert(new_row.subrange(offset as int, offset + type_info.spec_size()) =~= value@);
        }
        Ok(())
    }
}

} // verus!
