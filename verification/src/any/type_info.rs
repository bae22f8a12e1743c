use vstd::prelude::*;

verus! {

/// `std::any::TypeId`, carried through as an opaque value: nothing of what
/// it holds is claimed.
#[verifier::external_type_specification]
#[verifier::external_body]
pub struct ExTypeId(std::any::TypeId);

/// Calls `std::any::TypeId::of::<T>()`. Nothing is claimed of the identifier
/// that comes back: it depends on the compiled type alone.
#[verifier::external_body]
fn type_id_of<T: ?Sized + 'static>() -> std::any::TypeId {
    std::any::TypeId::of::<T>()
}

/// Calls `std::hash::Hash::hash` of `TypeId`, feeding `id` into `state`.
/// Nothing is claimed of what it feeds in.
#[verifier::external_body]
fn hash_type_id(id: &std::any::TypeId, state: &mut std::collections::hash_map::DefaultHasher) {
    std::hash::Hash::hash(id, state)
}

/// What the engine knows of a stored type: a key that identifies it and the
/// number of bytes one value of it occupies.
#[derive(Clone, Copy, Debug, PartialEq, Eq, Structural)]
pub struct TypeInfo {
    key: u64,
    size: usize,
}

impl TypeInfo {
    pub closed spec fn spec_id(&self) -> u64 {
        self.key
    }

    pub closed spec fn spec_size(&self) -> usize {
        self.size
    }

    /// Description of the type `T`: its key and `size_of::<T>()`.
    pub fn of<T: 'static>() -> (info: Self)
        ensures
            info.spec_size() as nat == vstd::layout::size_of::<T>(),
    {
        let mut hasher = std::collections::hash_map::DefaultHasher::new();
        hash_type_id(&type_id_of::<T>(), &mut hasher);
        TypeInfo { key: std::hash::Hasher::finish(&hasher), size: std::mem::size_of::<T>() }
    }

    /// Description of an anonymous row of `size` bytes, with key 0.
    pub(crate) fn of_size(size: usize) -> (info: Self)
        ensures
            info.spec_size() == size,
            info.spec_id() == 0,
    {
        TypeInfo { key: 0, size }
    }

    /// The key that identifies the type.
    #[verifier::when_used_as_spec(spec_id)]
    pub fn id(&self) -> (id: u64)
        ensures
            id == self.spec_id(),
    {
        self.key
    }

    /// Bytes occupied by one value of the type.
    #[verifier::when_used_as_spec(spec_size)]
    pub fn size(&self) -> (size: usize)
        ensures
            size == self.spec_size(),
    {
        self.size
    }

    /// Whether `self` orders strictly before `other`: by key, then by size.
    pub open spec fn precedes(&self, other: &TypeInfo) -> bool {
        self.spec_id() < other.spec_id() || (self.spec_id() == other.spec_id()
            && self.spec_size() < other.spec_size())
    }

    /// Three-way comparison in the order of `precedes`, as -1, 0 or 1.
    pub fn compare(&self, other: &TypeInfo) -> (c: i8)
        ensures
            c == -1 <==> self.precedes(other),
            c == 0 <==> *self == *other,
            c == 1 <==> other.precedes(self),
    {
        if self.key < other.key {
            -1
        } else if self.key > other.key {
            1
        } else if self.size < other.size {
            -1
        } else if self.size > other.size {
            1
        } else {
            0
        }
    }
}

/// The order of `compare` is a strict total order: of two type
/// descriptions exactly one precedes the other unless they are equal, so
/// comparing them both ways gives opposite answers.
pub proof fn lemma_precedes_total(a: TypeInfo, b: TypeInfo)
    ensures
        a == b || a.precedes(&b) || b.precedes(&a),
        !(a.precedes(&b) && b.precedes(&a)),
        !a.precedes(&a),
{
}

} // verus!
