use vstd::prelude::*;

pub mod archetype;
pub mod archetypes;

pub use archetype::Archetype;
pub use archetypes::{ArchetypeGraphNode, Archetypes};

verus! {

/// Index of an archetype.
#[derive(Clone, Copy, Debug, PartialEq, Eq, PartialOrd, Ord, Hash, Structural)]
pub struct ArchetypeId(usize);

impl ArchetypeId {
    pub fn new(value: usize) -> (id: Self)
        ensures
            id.spec_index() == value,
            id == ArchetypeId::spec_from(value),
    {
        ArchetypeId(value)
    }

    pub closed spec fn spec_index(self) -> usize {
        self.0
    }

    #[verifier::when_used_as_spec(spec_index)]
    pub fn as_usize(self) -> (value: usize)
        ensures
            value == self.spec_index(),
    {
        self.0
    }

    pub closed spec fn spec_from(value: usize) -> Self {
        ArchetypeId(value)
    }

    pub proof fn lemma_from(value: usize)
        ensures
            #[trigger] ArchetypeId::spec_from(value).spec_index() == value,
    {
    }

    pub broadcast proof fn lemma_index_determines(a: Self, b: Self)
        ensures
            #![trigger a.spec_index(), b.spec_index()]
            a.spec_index() == b.spec_index() <==> a == b,
    {
    }
}

} // verus!
