use vstd::prelude::*;

pub mod column;
pub mod table;
pub mod tables;
pub mod columns;
pub mod storages;

pub use column::Column;
pub use table::Table;
pub use tables::Tables;
pub use columns::Columns;
pub use storages::Storages;

verus! {

/// Index of a table.
#[derive(Clone, Copy, Debug, PartialEq, Eq, Hash, Structural)]
pub struct TableId(usize);

impl TableId {
    pub broadcast proof fn lemma_index_determines(a: Self, b: Self)
        ensures
            #![trigger a.spec_index(), b.spec_index()]
            a.spec_index() == b.spec_index() <==> a == b,
    {
    }

    pub fn new(value: usize) -> (id: Self)
        ensures
            id.spec_index() == value,
    {
        TableId(value)
    }

    /// The id that names no table.
    pub fn invalid() -> (id: Self)
        ensures
            id.spec_index() == usize::MAX,
    {
        TableId(usize::MAX)
    }

    pub closed spec fn spec_index(self) -> usize {
        self.0
    }

    #[verifier::when_used_as_spec(spec_index)]
    pub fn as_usize(self) -> (value: usize)
        ensures
            value == self.spec_index(),
    {
        self.0
    }
}

/// Index of a row of a table.
#[derive(Clone, Copy, Debug, PartialEq, Eq, Hash, Structural)]
pub struct TableRow(usize);

impl TableRow {
    pub fn new(value: usize) -> (row: Self)
        ensures
            row.spec_index() == value,
    {
        TableRow(value)
    }

    pub closed spec fn spec_invalid() -> Self {
        TableRow(usize::MAX)
    }

    /// The row that names no row.
    pub fn invalid() -> (row: Self)
        ensures
            row.spec_index() == usize::MAX,
            row == TableRow::spec_invalid(),
    {
        TableRow(usize::MAX)
    }

    pub closed spec fn spec_index(self) -> usize {
        self.0
    }

    #[verifier::when_used_as_spec(spec_index)]
    pub fn as_usize(self) -> (value: usize)
        ensures
            value == self.spec_index(),
    {
        self.0
    }
}

} // verus!
