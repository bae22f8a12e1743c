//! The editor's project description.

use vstd::prelude::*;

verus! {

/// A project, found at a path.
pub struct Project {
    path: String,
}

impl Project {
    pub closed spec fn spec_path(&self) -> Seq<char> {
        self.path@
    }

    /// The project at `path`.
    pub fn new(path: String) -> (p: Self)
        ensures
            p.spec_path() == path@,
    {
        Project { path }
    }

    /// The project's path.
    pub fn path(&self) -> (p: &String)
        ensures
            p@ == self.spec_path(),
    {
        &self.path
    }
}

} // verus!
