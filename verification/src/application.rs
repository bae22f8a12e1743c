//! Whether the application's update loop goes on.

use vstd::prelude::*;

verus! {

/// The running flag of an application: its update loop runs layer updates
/// while the flag is up, and a layer stops it by lowering the flag.
pub struct RunState {
    running: bool,
}

impl RunState {
    pub closed spec fn spec_running(&self) -> bool {
        self.running
    }

    /// An application that does not run yet.
    pub fn new() -> (s: Self)
        ensures
            !s.spec_running(),
    {
        RunState { running: false }
    }

    /// The loop starts.
    pub fn start(&mut self)
        ensures
            final(self).spec_running(),
    {
        self.running = true;
    }

    /// The loop ends after the current round of updates.
    pub fn stop(&mut self)
        ensures
            !final(self).spec_running(),
    {
        self.running = false;
    }

    /// Whether another round of updates runs.
    pub fn is_running(&self) -> (b: bool)
        ensures
            b == self.spec_running(),
    {
        self.running
    }
}

} // verus!
