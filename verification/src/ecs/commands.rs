//! The bookkeeping of a queue of deferred commands: which commands an
//! application runs, in what order, and what stays queued when one of them
//! fails. Running a command is the caller's work.

use vstd::prelude::*;

verus! {

/// Commands waiting to be applied. `cursor` is where the current
/// application level starts: commands before it belong to outer levels, and
/// an application takes every command from it on. `recovery` holds the
/// commands that a failed inner application left, until the outermost level
/// puts them back.
pub struct CommandQueue<C> {
    queue: Vec<C>,
    cursor: usize,
    recovery: Vec<C>,
}

impl<C> CommandQueue<C> {
    pub closed spec fn spec_queue(&self) -> Seq<C> {
        self.queue@
    }

    pub closed spec fn spec_cursor(&self) -> usize {
        self.cursor
    }

    pub closed spec fn spec_recovery(&self) -> Seq<C> {
        self.recovery@
    }

    /// The cursor never passes the end of the queue.
    pub open spec fn wf(&self) -> bool {
        self.spec_cursor() <= self.spec_queue().len()
    }

    /// No command queued.
    pub fn new() -> (q: Self)
        ensures
            q.wf(),
            q.spec_queue() == Seq::<C>::empty(),
            q.spec_cursor() == 0,
            q.spec_recovery() == Seq::<C>::empty(),
    {
        CommandQueue { queue: Vec::new(), cursor: 0, recovery: Vec::new() }
    }

    /// Queues `command` after every queued command.
    pub fn push(&mut self, command: C)
        requires
            old(self).wf(),
        ensures
            final(self).wf(),
            final(self).spec_queue() == old(self).spec_queue().push(command),
            final(self).spec_cursor() == old(self).spec_cursor(),
            final(self).spec_recovery() == old(self).spec_recovery(),
    {
        self.queue.push(command);
    }

    /// Starts an application: hands out, in order, every command from the
    /// cursor on, and returns where this level starts. Commands queued while
    /// they run belong to this level and are applied by a nested
    /// application.
    pub fn begin_apply(&mut self) -> (r: (usize, Vec<C>))
        requires
            old(self).wf(),
        ensures
            final(self).wf(),
            r.0 == old(self).spec_cursor(),
            r.1@ == old(self).spec_queue().subrange(r.0 as int, old(self).spec_queue().len() as int),
            final(self).spec_queue() == old(self).spec_queue().subrange(0, r.0 as int),
            final(self).spec_cursor() == r.0,
            final(self).spec_recovery() == old(self).spec_recovery(),
    {
        let start = self.cursor;
        let batch = self.queue.split_off(start);
        (start, batch)
    }

    /// Ends an application that started at `start` with every command run:
    /// the commands queued meanwhile and not applied are dropped.
    pub fn end_apply(&mut self, start: usize)
        requires
            old(self).wf(),
            start <= old(self).spec_queue().len(),
        ensures
            final(self).wf(),
            final(self).spec_queue() == old(self).spec_queue().subrange(0, start as int),
            final(self).spec_cursor() == start,
            final(self).spec_recovery() == old(self).spec_recovery(),
    {
        self.queue.truncate(start);
        self.cursor = start;
    }

    /// Records that a command of the application that started at `start`
    /// failed, `rest` being the commands of its batch after the failed one:
    /// they and the commands queued meanwhile are kept for recovery, the
    /// queue goes back to `start`, and the outermost level (`start == 0`)
    /// puts everything kept back in the queue.
    pub fn on_panic(&mut self, start: usize, rest: Vec<C>)
        requires
            old(self).wf(),
            start <= old(self).spec_queue().len(),
        ensures
            final(self).wf(),
            final(self).spec_cursor() == start,
            ({
                let kept = old(self).spec_recovery() + rest@
                    + old(self).spec_queue().subrange(start as int, old(self).spec_queue().len() as int);
                if start == 0 {
                    &&& final(self).spec_queue() == kept
                    &&& final(self).spec_recovery() == Seq::<C>::empty()
                } else {
                    &&& final(self).spec_queue() == old(self).spec_queue().subrange(0, start as int)
                    &&& final(self).spec_recovery() == kept
                }
            }),
    {
        let mut rest = rest;
        let mut tail = self.queue.split_off(start);
        self.recovery.append(&mut rest);
        self.recovery.append(&mut tail);
        self.cursor = start;
        if start == 0 {
            self.queue.append(&mut self.recovery);
        }
    }
}

} // verus!
