//! What a job does when it runs.
use crate::database::{Database, State};
use vstd::prelude::*;

verus! {

/// A piece of work on the store. It tells whether it succeeded.
pub trait Job: Sized {
    /// What a run of this work can do. It holds of the work and the store as
    /// they were before the run, what the run came to, and the work and the
    /// store as they are after it. Each kind of work may say this of itself;
    /// one that does not says nothing of its runs.
    open spec fn ran(
        &self,
        store: State,
        outcome: Result<(), ()>,
        after: &Self,
        store_after: State,
    ) -> bool {
        true
    }

    /// Does the work. The store is handed over in order and has to come back
    /// in order. Nothing is known of whether the work succeeds, only that the
    /// run is one that the work says it can do.
    fn run(&mut self, store: &mut Database) -> (outcome: Result<(), ()>)
        requires
            old(store).wf(),
        ensures
            final(store).wf(),
            old(self).ran(old(store)@, outcome, final(self), final(store)@),
    ;
}

} // verus!
