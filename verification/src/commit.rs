//! The watcher: a catalog handle and a commit period, waiting to be started.

use vstd::prelude::*;

use crate::task::{CommitTask, Step, TaskView};

verus! {

/// An inert commit scheduler, bound to a catalog handle of type `C` and to a
/// period in seconds.
///
/// The handle is only carried: the watcher never looks into it.
pub struct IndexWatcher<C> {
    commit_duration: u64,
    catalog: C,
}

impl<C> IndexWatcher<C> {
    #[verifier::type_invariant]
    spec fn inv(self) -> bool {
        self.commit_duration > 0
    }

    /// The catalog handle the watcher is bound to.
    pub closed spec fn bound_catalog(self) -> C {
        self.catalog
    }

    /// The period of the watcher, in seconds.
    pub closed spec fn period(self) -> u64 {
        self.commit_duration
    }

    /// Binds a watcher to `catalog` with a period of `commit_duration` seconds.
    pub fn new(catalog: C, commit_duration: u64) -> (watcher: Self)
        requires
            commit_duration > 0,
        ensures
            watcher.bound_catalog() == catalog,
            watcher.period() == commit_duration,
    {
        IndexWatcher { commit_duration, catalog }
    }

    /// The period in seconds, which is never zero.
    pub fn commit_duration(&self) -> (seconds: u64)
        ensures
            seconds == self.period(),
            seconds > 0,
    {
        proof {
            use_type_invariant(self);
        }
        self.commit_duration
    }

    /// The catalog handle.
    pub fn catalog(&self) -> (catalog: &C)
        ensures
            *catalog == self.bound_catalog(),
    {
        &self.catalog
    }

    /// Turns the watcher into a running task.
    ///
    /// Hands back the catalog handle together with a task that waits for the
    /// first tick of a timer with the watcher's period.
    pub fn start(self) -> (started: (C, CommitTask))
        ensures
            started.0 == self.bound_catalog(),
            started.1@ == (TaskView { seconds: self.period(), step: Step::Idle }),
    {
        proof {
            use_type_invariant(&self);
        }
        let task = CommitTask::idle(self.commit_duration);
        (self.catalog, task)
    }
}

} // verus!
