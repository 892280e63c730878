//! The locks a task holds, read off the actions its host has carried out.
//!
//! Mutual exclusion itself is the business of the locks. What the task owes is
//! the discipline stated here: it commits only under the lock of the writer it
//! commits through, takes the catalog lock first and one writer lock at a time,
//! never asks for the catalog lock while it holds a writer lock, and keeps no
//! lock from one tick to the next. A path that takes its locks in the same
//! order, catalog before writer, cannot deadlock with the task.

use vstd::prelude::*;

use crate::history::{performed, run};
use crate::protocol::{Action, Event};
use crate::task::{Stage, Step};

verus! {

/// The locks held on behalf of a task.
pub struct Held {
    /// Whether the shared lock on the catalog is held.
    pub catalog: bool,
    /// The indexes whose writer lock is held.
    pub writers: Set<usize>,
}

impl Held {
    /// No lock at all.
    pub open spec fn nothing() -> Held {
        Held { catalog: false, writers: Set::empty() }
    }

    /// The catalog lock and no writer lock.
    pub open spec fn catalog_only() -> Held {
        Held { catalog: true, writers: Set::empty() }
    }

    /// The catalog lock and the writer lock of the index at `index`.
    pub open spec fn catalog_and_writer(index: usize) -> Held {
        Held { catalog: true, writers: Set::empty().insert(index) }
    }

    /// The same locks held.
    pub open spec fn same(self, other: Held) -> bool {
        self.catalog == other.catalog && self.writers =~= other.writers
    }

    /// The locks held once `action` has been carried out.
    pub open spec fn after(self, action: Action) -> Held {
        match action {
            Action::LockCatalog => Held { catalog: true, writers: self.writers },
            Action::UnlockCatalog => Held { catalog: false, writers: self.writers },
            Action::LockWriter { index } => Held {
                catalog: self.catalog,
                writers: self.writers.insert(index),
            },
            Action::UnlockWriter { index } => Held {
                catalog: self.catalog,
                writers: self.writers.remove(index),
            },
            _ => self,
        }
    }
}

/// The locks held once `actions` have been carried out in order, starting with
/// none.
pub open spec fn held_after(actions: Seq<Action>) -> Held
    decreases actions.len(),
{
    if actions.len() == 0 {
        Held::nothing()
    } else {
        held_after(actions.drop_last()).after(actions.last())
    }
}

/// The locks that go with a step.
pub open spec fn held_at(step: Step) -> Held {
    match step {
        Step::Idle => Held::nothing(),
        Step::Opening => Held::nothing(),
        Step::Visiting { index, stage, .. } => match stage {
            Stage::Inspect => Held::catalog_only(),
            Stage::Report => Held::catalog_only(),
            Stage::LockWriter => Held::catalog_only(),
            Stage::Commit => Held::catalog_and_writer(index),
            Stage::Reset => Held::catalog_and_writer(index),
            Stage::UnlockWriter => Held::catalog_and_writer(index),
        },
        Step::Closing => Held::catalog_only(),
        Step::Terminated { index } => Held::catalog_and_writer(index),
    }
}

/// Whatever the host reports to a task that started idle, the locks its
/// actions have taken and not given back are those that go with the step the
/// task has reached.
pub proof fn lemma_held(seconds: u64, events: Seq<Event>)
    ensures
        held_after(performed(Step::Idle, seconds, events)).same(held_at(run(Step::Idle, events))),
    decreases events.len(),
{
    if events.len() > 0 {
        let earlier = events.drop_last();
        lemma_held(seconds, earlier);
        let before = run(Step::Idle, earlier);
        if before.next(events.last()) is Some {
            let done = performed(Step::Idle, seconds, earlier);
            let action = before.pending(seconds);
            assert(done.push(action).drop_last() =~= done);
            assert(held_after(done.push(action)) == held_after(done).after(action));
            assert(held_at(before).after(action).same(held_at(run(Step::Idle, events))));
        }
    }
}

/// The lock discipline of a task, whatever its host reports:
/// it asks for a commit, and for the store behind it, only while the catalog
/// lock and the lock of that very writer, and no other, are held;
/// it asks for a writer lock only while the catalog lock and no writer lock is
/// held;
/// it asks for the catalog lock only while no lock is held;
/// it gives the catalog lock back only while no writer lock is held;
/// it waits for a tick only while no lock is held;
/// it gives up only while the catalog lock and the lock of the writer whose
/// commit failed are held, for the host to release.
pub proof fn lemma_lock_discipline(seconds: u64, events: Seq<Event>)
    ensures
        ({
            let held = held_after(performed(Step::Idle, seconds, events));
            let pending = run(Step::Idle, events).pending(seconds);
            &&& pending matches Action::Commit { index } ==> held.same(
                Held::catalog_and_writer(index),
            )
            &&& pending matches Action::StoreOpstamp { index, .. } ==> held.same(
                Held::catalog_and_writer(index),
            )
            &&& pending matches Action::LockWriter { .. } ==> held.same(Held::catalog_only())
            &&& pending is LockCatalog ==> held.same(Held::nothing())
            &&& pending is UnlockCatalog ==> held.same(Held::catalog_only())
            &&& pending is AwaitTick ==> held.same(Held::nothing())
            &&& pending matches Action::Abort { index } ==> held.same(
                Held::catalog_and_writer(index),
            )
        }),
{
    lemma_held(seconds, events);
}

} // verus!
