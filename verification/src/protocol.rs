//! The words exchanged between the commit task and the host that runs it.
//!
//! The task never touches a catalog, a lock or a writer itself. It names the
//! next thing to be done as an [`Action`]; the host does it and reports what
//! came of it as an [`Event`].

use vstd::prelude::*;

verus! {

/// One thing the task asks its host to do.
///
/// An index is named by its position in the snapshot that the host took when
/// it performed [`Action::LockCatalog`] for the running tick.
#[derive(Clone, Copy, Debug, PartialEq, Eq, Structural)]
pub enum Action {
    /// Wait for the next firing of a timer whose period is `seconds`.
    AwaitTick { seconds: u64 },
    /// Take the shared lock on the catalog and snapshot the indexes in it.
    LockCatalog,
    /// Read the opstamp of an index.
    ReadOpstamp { index: usize },
    /// Record that an index had nothing to commit.
    ReportIdle { index: usize },
    /// Take the exclusive lock on the writer of an index.
    LockWriter { index: usize },
    /// Commit through the writer of an index.
    Commit { index: usize },
    /// Store `value` as the opstamp of an index.
    StoreOpstamp { index: usize, value: u64 },
    /// Give the writer lock of an index back.
    UnlockWriter { index: usize },
    /// Give the catalog lock back.
    UnlockCatalog,
    /// Give up for good: the commit of an index failed.
    Abort { index: usize },
}

/// What the host reports once it has performed an action.
#[derive(Clone, Copy, Debug, PartialEq, Eq, Structural)]
pub enum Event {
    /// The timer fired.
    Tick,
    /// The catalog is locked and its snapshot holds `indexes` indexes.
    Snapshot { indexes: usize },
    /// The opstamp that was read.
    Opstamp { value: u64 },
    /// The commit went through.
    CommitSucceeded,
    /// The commit failed.
    CommitFailed,
    /// An action that yields no value has been carried out.
    Done,
}

} // verus!
