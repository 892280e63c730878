//! Decisions of a background task that commits every dirty index of a catalog
//! once per tick of a timer.
//!
//! The task is a state machine. It owns no lock, writer or timer: a host
//! performs each [`protocol::Action`] the task names and hands the outcome back
//! as a [`protocol::Event`].
//!
//! - [`commit`] holds the watcher, which a host starts to get a task.
//! - [`protocol`] holds the actions and the events.
//! - [`task`] holds the task: its steps, and the one function that moves it.
//! - [`history`] says what a task does over a sequence of events, whatever
//!   the host reports.
//! - [`tick`] says what a task does over a tick with a host that does as it
//!   is asked: which indexes are committed, how often, and what a failed
//!   commit spares.
//! - [`locks`] says which locks are held when.

pub mod commit;
pub mod history;
pub mod locks;
pub mod protocol;
pub mod task;
pub mod tick;
