//! The commit task as a state machine.
//!
//! Once per tick the task locks the catalog, walks the snapshot of its indexes
//! in order and, for each, reads the opstamp: zero means nothing to do, anything
//! else means lock the writer, commit, store zero as the opstamp and unlock.
//! A failed commit ends the task.

use vstd::prelude::*;

use crate::protocol::{Action, Event};

verus! {

/// What is being done to the index under visit.
#[derive(Clone, Copy, Debug, PartialEq, Eq, Structural)]
pub enum Stage {
    /// Its opstamp is being read.
    Inspect,
    /// It was clean, which is being recorded.
    Report,
    /// It was dirty and the lock on its writer is being taken.
    LockWriter,
    /// Its writer is committing.
    Commit,
    /// Its opstamp is being cleared.
    Reset,
    /// The lock on its writer is being given back.
    UnlockWriter,
}

/// Where the task stands: the action it has asked for and not yet heard of.
#[derive(Clone, Copy, Debug, PartialEq, Eq, Structural)]
pub enum Step {
    /// Between two ticks.
    Idle,
    /// The timer fired and the catalog is being locked.
    Opening,
    /// The index at `index` of a snapshot of `total` indexes is under visit.
    Visiting { index: usize, total: usize, stage: Stage },
    /// Every index was visited and the catalog is being unlocked.
    Closing,
    /// The commit of the index at `index` failed. Nothing follows.
    Terminated { index: usize },
}

/// The three states a watcher of the task can tell apart.
#[derive(Clone, Copy, Debug, PartialEq, Eq, Structural)]
pub enum Phase {
    /// Waiting for the next tick.
    Idle,
    /// Working through a tick.
    Committing,
    /// Stopped by a failed commit.
    Terminated,
}

impl Step {
    /// An index under visit lies inside its snapshot.
    pub open spec fn wf(self) -> bool {
        self matches Step::Visiting { index, total, .. } ==> index < total
    }

    /// The step at which the visit of the index at `index` begins: its
    /// inspection, or the unlocking of the catalog where `index` lies outside a
    /// snapshot of `total` indexes.
    pub open spec fn visit(index: int, total: usize) -> Step {
        if 0 <= index < total {
            Step::Visiting { index: index as usize, total, stage: Stage::Inspect }
        } else {
            Step::Closing
        }
    }

    /// The action that a task with a period of `seconds` waits on at this step.
    pub open spec fn pending(self, seconds: u64) -> Action {
        match self {
            Step::Idle => Action::AwaitTick { seconds },
            Step::Opening => Action::LockCatalog,
            Step::Visiting { index, stage, .. } => match stage {
                Stage::Inspect => Action::ReadOpstamp { index },
                Stage::Report => Action::ReportIdle { index },
                Stage::LockWriter => Action::LockWriter { index },
                Stage::Commit => Action::Commit { index },
                Stage::Reset => Action::StoreOpstamp { index, value: 0 },
                Stage::UnlockWriter => Action::UnlockWriter { index },
            },
            Step::Closing => Action::UnlockCatalog,
            Step::Terminated { index } => Action::Abort { index },
        }
    }

    /// The step that `event` leads to, or `None` where `event` is no answer to
    /// the action pending at this step.
    pub open spec fn next(self, event: Event) -> Option<Step> {
        match (self, event) {
            (Step::Idle, Event::Tick) => Some(Step::Opening),
            (Step::Opening, Event::Snapshot { indexes }) => Some(Step::visit(0, indexes)),
            (Step::Visiting { index, total, stage }, _) => match (stage, event) {
                (Stage::Inspect, Event::Opstamp { value }) => Some(
                    Step::Visiting {
                        index,
                        total,
                        stage: if value == 0 {
                            Stage::Report
                        } else {
                            Stage::LockWriter
                        },
                    },
                ),
                (Stage::Report, Event::Done) => Some(Step::visit(index + 1, total)),
                (Stage::LockWriter, Event::Done) => Some(
                    Step::Visiting { index, total, stage: Stage::Commit },
                ),
                (Stage::Commit, Event::CommitSucceeded) => Some(
                    Step::Visiting { index, total, stage: Stage::Reset },
                ),
                (Stage::Commit, Event::CommitFailed) => Some(Step::Terminated { index }),
                (Stage::Reset, Event::Done) => Some(
                    Step::Visiting { index, total, stage: Stage::UnlockWriter },
                ),
                (Stage::UnlockWriter, Event::Done) => Some(Step::visit(index + 1, total)),
                _ => None,
            },
            (Step::Closing, Event::Done) => Some(Step::Idle),
            _ => None,
        }
    }

    /// The coarse state that this step belongs to.
    pub open spec fn phase(self) -> Phase {
        match self {
            Step::Idle => Phase::Idle,
            Step::Terminated { .. } => Phase::Terminated,
            _ => Phase::Committing,
        }
    }
}

/// How the coarse state changes: only a tick takes an idle task to work, and
/// a tick is taken by an idle task only; only the unlocking of the catalog at
/// the end of a scan takes a working task back to idle; only a failed commit
/// terminates a task; and a terminated task takes nothing.
pub proof fn lemma_phase_changes(step: Step, event: Event)
    requires
        step.next(event) is Some,
    ensures
        ({
            let next = step.next(event)->0;
            &&& step.phase() != Phase::Terminated
            &&& step.phase() == Phase::Idle <==> event == Event::Tick
            &&& step.phase() == Phase::Idle ==> next.phase() == Phase::Committing
            &&& next.phase() == Phase::Idle <==> step == Step::Closing
            &&& next.phase() == Phase::Terminated <==> event == Event::CommitFailed
        }),
{
}

/// What a [`CommitTask`] is, seen from outside.
pub struct TaskView {
    /// The period of its timer, in seconds.
    pub seconds: u64,
    /// Where it stands.
    pub step: Step,
}

/// A running commit task: the period of its timer and where it stands.
pub struct CommitTask {
    seconds: u64,
    step: Step,
}

impl View for CommitTask {
    type V = TaskView;

    closed spec fn view(&self) -> TaskView {
        TaskView { seconds: self.seconds, step: self.step }
    }
}

impl CommitTask {
    #[verifier::type_invariant]
    spec fn inv(self) -> bool {
        self.seconds > 0 && self.step.wf()
    }

    /// A task that waits for its first tick.
    pub(crate) fn idle(seconds: u64) -> (task: CommitTask)
        requires
            seconds > 0,
        ensures
            task@ == (TaskView { seconds, step: Step::Idle }),
    {
        CommitTask { seconds, step: Step::Idle }
    }

    /// The action the task waits on.
    pub fn pending(&self) -> (action: Action)
        ensures
            action == self@.step.pending(self@.seconds),
            self@.step.wf(),
            self@.seconds > 0,
    {
        proof {
            use_type_invariant(self);
        }
        pending_at(self.step, self.seconds)
    }

    /// The coarse state of the task.
    pub fn phase(&self) -> (phase: Phase)
        ensures
            phase == self@.step.phase(),
    {
        match self.step {
            Step::Idle => Phase::Idle,
            Step::Terminated { .. } => Phase::Terminated,
            _ => Phase::Committing,
        }
    }

    /// Takes in what the host reports of the pending action.
    ///
    /// Where `event` answers the pending action, the task moves on and the
    /// action it now waits on is returned. Where it does not, the task stays as
    /// it is and `None` is returned. A terminated task takes no event.
    pub fn handle(&mut self, event: Event) -> (reply: Option<Action>)
        ensures
            final(self)@.seconds == old(self)@.seconds,
            final(self)@.step.wf(),
            match old(self)@.step.next(event) {
                Some(step) => final(self)@.step == step && reply == Some(
                    step.pending(old(self)@.seconds),
                ),
                None => final(self)@.step == old(self)@.step && reply is None,
            },
    {
        proof {
            use_type_invariant(&*self);
        }
        match next_step(self.step, event) {
            Some(step) => {
                self.step = step;
                Some(pending_at(step, self.seconds))
            },
            None => None,
        }
    }
}

/// Computes [`Step::pending`].
fn pending_at(step: Step, seconds: u64) -> (action: Action)
    ensures
        action == step.pending(seconds),
{
    match step {
        Step::Idle => Action::AwaitTick { seconds },
        Step::Opening => Action::LockCatalog,
        Step::Visiting { index, total: _, stage } => match stage {
            Stage::Inspect => Action::ReadOpstamp { index },
            Stage::Report => Action::ReportIdle { index },
            Stage::LockWriter => Action::LockWriter { index },
            Stage::Commit => Action::Commit { index },
            Stage::Reset => Action::StoreOpstamp { index, value: 0 },
            Stage::UnlockWriter => Action::UnlockWriter { index },
        },
        Step::Closing => Action::UnlockCatalog,
        Step::Terminated { index } => Action::Abort { index },
    }
}

/// Computes [`Step::visit`] for the index behind `index`.
fn visit_after(index: usize, total: usize) -> (step: Step)
    requires
        index < total,
    ensures
        step == Step::visit(index + 1, total),
        step.wf(),
{
    if index + 1 < total {
        Step::Visiting { index: index + 1, total, stage: Stage::Inspect }
    } else {
        Step::Closing
    }
}

/// Computes [`Step::next`].
fn next_step(step: Step, event: Event) -> (next: Option<Step>)
    requires
        step.wf(),
    ensures
        next == step.next(event),
        next matches Some(s) ==> s.wf(),
{
    match step {
        Step::Idle => match event {
            Event::Tick => Some(Step::Opening),
            _ => None,
        },
        Step::Opening => match event {
            Event::Snapshot { indexes } => if indexes == 0 {
                Some(Step::Closing)
            } else {
                Some(Step::Visiting { index: 0, total: indexes, stage: Stage::Inspect })
            },
            _ => None,
        },
        Step::Visiting { index, total, stage } => match (stage, event) {
            (Stage::Inspect, Event::Opstamp { value }) => if value == 0 {
                Some(Step::Visiting { index, total, stage: Stage::Report })
            } else {
                Some(Step::Visiting { index, total, stage: Stage::LockWriter })
            },
            (Stage::Report, Event::Done) => Some(visit_after(index, total)),
            (Stage::LockWriter, Event::Done) => Some(
                Step::Visiting { index, total, stage: Stage::Commit },
            ),
            (Stage::Commit, Event::CommitSucceeded) => Some(
                Step::Visiting { index, total, stage: Stage::Reset },
            ),
            (Stage::Commit, Event::CommitFailed) => Some(Step::Terminated { index }),
            (Stage::Reset, Event::Done) => Some(
                Step::Visiting { index, total, stage: Stage::UnlockWriter },
            ),
            (Stage::UnlockWriter, Event::Done) => Some(visit_after(index, total)),
            _ => None,
        },
        Step::Closing => match event {
            Event::Done => Some(Step::Idle),
            _ => None,
        },
        Step::Terminated { .. } => None,
    }
}

} // verus!
