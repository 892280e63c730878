//! What a task does over a whole sequence of events.
//!
//! [`run`] folds [`Step::next`] over the events a host reports, and
//! [`performed`] lists the actions those events were answers to: what the host
//! actually carried out. The laws here hold whatever the host reports.

use vstd::prelude::*;

use crate::protocol::{Action, Event};
use crate::task::{Stage, Step};

verus! {

/// The step after `event`: the one it leads to, or `step` itself where `event`
/// is no answer to the pending action.
pub open spec fn advance(step: Step, event: Event) -> Step {
    match step.next(event) {
        Some(next) => next,
        None => step,
    }
}

/// The step reached from `step` once `events` were handled in order.
pub open spec fn run(step: Step, events: Seq<Event>) -> Step
    decreases events.len(),
{
    if events.len() == 0 {
        step
    } else {
        advance(run(step, events.drop_last()), events.last())
    }
}

/// The actions that were carried out while `events` were handled from `step`
/// on: for every event that was an answer, in order, the action it answered.
pub open spec fn performed(step: Step, seconds: u64, events: Seq<Event>) -> Seq<Action>
    decreases events.len(),
{
    if events.len() == 0 {
        Seq::empty()
    } else {
        let earlier = events.drop_last();
        let before = run(step, earlier);
        if before.next(events.last()) is Some {
            performed(step, seconds, earlier).push(before.pending(seconds))
        } else {
            performed(step, seconds, earlier)
        }
    }
}

/// The events that were taken in while `events` were handled from `step` on:
/// those that were answers, in order. The event at a position is the answer to
/// the action at that position of [`performed`].
pub open spec fn taken(step: Step, events: Seq<Event>) -> Seq<Event>
    decreases events.len(),
{
    if events.len() == 0 {
        Seq::empty()
    } else {
        let earlier = events.drop_last();
        if run(step, earlier).next(events.last()) is Some {
            taken(step, earlier).push(events.last())
        } else {
            taken(step, earlier)
        }
    }
}

/// How often `action` occurs in `actions`.
pub open spec fn times(actions: Seq<Action>, action: Action) -> nat
    decreases actions.len(),
{
    if actions.len() == 0 {
        0
    } else {
        let earlier = times(actions.drop_last(), action);
        if actions.last() == action {
            earlier + 1
        } else {
            earlier
        }
    }
}

/// Handling one more event is one more [`advance`], and one more action
/// carried out where the event is an answer.
pub proof fn lemma_run_push(step: Step, seconds: u64, events: Seq<Event>, event: Event)
    ensures
        run(step, events.push(event)) == advance(run(step, events), event),
        performed(step, seconds, events.push(event)) == if run(step, events).next(event) is Some {
            performed(step, seconds, events).push(run(step, events).pending(seconds))
        } else {
            performed(step, seconds, events)
        },
{
    assert(events.push(event).drop_last() =~= events);
}

/// Events handled in two batches: the second batch starts where the first one
/// ended, and what was carried out is what each batch carried out.
pub proof fn lemma_run_split(step: Step, seconds: u64, first: Seq<Event>, second: Seq<Event>)
    ensures
        run(step, first + second) == run(run(step, first), second),
        performed(step, seconds, first + second) == performed(step, seconds, first) + performed(
            run(step, first),
            seconds,
            second,
        ),
    decreases second.len(),
{
    if second.len() == 0 {
        assert(first + second =~= first);
        assert(performed(step, seconds, first) + Seq::<Action>::empty() =~= performed(
            step,
            seconds,
            first,
        ));
    } else {
        let earlier = second.drop_last();
        lemma_run_split(step, seconds, first, earlier);
        assert((first + second).drop_last() =~= first + earlier);
        let done = performed(step, seconds, first);
        let rest = performed(run(step, first), seconds, earlier);
        let action = run(step, first + earlier).pending(seconds);
        assert((done + rest).push(action) =~= done + rest.push(action));
    }
}

/// A well-formed step stays well-formed whatever is reported.
pub proof fn lemma_run_wf(step: Step, events: Seq<Event>)
    requires
        step.wf(),
    ensures
        run(step, events).wf(),
    decreases events.len(),
{
    if events.len() > 0 {
        lemma_run_wf(step, events.drop_last());
    }
}

/// One more action at the end counts once where it is the action counted.
pub proof fn lemma_times_push(actions: Seq<Action>, last: Action, action: Action)
    ensures
        times(actions.push(last), action) == times(actions, action) + if last == action {
            1nat
        } else {
            0nat
        },
{
    assert(actions.push(last).drop_last() =~= actions);
}

/// Occurrences add up over a concatenation.
pub proof fn lemma_times_split(first: Seq<Action>, second: Seq<Action>, action: Action)
    ensures
        times(first + second, action) == times(first, action) + times(second, action),
    decreases second.len(),
{
    if second.len() == 0 {
        assert(first + second =~= first);
    } else {
        lemma_times_split(first, second.drop_last(), action);
        assert((first + second).drop_last() =~= first + second.drop_last());
    }
}

/// A terminated task is final: whatever is reported to it, it stays
/// terminated and nothing more is carried out.
pub proof fn lemma_terminated_is_final(index: usize, seconds: u64, events: Seq<Event>)
    ensures
        run(Step::Terminated { index }, events) == (Step::Terminated { index }),
        performed(Step::Terminated { index }, seconds, events) == Seq::<Action>::empty(),
    decreases events.len(),
{
    if events.len() > 0 {
        lemma_terminated_is_final(index, seconds, events.drop_last());
    }
}

/// The only value a task ever has stored as an opstamp is zero, whatever it
/// was told the opstamp was.
pub proof fn lemma_only_zero_is_stored(step: Step, seconds: u64, events: Seq<Event>, k: int)
    requires
        0 <= k < performed(step, seconds, events).len(),
    ensures
        performed(step, seconds, events)[k] matches Action::StoreOpstamp { value, .. } ==> value
            == 0,
    decreases events.len(),
{
    if events.len() > 0 {
        let earlier = events.drop_last();
        if k < performed(step, seconds, earlier).len() {
            lemma_only_zero_is_stored(step, seconds, earlier, k);
        }
    }
}

/// What the last exchanges were when a task stands at `step` in the middle of
/// a visit: the reading that sent it there, and the lock or the commit that
/// followed.
spec fn trail(step: Step, done: Seq<Action>, told: Seq<Event>) -> bool {
    let n = done.len() as int;
    &&& told.len() == n
    &&& match step {
        Step::Visiting { index, stage, .. } => match stage {
            Stage::Report => {
                &&& n >= 1
                &&& done[n - 1] == Action::ReadOpstamp { index }
                &&& told[n - 1] == Event::Opstamp { value: 0 }
            },
            Stage::LockWriter => {
                &&& n >= 1
                &&& done[n - 1] == Action::ReadOpstamp { index }
                &&& told[n - 1] matches Event::Opstamp { value }
                &&& value != 0
            },
            Stage::Commit => {
                &&& n >= 2
                &&& done[n - 2] == Action::ReadOpstamp { index }
                &&& done[n - 1] == Action::LockWriter { index }
                &&& told[n - 2] matches Event::Opstamp { value }
                &&& value != 0
            },
            Stage::Reset => {
                &&& n >= 1
                &&& done[n - 1] == Action::Commit { index }
                &&& told[n - 1] == Event::CommitSucceeded
            },
            _ => true,
        },
        _ => true,
    }
}

proof fn lemma_trail(seconds: u64, events: Seq<Event>)
    ensures
        trail(
            run(Step::Idle, events),
            performed(Step::Idle, seconds, events),
            taken(Step::Idle, events),
        ),
    decreases events.len(),
{
    if events.len() > 0 {
        lemma_trail(seconds, events.drop_last());
    }
}

/// Whatever the host reports to a task that started idle, every commit, every
/// store and every record of a clean index that is carried out has been earned:
/// a commit comes right after the lock on the writer of that index, which
/// comes right after a reading of its opstamp that was not zero;
/// a store writes zero and comes right after a commit of that index that went
/// through;
/// a clean index is recorded right after a reading of its opstamp that was
/// zero.
pub proof fn lemma_actions_are_earned(seconds: u64, events: Seq<Event>, k: int)
    requires
        0 <= k < performed(Step::Idle, seconds, events).len(),
    ensures
        ({
            let done = performed(Step::Idle, seconds, events);
            let told = taken(Step::Idle, events);
            &&& told.len() == done.len()
            &&& done[k] matches Action::Commit { index } ==> {
                &&& k >= 2
                &&& done[k - 2] == Action::ReadOpstamp { index }
                &&& done[k - 1] == Action::LockWriter { index }
                &&& told[k - 2] matches Event::Opstamp { value }
                &&& value != 0
            }
            &&& done[k] matches Action::StoreOpstamp { index, value } ==> {
                &&& value == 0
                &&& k >= 1
                &&& done[k - 1] == Action::Commit { index }
                &&& told[k - 1] == Event::CommitSucceeded
            }
            &&& done[k] matches Action::ReportIdle { index } ==> {
                &&& k >= 1
                &&& done[k - 1] == Action::ReadOpstamp { index }
                &&& told[k - 1] == Event::Opstamp { value: 0 }
            }
        }),
    decreases events.len(),
{
    let earlier = events.drop_last();
    lemma_trail(seconds, earlier);
    lemma_trail(seconds, events);
    if k < performed(Step::Idle, seconds, earlier).len() {
        lemma_actions_are_earned(seconds, earlier, k);
    }
}

} // verus!
