//! One tick against a host that does what it is asked.
//!
//! A tick is described by what the host finds at each index of the snapshot:
//! the opstamp it reads and whether a commit would go through. From these
//! [`tick_events`] gives the events such a host reports, and the laws say which
//! actions the task has it carry out: no commit on a clean index, exactly one on
//! a dirty one, and none at all behind a commit that failed.

use vstd::prelude::*;

use crate::history::{
    lemma_run_push, lemma_run_split, lemma_terminated_is_final, lemma_times_push,
    lemma_times_split, performed, run, times,
};
use crate::protocol::{Action, Event};
use crate::task::{Phase, Stage, Step};

verus! {

/// What the host finds at one index during a tick.
pub struct Finding {
    /// The opstamp it reads.
    pub opstamp: u64,
    /// Whether a commit through the writer of the index goes through.
    pub commit_succeeds: bool,
}

impl Finding {
    /// The index has mutations that no commit has covered.
    pub open spec fn dirty(self) -> bool {
        self.opstamp != 0
    }

    /// The index is dirty and its commit fails, which ends the task.
    pub open spec fn fatal(self) -> bool {
        self.opstamp != 0 && !self.commit_succeeds
    }
}

/// The events reported during the visit of an index at which `found` is found.
pub open spec fn visit_events(found: Finding) -> Seq<Event> {
    if !found.dirty() {
        seq![Event::Opstamp { value: found.opstamp }, Event::Done]
    } else if found.commit_succeeds {
        seq![
            Event::Opstamp { value: found.opstamp },
            Event::Done,
            Event::CommitSucceeded,
            Event::Done,
            Event::Done,
        ]
    } else {
        seq![Event::Opstamp { value: found.opstamp }, Event::Done, Event::CommitFailed]
    }
}

/// The actions carried out during the visit of the index at `index`, at which
/// `found` is found.
pub open spec fn visit_actions(index: usize, found: Finding) -> Seq<Action> {
    if !found.dirty() {
        seq![Action::ReadOpstamp { index }, Action::ReportIdle { index }]
    } else if found.commit_succeeds {
        seq![
            Action::ReadOpstamp { index },
            Action::LockWriter { index },
            Action::Commit { index },
            Action::StoreOpstamp { index, value: 0 },
            Action::UnlockWriter { index },
        ]
    } else {
        seq![Action::ReadOpstamp { index }, Action::LockWriter { index }, Action::Commit { index }]
    }
}

/// The first index at or behind `from` whose commit fails, or the number of
/// indexes where there is none.
pub open spec fn stop(findings: Seq<Finding>, from: int) -> int
    decreases findings.len() - from,
{
    if !(0 <= from < findings.len()) {
        findings.len() as int
    } else if findings[from].fatal() {
        from
    } else {
        stop(findings, from + 1)
    }
}

/// The events reported while the indexes from `from` on are visited in order,
/// up to and including the first commit that fails.
pub open spec fn scan_events(findings: Seq<Finding>, from: int) -> Seq<Event>
    decreases findings.len() - from,
{
    if !(0 <= from < findings.len()) {
        Seq::empty()
    } else if findings[from].fatal() {
        visit_events(findings[from])
    } else {
        visit_events(findings[from]) + scan_events(findings, from + 1)
    }
}

/// The actions carried out while the indexes from `from` on are visited in
/// order, up to and including the first commit that fails.
pub open spec fn scan_actions(findings: Seq<Finding>, from: int) -> Seq<Action>
    decreases findings.len() - from,
{
    if !(0 <= from < findings.len()) {
        Seq::empty()
    } else if findings[from].fatal() {
        visit_actions(from as usize, findings[from])
    } else {
        visit_actions(from as usize, findings[from]) + scan_actions(findings, from + 1)
    }
}

/// The events of one tick: the timer fires, the catalog is locked with
/// `findings.len()` indexes in its snapshot, the indexes are visited, and the
/// catalog is unlocked unless a commit failed.
pub open spec fn tick_events(findings: Seq<Finding>) -> Seq<Event> {
    seq![Event::Tick, Event::Snapshot { indexes: findings.len() as usize }] + scan_events(
        findings,
        0,
    ) + if stop(findings, 0) == findings.len() {
        seq![Event::Done]
    } else {
        Seq::empty()
    }
}

/// The actions of one tick of a task with a period of `seconds`.
pub open spec fn tick_actions(seconds: u64, findings: Seq<Finding>) -> Seq<Action> {
    seq![Action::AwaitTick { seconds }, Action::LockCatalog] + scan_actions(findings, 0) + if stop(
        findings,
        0,
    ) == findings.len() {
        seq![Action::UnlockCatalog]
    } else {
        Seq::empty()
    }
}

/// The events of several ticks in a row, one entry of `rounds` per tick.
pub open spec fn ticks_events(rounds: Seq<Seq<Finding>>) -> Seq<Event>
    decreases rounds.len(),
{
    if rounds.len() == 0 {
        Seq::empty()
    } else {
        ticks_events(rounds.drop_last()) + tick_events(rounds.last())
    }
}

/// The opstamp of the index at `index` once the host has carried out `action`,
/// where it stood at `before`.
pub open spec fn opstamp_after(action: Action, index: usize, before: nat) -> nat {
    match action {
        Action::StoreOpstamp { index: stored, value } => if stored == index {
            value as nat
        } else {
            before
        },
        _ => before,
    }
}

/// [`stop`] is the first failing commit: no commit fails between `from` and
/// it, and the commit at it fails unless it lies behind the last index.
pub proof fn lemma_stop(findings: Seq<Finding>, from: int)
    requires
        0 <= from <= findings.len(),
    ensures
        from <= stop(findings, from) <= findings.len(),
        forall|j: int| from <= j < stop(findings, from) ==> !(#[trigger] findings[j]).fatal(),
        stop(findings, from) < findings.len() ==> findings[stop(findings, from)].fatal(),
    decreases findings.len() - from,
{
    if from < findings.len() && !findings[from].fatal() {
        lemma_stop(findings, from + 1);
    }
}

/// The visit of one index: what is carried out, and where the task stands
/// after it.
pub proof fn lemma_visit(seconds: u64, index: usize, total: usize, found: Finding)
    requires
        index < total,
    ensures
        performed(
            Step::Visiting { index, total, stage: Stage::Inspect },
            seconds,
            visit_events(found),
        ) == visit_actions(index, found),
        run(Step::Visiting { index, total, stage: Stage::Inspect }, visit_events(found)) == if found.fatal() {
            Step::Terminated { index }
        } else {
            Step::visit(index + 1, total)
        },
{
    let start = Step::Visiting { index, total, stage: Stage::Inspect };
    let e0 = Seq::<Event>::empty();
    let e1 = e0.push(Event::Opstamp { value: found.opstamp });
    let e2 = e1.push(Event::Done);
    lemma_run_push(start, seconds, e0, Event::Opstamp { value: found.opstamp });
    lemma_run_push(start, seconds, e1, Event::Done);
    if !found.dirty() {
        assert(visit_events(found) =~= e2);
        assert(performed(start, seconds, e2) =~= visit_actions(index, found));
    } else if found.commit_succeeds {
        let e3 = e2.push(Event::CommitSucceeded);
        let e4 = e3.push(Event::Done);
        let e5 = e4.push(Event::Done);
        lemma_run_push(start, seconds, e2, Event::CommitSucceeded);
        lemma_run_push(start, seconds, e3, Event::Done);
        lemma_run_push(start, seconds, e4, Event::Done);
        assert(visit_events(found) =~= e5);
        assert(performed(start, seconds, e5) =~= visit_actions(index, found));
    } else {
        let e3 = e2.push(Event::CommitFailed);
        lemma_run_push(start, seconds, e2, Event::CommitFailed);
        assert(visit_events(found) =~= e3);
        assert(performed(start, seconds, e3) =~= visit_actions(index, found));
    }
}

/// The visits from `from` on: what is carried out, and where the task stands
/// after them.
pub proof fn lemma_scan(seconds: u64, findings: Seq<Finding>, from: int)
    requires
        0 <= from <= findings.len() <= usize::MAX,
    ensures
        performed(
            Step::visit(from, findings.len() as usize),
            seconds,
            scan_events(findings, from),
        ) == scan_actions(findings, from),
        run(Step::visit(from, findings.len() as usize), scan_events(findings, from)) == if stop(
            findings,
            from,
        ) < findings.len() {
            Step::Terminated { index: stop(findings, from) as usize }
        } else {
            Step::Closing
        },
    decreases findings.len() - from,
{
    let total = findings.len() as usize;
    if from < findings.len() {
        let found = findings[from];
        lemma_visit(seconds, from as usize, total, found);
        if !found.fatal() {
            lemma_scan(seconds, findings, from + 1);
            lemma_run_split(
                Step::visit(from, total),
                seconds,
                visit_events(found),
                scan_events(findings, from + 1),
            );
        }
    }
}

/// One tick from an idle task: what is carried out is [`tick_actions`], and
/// the task is idle again afterwards, or terminated at the first index whose
/// commit failed.
pub proof fn lemma_tick(seconds: u64, findings: Seq<Finding>)
    requires
        findings.len() <= usize::MAX,
    ensures
        performed(Step::Idle, seconds, tick_events(findings)) == tick_actions(seconds, findings),
        run(Step::Idle, tick_events(findings)) == if stop(findings, 0) < findings.len() {
            Step::Terminated { index: stop(findings, 0) as usize }
        } else {
            Step::Idle
        },
{
    let total = findings.len() as usize;
    let snapshot = Event::Snapshot { indexes: total };
    let h0 = Seq::<Event>::empty();
    let h1 = h0.push(Event::Tick);
    let head = h1.push(snapshot);
    lemma_run_push(Step::Idle, seconds, h0, Event::Tick);
    lemma_run_push(Step::Idle, seconds, h1, snapshot);
    assert(head =~= seq![Event::Tick, snapshot]);
    assert(performed(Step::Idle, seconds, head) =~= seq![
        Action::AwaitTick { seconds },
        Action::LockCatalog,
    ]);
    let scan = scan_events(findings, 0);
    lemma_scan(seconds, findings, 0);
    lemma_stop(findings, 0);
    lemma_run_split(Step::Idle, seconds, head, scan);
    if stop(findings, 0) == findings.len() {
        let tail = h0.push(Event::Done);
        lemma_run_push(Step::Closing, seconds, h0, Event::Done);
        assert(tail =~= seq![Event::Done]);
        assert(performed(Step::Closing, seconds, tail) =~= seq![Action::UnlockCatalog]);
        lemma_run_split(Step::Idle, seconds, head + scan, tail);
    } else {
        lemma_run_split(Step::Idle, seconds, head + scan, h0);
    }
}

/// How often the visit of one index commits, and how often it clears the
/// opstamp: once where the index is dirty, and the clearing only where the
/// commit went through.
proof fn lemma_visit_times(index: usize, found: Finding, other: usize)
    ensures
        times(visit_actions(index, found), Action::Commit { index: other }) == if other == index
            && found.dirty() {
            1nat
        } else {
            0nat
        },
        times(visit_actions(index, found), Action::StoreOpstamp { index: other, value: 0 })
            == if other == index && found.dirty() && found.commit_succeeds {
            1nat
        } else {
            0nat
        },
{
    let commit = Action::Commit { index: other };
    let store = Action::StoreOpstamp { index: other, value: 0 };
    let a0 = Seq::<Action>::empty();
    let a1 = a0.push(Action::ReadOpstamp { index });
    lemma_times_push(a0, Action::ReadOpstamp { index }, commit);
    lemma_times_push(a0, Action::ReadOpstamp { index }, store);
    if !found.dirty() {
        let a2 = a1.push(Action::ReportIdle { index });
        lemma_times_push(a1, Action::ReportIdle { index }, commit);
        lemma_times_push(a1, Action::ReportIdle { index }, store);
        assert(visit_actions(index, found) =~= a2);
    } else {
        let a2 = a1.push(Action::LockWriter { index });
        let a3 = a2.push(Action::Commit { index });
        lemma_times_push(a1, Action::LockWriter { index }, commit);
        lemma_times_push(a1, Action::LockWriter { index }, store);
        lemma_times_push(a2, Action::Commit { index }, commit);
        lemma_times_push(a2, Action::Commit { index }, store);
        if found.commit_succeeds {
            let a4 = a3.push(Action::StoreOpstamp { index, value: 0 });
            let a5 = a4.push(Action::UnlockWriter { index });
            lemma_times_push(a3, Action::StoreOpstamp { index, value: 0 }, commit);
            lemma_times_push(a3, Action::StoreOpstamp { index, value: 0 }, store);
            lemma_times_push(a4, Action::UnlockWriter { index }, commit);
            lemma_times_push(a4, Action::UnlockWriter { index }, store);
            assert(visit_actions(index, found) =~= a5);
        } else {
            assert(visit_actions(index, found) =~= a3);
        }
    }
}

/// How often the visits from `from` on commit the index at `index`, and how
/// often they clear its opstamp.
proof fn lemma_scan_times(findings: Seq<Finding>, from: int, index: usize)
    requires
        0 <= from <= findings.len() <= usize::MAX,
    ensures
        times(scan_actions(findings, from), Action::Commit { index }) == if from <= index <= stop(
            findings,
            from,
        ) && index < findings.len() && findings[index as int].dirty() {
            1nat
        } else {
            0nat
        },
        times(scan_actions(findings, from), Action::StoreOpstamp { index, value: 0 }) == if from
            <= index < stop(findings, from) && findings[index as int].dirty() {
            1nat
        } else {
            0nat
        },
    decreases findings.len() - from,
{
    if from < findings.len() {
        let found = findings[from];
        lemma_visit_times(from as usize, found, index);
        if !found.fatal() {
            lemma_scan_times(findings, from + 1, index);
            lemma_stop(findings, from + 1);
            let first = visit_actions(from as usize, found);
            let rest = scan_actions(findings, from + 1);
            lemma_times_split(first, rest, Action::Commit { index });
            lemma_times_split(first, rest, Action::StoreOpstamp { index, value: 0 });
        }
    }
}

/// How often one tick commits the index at `index`, and how often it clears
/// its opstamp.
proof fn lemma_tick_times(seconds: u64, findings: Seq<Finding>, index: usize)
    requires
        findings.len() <= usize::MAX,
    ensures
        times(tick_actions(seconds, findings), Action::Commit { index }) == times(
            scan_actions(findings, 0),
            Action::Commit { index },
        ),
        times(tick_actions(seconds, findings), Action::StoreOpstamp { index, value: 0 }) == times(
            scan_actions(findings, 0),
            Action::StoreOpstamp { index, value: 0 },
        ),
{
    let commit = Action::Commit { index };
    let store = Action::StoreOpstamp { index, value: 0 };
    let a0 = Seq::<Action>::empty();
    let a1 = a0.push(Action::AwaitTick { seconds });
    let head = a1.push(Action::LockCatalog);
    let tail = a0.push(Action::UnlockCatalog);
    let scan = scan_actions(findings, 0);
    lemma_times_push(a0, Action::AwaitTick { seconds }, commit);
    lemma_times_push(a0, Action::AwaitTick { seconds }, store);
    lemma_times_push(a1, Action::LockCatalog, commit);
    lemma_times_push(a1, Action::LockCatalog, store);
    lemma_times_push(a0, Action::UnlockCatalog, commit);
    lemma_times_push(a0, Action::UnlockCatalog, store);
    assert(head =~= seq![Action::AwaitTick { seconds }, Action::LockCatalog]);
    assert(tail =~= seq![Action::UnlockCatalog]);
    lemma_times_split(head, scan, commit);
    lemma_times_split(head, scan, store);
    if stop(findings, 0) == findings.len() {
        lemma_times_split(head + scan, tail, commit);
        lemma_times_split(head + scan, tail, store);
    } else {
        lemma_times_split(head + scan, a0, commit);
        lemma_times_split(head + scan, a0, store);
    }
}

/// An index whose opstamp reads zero is not committed during the tick, and
/// its opstamp is not written.
pub proof fn lemma_clean_index_is_left_alone(seconds: u64, findings: Seq<Finding>, index: usize)
    requires
        findings.len() <= usize::MAX,
        index < findings.len() ==> findings[index as int].opstamp == 0,
    ensures
        times(performed(Step::Idle, seconds, tick_events(findings)), Action::Commit { index })
            == 0,
        times(
            performed(Step::Idle, seconds, tick_events(findings)),
            Action::StoreOpstamp { index, value: 0 },
        ) == 0,
{
    lemma_tick(seconds, findings);
    lemma_tick_times(seconds, findings, index);
    lemma_scan_times(findings, 0, index);
    lemma_stop(findings, 0);
}

/// An index whose opstamp reads other than zero, in a tick that gets as far as
/// that index, is committed exactly once. Where the commit goes through, zero
/// is stored as its opstamp exactly once; where it fails, its opstamp is left
/// as it is.
pub proof fn lemma_dirty_index_is_committed_once(
    seconds: u64,
    findings: Seq<Finding>,
    index: usize,
)
    requires
        findings.len() <= usize::MAX,
        index < findings.len(),
        findings[index as int].opstamp > 0,
        forall|j: int| 0 <= j < index ==> !(#[trigger] findings[j]).fatal(),
    ensures
        times(performed(Step::Idle, seconds, tick_events(findings)), Action::Commit { index })
            == 1,
        times(
            performed(Step::Idle, seconds, tick_events(findings)),
            Action::StoreOpstamp { index, value: 0 },
        ) == if findings[index as int].commit_succeeds {
            1nat
        } else {
            0nat
        },
{
    lemma_tick(seconds, findings);
    lemma_tick_times(seconds, findings, index);
    lemma_scan_times(findings, 0, index);
    lemma_stop(findings, 0);
}

/// A commit that fails ends the task, and no index behind the failing one is
/// committed during that tick, dirty or not.
pub proof fn lemma_failed_commit_ends_the_tick(
    seconds: u64,
    findings: Seq<Finding>,
    failed: usize,
    later: usize,
)
    requires
        findings.len() <= usize::MAX,
        failed < findings.len(),
        findings[failed as int].fatal(),
        failed < later,
    ensures
        run(Step::Idle, tick_events(findings)).phase() == Phase::Terminated,
        times(performed(Step::Idle, seconds, tick_events(findings)), Action::Commit { index: later })
            == 0,
{
    lemma_tick(seconds, findings);
    lemma_tick_times(seconds, findings, later);
    lemma_scan_times(findings, 0, later);
    lemma_stop(findings, 0);
}

/// After any number of ticks the task is between two ticks or terminated.
pub proof fn lemma_ticks_end(seconds: u64, rounds: Seq<Seq<Finding>>)
    requires
        forall|r: int| 0 <= r < rounds.len() ==> (#[trigger] rounds[r]).len() <= usize::MAX,
    ensures
        run(Step::Idle, ticks_events(rounds)).phase() != Phase::Committing,
    decreases rounds.len(),
{
    if rounds.len() > 0 {
        let earlier = rounds.drop_last();
        lemma_ticks_end(seconds, earlier);
        lemma_run_split(Step::Idle, seconds, ticks_events(earlier), tick_events(rounds.last()));
        match run(Step::Idle, ticks_events(earlier)) {
            Step::Terminated { index } => {
                lemma_terminated_is_final(index, seconds, tick_events(rounds.last()));
            },
            _ => {
                lemma_tick(seconds, rounds.last());
            },
        }
    }
}

/// An index whose opstamp reads zero in every one of a row of ticks is never
/// committed in any of them.
pub proof fn lemma_clean_index_is_never_committed(
    seconds: u64,
    rounds: Seq<Seq<Finding>>,
    index: usize,
)
    requires
        forall|r: int| 0 <= r < rounds.len() ==> (#[trigger] rounds[r]).len() <= usize::MAX,
        forall|r: int|
            0 <= r < rounds.len() && index < (#[trigger] rounds[r]).len() ==> rounds[r][index as int].opstamp
                == 0,
    ensures
        times(performed(Step::Idle, seconds, ticks_events(rounds)), Action::Commit { index })
            == 0,
    decreases rounds.len(),
{
    if rounds.len() > 0 {
        let earlier = rounds.drop_last();
        let last = rounds.last();
        lemma_clean_index_is_never_committed(seconds, earlier, index);
        lemma_ticks_end(seconds, earlier);
        lemma_run_split(Step::Idle, seconds, ticks_events(earlier), tick_events(last));
        lemma_times_split(
            performed(Step::Idle, seconds, ticks_events(earlier)),
            performed(run(Step::Idle, ticks_events(earlier)), seconds, tick_events(last)),
            Action::Commit { index },
        );
        match run(Step::Idle, ticks_events(earlier)) {
            Step::Terminated { index: failed } => {
                lemma_terminated_is_final(failed, seconds, tick_events(last));
            },
            _ => {
                lemma_clean_index_is_left_alone(seconds, last, index);
            },
        }
    }
}

/// The opstamp is cleared, not reduced by what was read: mutations that raise
/// it by `late` between the read and the store are no longer counted once the
/// store is done, though the commit may not have covered them.
pub proof fn lemma_reset_forgets_late_mutations(
    seconds: u64,
    index: usize,
    total: usize,
    seen: u64,
    late: nat,
)
    requires
        index < total,
        seen > 0,
    ensures
        ({
            let found = Finding { opstamp: seen, commit_succeeds: true };
            let start = Step::Visiting { index, total, stage: Stage::Inspect };
            let done = performed(start, seconds, visit_events(found));
            &&& done.len() == 5
            &&& done[0] == Action::ReadOpstamp { index }
            &&& done[3] == Action::StoreOpstamp { index, value: 0 }
            &&& opstamp_after(done[3], index, (seen + late) as nat) == 0
        }),
{
    lemma_visit(seconds, index, total, Finding { opstamp: seen, commit_succeeds: true });
}

} // verus!
