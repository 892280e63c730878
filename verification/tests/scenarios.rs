use autocommit::commit::IndexWatcher;
use autocommit::protocol::{Action, Event};
use autocommit::task::{CommitTask, Phase};

/// One index of a catalog held in memory.
#[derive(Clone, Debug)]
struct Index {
    name: String,
    /// Documents a query can see.
    committed: u64,
    /// Documents added since the last commit.
    buffered: u64,
    opstamp: u64,
    /// How often commit was called on the writer.
    commits: u64,
    /// Whether a commit on the writer fails.
    broken: bool,
    writer_locked: bool,
}

impl Index {
    fn new(name: &str, committed: u64) -> Index {
        Index {
            name: name.to_string(),
            committed,
            buffered: 0,
            opstamp: 0,
            commits: 0,
            broken: false,
            writer_locked: false,
        }
    }

    /// Hands a document to the writer, which takes the writer lock.
    fn buffer_document(&mut self) {
        assert!(!self.writer_locked, "the writer of {} is locked", self.name);
        self.buffered += 1;
    }

    /// Counts one more mutation. Takes no lock.
    fn bump_opstamp(&mut self) {
        self.opstamp += 1;
    }

    fn add_document(&mut self) {
        self.buffer_document();
        self.bump_opstamp();
    }

    fn hits(&self) -> u64 {
        self.committed
    }
}

/// A host that does what it is asked on a catalog held in memory.
struct Host {
    catalog: Vec<Index>,
    catalog_locked: bool,
    /// Every action carried out, in order.
    log: Vec<Action>,
    /// An action before which the opstamp of index 0 is bumped once, as by an
    /// ingestion that runs beside the task.
    bump_before: Option<Action>,
}

impl Host {
    fn new(catalog: Vec<Index>) -> Host {
        Host { catalog, catalog_locked: false, log: Vec::new(), bump_before: None }
    }

    fn locked_writers(&self) -> usize {
        self.catalog.iter().filter(|index| index.writer_locked).count()
    }

    /// Carries out `action` and reports what came of it.
    fn perform(&mut self, action: Action) -> Event {
        if self.bump_before == Some(action) {
            self.catalog[0].bump_opstamp();
            self.bump_before = None;
        }
        self.log.push(action);
        match action {
            Action::AwaitTick { .. } => {
                assert!(!self.catalog_locked);
                assert_eq!(self.locked_writers(), 0);
                Event::Tick
            }
            Action::LockCatalog => {
                assert!(!self.catalog_locked);
                assert_eq!(self.locked_writers(), 0);
                self.catalog_locked = true;
                Event::Snapshot { indexes: self.catalog.len() }
            }
            Action::ReadOpstamp { index } => {
                assert!(self.catalog_locked);
                Event::Opstamp { value: self.catalog[index].opstamp }
            }
            Action::ReportIdle { index } => {
                assert!(index < self.catalog.len());
                Event::Done
            }
            Action::LockWriter { index } => {
                assert!(self.catalog_locked);
                assert_eq!(self.locked_writers(), 0);
                self.catalog[index].writer_locked = true;
                Event::Done
            }
            Action::Commit { index } => {
                assert!(self.catalog_locked);
                let target = &mut self.catalog[index];
                assert!(target.writer_locked);
                target.commits += 1;
                if target.broken {
                    Event::CommitFailed
                } else {
                    target.committed += target.buffered;
                    target.buffered = 0;
                    Event::CommitSucceeded
                }
            }
            Action::StoreOpstamp { index, value } => {
                assert!(self.catalog[index].writer_locked);
                self.catalog[index].opstamp = value;
                Event::Done
            }
            Action::UnlockWriter { index } => {
                assert!(self.catalog[index].writer_locked);
                self.catalog[index].writer_locked = false;
                Event::Done
            }
            Action::UnlockCatalog => {
                assert!(self.catalog_locked);
                assert_eq!(self.locked_writers(), 0);
                self.catalog_locked = false;
                Event::Done
            }
            Action::Abort { .. } => panic!("an abort is not carried out here"),
        }
    }

    /// Runs `task` through one tick. Returns whether the task survived it.
    fn tick(&mut self, task: &mut CommitTask) -> bool {
        let mut action = task.pending();
        assert!(matches!(action, Action::AwaitTick { .. }));
        loop {
            let event = self.perform(action);
            action = task.handle(event).expect("the host answers the pending action");
            match action {
                Action::AwaitTick { .. } => return true,
                Action::Abort { .. } => return false,
                _ => {}
            }
        }
    }

    fn commits_of(&self, index: usize) -> usize {
        self.log.iter().filter(|action| **action == Action::Commit { index }).count()
    }
}

fn started(seconds: u64) -> CommitTask {
    let (_, task) = IndexWatcher::new((), seconds).start();
    task
}

#[test]
fn test_auto_commit() {
    let mut host = Host::new(vec![Index::new("test_index", 5)]);
    let mut task = started(1);

    host.catalog[0].add_document();
    assert_eq!(5, host.catalog[0].hits());

    assert!(host.tick(&mut task));

    assert_eq!(6, host.catalog[0].hits());
    assert_eq!(host.catalog[0].name, "test_index");
}

#[test]
fn a_clean_index_is_not_committed() {
    let mut host = Host::new(vec![Index::new("a", 3)]);
    let mut task = started(1);
    assert!(host.tick(&mut task));
    assert_eq!(host.catalog[0].commits, 0);
    assert_eq!(
        host.log,
        vec![
            Action::AwaitTick { seconds: 1 },
            Action::LockCatalog,
            Action::ReadOpstamp { index: 0 },
            Action::ReportIdle { index: 0 },
            Action::UnlockCatalog,
        ]
    );
}

#[test]
fn a_dirty_index_is_committed_once_and_cleared() {
    let mut host = Host::new(vec![Index::new("a", 0)]);
    let mut task = started(1);
    for _ in 0..4 {
        host.catalog[0].add_document();
    }
    assert_eq!(host.catalog[0].opstamp, 4);
    assert!(host.tick(&mut task));
    assert_eq!(host.catalog[0].commits, 1);
    assert_eq!(host.catalog[0].opstamp, 0);
    assert_eq!(host.catalog[0].hits(), 4);
    assert_eq!(
        host.log,
        vec![
            Action::AwaitTick { seconds: 1 },
            Action::LockCatalog,
            Action::ReadOpstamp { index: 0 },
            Action::LockWriter { index: 0 },
            Action::Commit { index: 0 },
            Action::StoreOpstamp { index: 0, value: 0 },
            Action::UnlockWriter { index: 0 },
            Action::UnlockCatalog,
        ]
    );
}

#[test]
fn indexes_are_visited_in_snapshot_order() {
    let mut host = Host::new(vec![
        Index::new("a", 0),
        Index::new("b", 0),
        Index::new("c", 0),
        Index::new("d", 0),
    ]);
    host.catalog[1].add_document();
    host.catalog[3].add_document();
    host.catalog[3].add_document();
    let mut task = started(9);
    assert!(host.tick(&mut task));
    assert_eq!(
        host.log,
        vec![
            Action::AwaitTick { seconds: 9 },
            Action::LockCatalog,
            Action::ReadOpstamp { index: 0 },
            Action::ReportIdle { index: 0 },
            Action::ReadOpstamp { index: 1 },
            Action::LockWriter { index: 1 },
            Action::Commit { index: 1 },
            Action::StoreOpstamp { index: 1, value: 0 },
            Action::UnlockWriter { index: 1 },
            Action::ReadOpstamp { index: 2 },
            Action::ReportIdle { index: 2 },
            Action::ReadOpstamp { index: 3 },
            Action::LockWriter { index: 3 },
            Action::Commit { index: 3 },
            Action::StoreOpstamp { index: 3, value: 0 },
            Action::UnlockWriter { index: 3 },
            Action::UnlockCatalog,
        ]
    );
    assert_eq!(host.catalog.iter().map(|index| index.commits).collect::<Vec<u64>>(), [0, 1, 0, 1]);
    assert_eq!(host.catalog.iter().map(|index| index.hits()).collect::<Vec<u64>>(), [0, 1, 0, 2]);
    assert!(host.catalog.iter().all(|index| index.opstamp == 0));
}

#[test]
fn an_index_that_stays_clean_is_never_committed() {
    let mut host = Host::new(vec![Index::new("quiet", 2), Index::new("busy", 0)]);
    let mut task = started(1);
    let ticks = 25;
    for _ in 0..ticks {
        host.catalog[1].add_document();
        assert!(host.tick(&mut task));
    }
    assert_eq!(host.catalog[0].commits, 0);
    assert_eq!(host.commits_of(0), 0);
    assert_eq!(host.catalog[0].hits(), 2);
    assert_eq!(host.catalog[1].commits, ticks);
    assert_eq!(host.catalog[1].hits(), ticks);
}

#[test]
fn ticks_without_mutations_commit_nothing() {
    let mut host = Host::new(vec![Index::new("a", 1), Index::new("b", 1)]);
    let mut task = started(1);
    for _ in 0..10 {
        assert!(host.tick(&mut task));
    }
    assert_eq!(host.catalog[0].commits + host.catalog[1].commits, 0);
    assert!(host.log.iter().all(|action| !matches!(action, Action::Commit { .. })));
    assert!(host.log.iter().all(|action| !matches!(action, Action::StoreOpstamp { .. })));
}

#[test]
fn a_commit_happens_once_per_dirty_tick() {
    let mut host = Host::new(vec![Index::new("a", 0)]);
    let mut task = started(1);
    host.catalog[0].add_document();
    assert!(host.tick(&mut task));
    assert!(host.tick(&mut task));
    host.catalog[0].add_document();
    host.catalog[0].add_document();
    assert!(host.tick(&mut task));
    assert!(host.tick(&mut task));
    assert_eq!(host.catalog[0].commits, 2);
    assert_eq!(host.catalog[0].hits(), 3);
}

#[test]
fn a_failed_commit_leaves_later_indexes_uncommitted() {
    let mut host = Host::new(vec![Index::new("a", 0), Index::new("b", 0)]);
    host.catalog[0].broken = true;
    host.catalog[0].add_document();
    host.catalog[1].add_document();
    let mut task = started(1);

    assert!(!host.tick(&mut task));

    assert_eq!(task.phase(), Phase::Terminated);
    assert_eq!(task.pending(), Action::Abort { index: 0 });
    assert_eq!(host.catalog[0].commits, 1);
    assert_eq!(host.catalog[0].opstamp, 1);
    assert_eq!(host.catalog[1].commits, 0);
    assert_eq!(host.catalog[1].opstamp, 1);
    assert_eq!(host.catalog[1].hits(), 0);
    assert_eq!(
        host.log,
        vec![
            Action::AwaitTick { seconds: 1 },
            Action::LockCatalog,
            Action::ReadOpstamp { index: 0 },
            Action::LockWriter { index: 0 },
            Action::Commit { index: 0 },
        ]
    );
    assert_eq!(task.handle(Event::Tick), None);
}

#[test]
fn a_failed_commit_keeps_what_was_committed_before_it() {
    let mut host = Host::new(vec![Index::new("a", 0), Index::new("b", 0), Index::new("c", 0)]);
    host.catalog[1].broken = true;
    for index in host.catalog.iter_mut() {
        index.add_document();
    }
    let mut task = started(1);

    assert!(!host.tick(&mut task));

    assert_eq!(task.pending(), Action::Abort { index: 1 });
    assert_eq!(host.catalog.iter().map(|index| index.commits).collect::<Vec<u64>>(), [1, 1, 0]);
    assert_eq!(host.catalog.iter().map(|index| index.opstamp).collect::<Vec<u64>>(), [0, 1, 1]);
    assert_eq!(host.catalog.iter().map(|index| index.hits()).collect::<Vec<u64>>(), [1, 0, 0]);
}

#[test]
fn a_broken_writer_is_harmless_while_its_index_is_clean() {
    let mut host = Host::new(vec![Index::new("a", 0), Index::new("b", 0)]);
    host.catalog[0].broken = true;
    host.catalog[1].add_document();
    let mut task = started(1);
    assert!(host.tick(&mut task));
    assert_eq!(host.catalog[0].commits, 0);
    assert_eq!(host.catalog[1].commits, 1);
    assert_eq!(task.phase(), Phase::Idle);
}

#[test]
fn a_mutation_counted_between_read_and_store_is_lost_from_the_count() {
    let mut host = Host::new(vec![Index::new("a", 0)]);
    host.catalog[0].add_document();
    host.bump_before = Some(Action::StoreOpstamp { index: 0, value: 0 });
    let mut task = started(1);

    assert!(host.tick(&mut task));

    // Read as 1, raised to 2 while the commit ran, then cleared: not 1.
    assert_eq!(host.catalog[0].opstamp, 0);
    assert_eq!(host.catalog[0].commits, 1);
    assert_eq!(host.catalog[0].hits(), 1);

    // The document that the late count stood for reaches the writer only now.
    host.catalog[0].buffer_document();
    assert!(host.tick(&mut task));
    assert!(host.tick(&mut task));

    // No opstamp accounts for it, so no tick commits it.
    assert_eq!(host.catalog[0].commits, 1);
    assert_eq!(host.catalog[0].buffered, 1);
    assert_eq!(host.catalog[0].hits(), 1);

    // The next counted mutation brings it along.
    host.catalog[0].add_document();
    assert!(host.tick(&mut task));
    assert_eq!(host.catalog[0].commits, 2);
    assert_eq!(host.catalog[0].hits(), 3);
}

#[test]
fn a_mutation_counted_between_read_and_lock_is_committed_but_not_counted() {
    let mut host = Host::new(vec![Index::new("a", 0)]);
    host.catalog[0].add_document();
    host.catalog[0].buffer_document();
    host.bump_before = Some(Action::LockWriter { index: 0 });
    let mut task = started(1);

    assert!(host.tick(&mut task));

    assert_eq!(host.log[2], Action::ReadOpstamp { index: 0 });
    assert_eq!(host.catalog[0].opstamp, 0);
    assert_eq!(host.catalog[0].commits, 1);
    assert_eq!(host.catalog[0].hits(), 2);
}

#[test]
fn no_lock_is_held_between_ticks() {
    let mut host = Host::new(vec![Index::new("a", 0), Index::new("b", 0)]);
    let mut task = started(1);
    for round in 0..6u64 {
        if round % 2 == 0 {
            host.catalog[0].add_document();
        }
        if round % 3 == 0 {
            host.catalog[1].add_document();
        }
        assert!(host.tick(&mut task));
        assert!(!host.catalog_locked);
        assert_eq!(host.locked_writers(), 0);
    }
    assert_eq!(host.catalog[0].commits, 3);
    assert_eq!(host.catalog[1].commits, 2);
}

#[test]
fn ingestion_is_shut_out_while_the_writer_is_locked() {
    let mut host = Host::new(vec![Index::new("a", 0)]);
    host.catalog[0].add_document();
    let mut task = started(1);
    let mut action = task.pending();
    while action != (Action::Commit { index: 0 }) {
        let event = host.perform(action);
        action = task.handle(event).unwrap();
    }
    assert!(host.catalog_locked);
    assert!(host.catalog[0].writer_locked);
    while action != (Action::UnlockCatalog) {
        let event = host.perform(action);
        action = task.handle(event).unwrap();
    }
    assert!(!host.catalog[0].writer_locked);
    host.catalog[0].add_document();
    assert_eq!(host.catalog[0].opstamp, 1);
}

#[test]
fn every_tick_waits_with_the_same_period() {
    let mut host = Host::new(vec![Index::new("a", 0)]);
    let mut task = started(42);
    for _ in 0..5 {
        host.catalog[0].add_document();
        assert!(host.tick(&mut task));
        assert_eq!(task.pending(), Action::AwaitTick { seconds: 42 });
    }
    let waits: Vec<&Action> =
        host.log.iter().filter(|action| matches!(action, Action::AwaitTick { .. })).collect();
    assert_eq!(waits.len(), 5);
    assert!(waits.iter().all(|action| **action == Action::AwaitTick { seconds: 42 }));
}

#[test]
fn an_index_added_between_ticks_is_visited_by_the_next_one() {
    let mut host = Host::new(vec![Index::new("a", 0)]);
    let mut task = started(1);
    assert!(host.tick(&mut task));
    host.catalog.push(Index::new("b", 0));
    host.catalog[1].add_document();
    assert!(host.tick(&mut task));
    assert_eq!(host.catalog[1].commits, 1);
    assert_eq!(host.catalog[1].hits(), 1);
}
