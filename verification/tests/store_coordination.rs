use quick_memory::store::catalog::{
    pinned_catalog, unpublished, CatalogAction, CatalogEvent, CatalogGoal, CatalogOutcome,
    CatalogRun, LoadedCatalog, PublishOutcome, ReplaceCatalogOutcome,
};
use quick_memory::store::digest::{handoff_activity_ms, CommitRecord, Digest};
use quick_memory::store::handoff::{
    checked_handoff, handoff_keys, opening, ordered_handoffs, reopened, HandoffAction,
    HandoffEvent, HandoffGoal, HandoffRun,
};
use quick_memory::store::lease::{LeaseAction, LeaseEvent, LeaseGuard, LeaseRun};
use quick_memory::store::probe::WriteReply;
use quick_memory::store::records::{
    copy_splits, CatalogHead, Handoff, IndexCatalog, Lease, SplitEntry,
};
use quick_memory::store::retry::RetryPolicy;
use quick_memory::store::version::{HandoffState, ObjectVersion, StoreError};

const SCHEMA: u32 = 1;

fn patient() -> RetryPolicy {
    RetryPolicy { max_attempts: 500, base_delay_ns: 0 }
}

/// One object with a version.
struct Register<T> {
    value: Option<T>,
    tag: u64,
}

impl<T: Clone> Register<T> {
    fn new() -> Self {
        Register { value: None, tag: 0 }
    }

    fn version(&self) -> ObjectVersion {
        ObjectVersion::new(Some(format!("etag-{}", self.tag)), None)
    }

    fn read(&self) -> Result<(T, ObjectVersion), StoreError> {
        match &self.value {
            Some(value) => Ok((value.clone(), self.version())),
            None => Err(StoreError::NotFound),
        }
    }

    fn write(&mut self, value: T, expected: Option<ObjectVersion>) -> WriteReply {
        let free = match expected {
            None => self.value.is_none(),
            Some(version) => {
                self.value.is_some() && version.etag() == self.version().etag()
            }
        };
        if !free {
            return Err(StoreError::Precondition);
        }
        self.value = Some(value);
        self.tag += 1;
        Ok(self.version())
    }
}

// ---- The catalog of splits --------------------------------------------------------

fn split(writer: &str, seq: u64, hash: &str) -> SplitEntry {
    SplitEntry {
        writer_id: writer.to_string(),
        seq,
        prefix: format!("v1/ws/acme/proj/ai-memory/index/splits/{writer}/{seq:010}"),
        doc_count: 1,
        content_hash: hash.to_string(),
    }
}

struct Catalogs {
    head: Register<CatalogHead>,
    stored: Vec<IndexCatalog>,
}

impl Catalogs {
    fn new() -> Catalogs {
        Catalogs { head: Register::new(), stored: Vec::new() }
    }

    fn load(&self) -> Result<LoadedCatalog, StoreError> {
        match self.head.read() {
            Err(StoreError::NotFound) => Ok(unpublished(SCHEMA)),
            Err(error) => Err(error),
            Ok((head, version)) => {
                let at: usize = head.catalog_key["catalog-".len()..].parse().unwrap();
                let stored = &self.stored[at];
                let copy = IndexCatalog {
                    schema: stored.schema,
                    generation: stored.generation,
                    splits: copy_splits(&stored.splits),
                    covered_until_ms: stored.covered_until_ms,
                };
                pinned_catalog(head, version, copy)
            }
        }
    }

    fn store(&mut self, catalog: IndexCatalog) -> Result<String, StoreError> {
        self.stored.push(catalog);
        Ok(format!("catalog-{}", self.stored.len() - 1))
    }
}

struct Change {
    run: CatalogRun,
    action: CatalogAction,
}

impl Change {
    fn start(goal: CatalogGoal, now_ms: i64) -> Change {
        let (run, action) = CatalogRun::start(goal, now_ms, SCHEMA, patient());
        Change { run, action }
    }

    fn step(self, catalogs: &mut Catalogs) -> Result<Change, Result<CatalogOutcome, StoreError>> {
        let event = match self.action {
            CatalogAction::Load => CatalogEvent::Loaded(catalogs.load()),
            CatalogAction::Store(catalog) => CatalogEvent::Stored(catalogs.store(catalog)),
            CatalogAction::Swap(head, expected) => {
                CatalogEvent::Swapped(catalogs.head.write(head, expected))
            }
            CatalogAction::Wait(_) => CatalogEvent::Waited,
            CatalogAction::Finish(outcome) => return Err(outcome),
        };
        let (run, action) = self.run.next(event);
        Ok(Change { run, action })
    }

    fn finish(mut self, catalogs: &mut Catalogs) -> CatalogOutcome {
        loop {
            self = match self.step(catalogs) {
                Ok(next) => next,
                Err(outcome) => return outcome.unwrap(),
            };
        }
    }
}

fn publish(catalogs: &mut Catalogs, entry: SplitEntry, now_ms: i64) -> PublishOutcome {
    match Change::start(CatalogGoal::Publish(entry), now_ms).finish(catalogs) {
        CatalogOutcome::Published(outcome) => outcome,
        other => panic!("{other:?}"),
    }
}

fn replace(catalogs: &mut Catalogs, splits: Vec<SplitEntry>, now_ms: i64) -> ReplaceCatalogOutcome {
    match Change::start(CatalogGoal::Replace(splits), now_ms).finish(catalogs) {
        CatalogOutcome::Replaced(outcome) => outcome,
        other => panic!("{other:?}"),
    }
}

#[test]
fn publishing_the_same_split_twice_is_a_no_op() {
    let mut catalogs = Catalogs::new();
    let first = publish(&mut catalogs, split("mbp-1", 1, "h1"), 10);
    assert_eq!(first.generation, 1);
    assert!(!first.already_present);

    let again = publish(&mut catalogs, split("mbp-1", 1, "h1"), 20);
    assert!(again.already_present, "republishing must not advance");
    assert_eq!(again.generation, 1);
    assert_eq!(again.catalog_key, first.catalog_key);

    let loaded = catalogs.load().unwrap();
    assert_eq!(loaded.catalog.splits.len(), 1);
    assert_eq!(loaded.catalog.generation, 1);
    assert!(loaded.catalog.contains_hash("h1"));
    assert!(!loaded.catalog.contains_hash("h2"));
}

#[test]
fn concurrent_publishes_keep_every_split() {
    let mut catalogs = Catalogs::new();
    let mut changes: Vec<Change> = Vec::new();
    for index in 0..8u64 {
        let entry = split("mbp-1", index + 1, &format!("h{index}"));
        changes.push(Change::start(CatalogGoal::Publish(entry), index as i64));
    }
    let mut attempts = 0u32;
    while !changes.is_empty() {
        let mut left = Vec::new();
        for change in changes {
            match change.step(&mut catalogs) {
                Ok(next) => left.push(next),
                Err(Ok(CatalogOutcome::Published(outcome))) => attempts += outcome.attempts,
                Err(other) => panic!("{other:?}"),
            }
        }
        changes = left;
    }
    let loaded = catalogs.load().unwrap();
    assert_eq!(loaded.catalog.splits.len(), 8, "a publish was lost");
    assert_eq!(loaded.catalog.generation, 8);
    for index in 0..8u64 {
        assert!(loaded.catalog.contains_hash(&format!("h{index}")));
    }
    assert!(attempts > 8, "no race was lost: {attempts} attempts");
}

#[test]
fn a_replacement_leaves_only_its_splits() {
    let mut catalogs = Catalogs::new();
    publish(&mut catalogs, split("mbp-1", 1, "h1"), 10);
    publish(&mut catalogs, split("mbp-1", 2, "h2"), 11);
    let outcome = replace(&mut catalogs, vec![split("compactor", 3, "h3")], 12);
    assert_eq!((outcome.generation, outcome.splits, outcome.attempts), (3, 1, 1));
    let loaded = catalogs.load().unwrap();
    assert!(loaded.catalog.contains_hash("h3"));
    assert!(!loaded.catalog.contains_hash("h1"));
}

#[test]
fn a_head_that_disagrees_with_its_catalog_is_refused() {
    let head = CatalogHead {
        schema: SCHEMA,
        generation: 2,
        catalog_key: "catalog-0".to_string(),
        updated_at_ms: 1,
    };
    let catalog = IndexCatalog::empty(SCHEMA);
    let refused = pinned_catalog(head, ObjectVersion::new(Some("e".to_string()), None), catalog);
    assert!(matches!(refused, Err(StoreError::Corrupt(_))));
    let fresh = unpublished(SCHEMA);
    assert!(fresh.catalog_key.is_none() && fresh.head_version.is_none());
    assert_eq!(fresh.catalog.splits.len(), 0);
}

// ---- Leases -----------------------------------------------------------------------

fn acquire(
    register: &mut Register<Lease>,
    owner: &str,
    now_ms: i64,
    ttl_ms: i64,
) -> Option<LeaseGuard> {
    let (mut run, mut action) = LeaseRun::start(
        "compact/acme/ai-memory".to_string(),
        owner.to_string(),
        now_ms,
        ttl_ms,
        SCHEMA,
        patient(),
    );
    loop {
        let event = match action {
            LeaseAction::Read => LeaseEvent::Read(register.read()),
            LeaseAction::Swap(lease, expected) => {
                LeaseEvent::Swapped(register.write(lease, expected))
            }
            LeaseAction::Wait(_) => LeaseEvent::Waited,
            LeaseAction::Finish(outcome) => return outcome.unwrap(),
        };
        let next = run.next(event);
        run = next.0;
        action = next.1;
    }
}

#[test]
fn only_one_machine_holds_a_lease_at_a_time() {
    let mut register: Register<Lease> = Register::new();
    let mut held = acquire(&mut register, "mbp-a", 1_000, 60_000).expect("a free lease");
    assert_eq!(held.lease.epoch, 1);
    assert_eq!(held.lease.owner, "mbp-a");
    assert_eq!(held.lease.expires_at_ms, 61_000);
    assert!(!held.lease.is_expired(60_999));
    assert!(held.lease.is_expired(61_000));

    assert!(acquire(&mut register, "mbp-b", 2_000, 60_000).is_none());

    let taken = acquire(&mut register, "mbp-b", 100_000, 60_000).expect("an expired lease");
    assert_eq!(taken.lease.epoch, 2);
    assert_eq!(taken.lease.owner, "mbp-b");

    // The old holder's renewal fails: its version is stale.
    let next = held.renewed(100_001, 60_000);
    let reply = register.write(next.clone(), Some(held.version.clone()));
    assert!(matches!(held.renew(next, reply), Ok(false)));
    assert_eq!(held.lease.acquired_at_ms, 1_000);

    // The new holder's renewal goes through.
    let mut taken = taken;
    let next = taken.renewed(100_001, 60_000);
    let reply = register.write(next.clone(), Some(taken.version.clone()));
    assert!(matches!(taken.renew(next, reply), Ok(true)));
    assert_eq!(taken.lease.expires_at_ms, 160_001);

    let next = taken.released(100_002);
    let reply = register.write(next, Some(taken.version.clone()));
    assert!(LeaseGuard::release(reply).is_ok());
    let again = acquire(&mut register, "mbp-a", 100_003, 60_000).expect("a released lease");
    assert_eq!(again.lease.epoch, 3);
}

#[test]
fn a_lease_that_cannot_be_written_is_an_error() {
    let mut register: Register<Lease> = Register::new();
    let mut held = acquire(&mut register, "mbp-a", 0, 10).unwrap();
    let next = held.renewed(5, 10);
    let down = Err(StoreError::Backend("down".to_string()));
    assert!(matches!(held.renew(next, down), Err(StoreError::Backend(_))));
    assert!(LeaseGuard::release(Err(StoreError::NotFound)).is_ok());
    assert!(matches!(
        LeaseGuard::release(Err(StoreError::MissingEtag)),
        Err(StoreError::MissingEtag)
    ));
}

// ---- Handoffs ---------------------------------------------------------------------

struct Advance {
    run: HandoffRun,
    action: HandoffAction,
}

impl Advance {
    fn start(goal: HandoffGoal, machine: &str, now_ms: i64) -> Advance {
        let (run, action) =
            HandoffRun::start(goal, "h-1".to_string(), machine.to_string(), now_ms, patient());
        Advance { run, action }
    }

    fn step(self, note: &mut Register<Handoff>) -> Result<Advance, Result<Handoff, StoreError>> {
        let event = match self.action {
            HandoffAction::Read => HandoffEvent::Read(note.read()),
            HandoffAction::Swap(next, expected) => {
                HandoffEvent::Swapped(note.write(next, Some(expected)))
            }
            HandoffAction::Finish(outcome) => return Err(outcome),
        };
        let (run, action) = self.run.next(event);
        Ok(Advance { run, action })
    }

    fn finish(mut self, note: &mut Register<Handoff>) -> Result<Handoff, StoreError> {
        loop {
            self = match self.step(note) {
                Ok(next) => next,
                Err(outcome) => return outcome,
            };
        }
    }
}

fn note(id: &str, at_ms: i64) -> Handoff {
    opening(
        SCHEMA,
        id.to_string(),
        "finish the index rebuild".to_string(),
        "tantivy splits are published; compaction is pending".to_string(),
        "mbp-a".to_string(),
        at_ms,
    )
}

#[test]
fn a_handoff_is_claimed_exactly_once() {
    let mut register: Register<Handoff> = Register::new();
    register.write(note("h-1", 10), None).unwrap();
    assert_eq!(register.read().unwrap().0.state(), HandoffState::Open);

    // Both machines read the note before either writes.
    let a = Advance::start(HandoffGoal::Claim, "mbp-a", 20).step(&mut register).ok().unwrap();
    let b = Advance::start(HandoffGoal::Claim, "mbp-b", 21).step(&mut register).ok().unwrap();
    let won = a.finish(&mut register).unwrap();
    assert_eq!(won.claimed_by.as_deref(), Some("mbp-a"));
    assert_eq!(won.claimed_at_ms, Some(20));
    let lost = b.finish(&mut register).unwrap_err();
    assert_eq!(lost.message(), "handoff h-1 is not open (state: Claimed)");

    let refused = Advance::start(HandoffGoal::Finish, "mbp-b", 30).finish(&mut register);
    assert_eq!(refused.unwrap_err().message(), "handoff h-1 is claimed by mbp-a");

    let finished = Advance::start(HandoffGoal::Finish, "mbp-a", 40).finish(&mut register).unwrap();
    assert_eq!(finished.state(), HandoffState::Done);
    assert_eq!(finished.finished_at_ms, Some(40));

    let late = Advance::start(HandoffGoal::Claim, "mbp-a", 50).finish(&mut register);
    assert!(matches!(
        late,
        Err(StoreError::HandoffNotOpen { state: HandoffState::Done, .. })
    ));
}

#[test]
fn nobody_finishes_what_nobody_took() {
    let mut register: Register<Handoff> = Register::new();
    let missing = Advance::start(HandoffGoal::Finish, "mbp-a", 1).finish(&mut register);
    assert!(matches!(missing, Err(StoreError::NotFound)));
    register.write(note("h-1", 10), None).unwrap();
    let early = Advance::start(HandoffGoal::Finish, "mbp-a", 11).finish(&mut register);
    assert!(matches!(
        early,
        Err(StoreError::HandoffNotOpen { state: HandoffState::Open, .. })
    ));
}

#[test]
fn a_claim_that_keeps_losing_gives_up() {
    let policy = RetryPolicy { max_attempts: 1, base_delay_ns: 0 };
    let (run, _) =
        HandoffRun::start(HandoffGoal::Claim, "h-1".to_string(), "m".to_string(), 1, policy);
    let version = ObjectVersion::new(Some("e".to_string()), None);
    let (run, action) = run.next(HandoffEvent::Read(Ok((note("h-1", 0), version))));
    assert!(matches!(action, HandoffAction::Swap(_, _)));
    let (_, action) = run.next(HandoffEvent::Swapped(Err(StoreError::Precondition)));
    assert!(matches!(
        action,
        HandoffAction::Finish(Err(StoreError::Conflict { attempts: 1 }))
    ));
}

#[test]
fn notes_are_listed_in_order_and_checked_against_their_key() {
    let keys = vec![
        "handoffs/a.json".to_string(),
        "handoffs/readme.txt".to_string(),
        "handoffs/b.json".to_string(),
    ];
    assert_eq!(handoff_keys(&keys), vec!["handoffs/a.json", "handoffs/b.json"]);
    let listed = ordered_handoffs(vec![note("b", 5), note("c", 9), note("a", 5)]);
    let ids: Vec<&str> = listed.iter().map(|h| h.id.as_str()).collect();
    assert_eq!(ids, vec!["a", "b", "c"]);

    assert!(checked_handoff("handoffs/a.json", "a", note("a", 1)).is_ok());
    let wrong = checked_handoff("handoffs/a.json", "a", note("b", 1)).unwrap_err();
    assert_eq!(wrong.message(), "corrupt object: handoffs/a.json holds handoff b");
}

#[test]
fn any_stage_makes_a_handoff_recent() {
    let mut handoff = note("h", 10);
    assert_eq!(handoff_activity_ms(&handoff), 10);
    handoff.claimed_at_ms = Some(30);
    assert_eq!(handoff_activity_ms(&handoff), 30);
    handoff.finished_at_ms = Some(20);
    assert_eq!(handoff_activity_ms(&handoff), 30);
    handoff.finished_at_ms = Some(40);
    assert_eq!(handoff_activity_ms(&handoff), 40);

    let mut digest = Digest { pages: Vec::new(), sessions: Vec::new(), handoffs: Vec::new() };
    assert!(digest.is_empty());
    digest.pages.push(CommitRecord {
        seq: 1,
        at_ms: 1,
        kind: "page".to_string(),
        path: "notes/a.md".to_string(),
    });
    assert!(!digest.is_empty());
}

#[test]
fn one_of_several_claims_wins_in_any_order() {
    for order in [[0, 1, 2], [2, 0, 1], [1, 2, 0]] {
        let mut note = Register::new();
        note.write(opening(SCHEMA, "h".into(), "t".into(), "b".into(), "a".into(), 1), None).unwrap();
        let mut runs: Vec<Option<(HandoffRun, HandoffAction)>> = (0..3)
            .map(|n| {
                let machine = format!("m{n}");
                Some(HandoffRun::start(HandoffGoal::Claim, "h".into(), machine, 2, patient()))
            })
            .collect();
        let mut told = vec![None, None, None];
        while told.iter().any(|t| t.is_none()) {
            for who in order {
                let Some((run, action)) = runs[who].take() else { continue };
                let event = match action {
                    HandoffAction::Read => HandoffEvent::Read(note.read()),
                    HandoffAction::Swap(next, expected) => {
                        HandoffEvent::Swapped(note.write(next, Some(expected)))
                    }
                    HandoffAction::Finish(result) => {
                        told[who] = Some(result);
                        continue;
                    }
                };
                runs[who] = Some(run.next(event));
            }
        }
        let winners: Vec<usize> =
            (0..3).filter(|n| matches!(told[*n], Some(Ok(_)))).collect();
        assert_eq!(winners, vec![order[0]]);
        let held = note.read().unwrap().0;
        assert_eq!(held.claimed_by, Some(format!("m{}", order[0])));
        for result in told.into_iter().flatten() {
            if let Err(error) = result {
                assert!(matches!(
                    error,
                    StoreError::HandoffNotOpen { state: HandoffState::Claimed, .. }
                ));
            }
        }
    }
}

#[test]
fn a_lease_that_was_taken_over_is_not_renewed() {
    let mut stored: Register<Lease> = Register::new();
    let lease = |owner: &str, epoch: u64, expires_at_ms: i64| Lease {
        schema: SCHEMA,
        owner: owner.to_string(),
        epoch,
        acquired_at_ms: 0,
        expires_at_ms,
    };
    let version = stored.write(lease("a", 1, 10), None).unwrap();
    let mut guard = LeaseGuard { key: "k".to_string(), lease: lease("a", 1, 10), version };
    let seen = stored.read().unwrap().1;
    stored.write(lease("b", 2, 30), Some(seen)).unwrap();

    let next = guard.renewed(11, 10);
    let expected = ObjectVersion::new(guard.version.etag().map(str::to_string), None);
    let reply = stored.write(next.clone(), Some(expected));
    assert!(matches!(guard.renew(next, reply), Ok(false)));
    assert_eq!((guard.lease.epoch, guard.lease.expires_at_ms), (1, 10));
    assert_eq!(stored.read().unwrap().0.owner, "b");
}

#[test]
fn opening_the_same_note_again_changes_nothing() {
    let note = |title: &str, at: i64| {
        opening(SCHEMA, "h".into(), title.into(), "b".into(), "a".into(), at)
    };
    let mut taken = note("t", 1);
    taken.claimed_by = Some("m".to_string());
    taken.claimed_at_ms = Some(5);
    let kept = reopened("k", taken, &note("t", 1)).unwrap();
    assert_eq!(kept.claimed_by.as_deref(), Some("m"));
    assert_eq!(reopened("k", note("t", 1), &note("t", 1)).unwrap().state(), HandoffState::Open);
    for other in [note("u", 1), note("t", 2)] {
        assert_eq!(
            reopened("k", other, &note("t", 1)).unwrap_err().message(),
            "corrupt object: k already exists with different content"
        );
    }
}

#[test]
fn a_claim_without_another_attempt_is_told_of_the_race() {
    for (max_attempts, raced) in [(1, true), (2, false)] {
        let mut note = Register::new();
        note.write(opening(SCHEMA, "h".into(), "t".into(), "b".into(), "a".into(), 1), None).unwrap();
        let retry = RetryPolicy { max_attempts, ..patient() };
        let (mut late, action) =
            HandoffRun::start(HandoffGoal::Claim, "h".into(), "late".into(), 2, retry);
        assert!(matches!(action, HandoffAction::Read));
        let (run, mut action) = late.next(HandoffEvent::Read(note.read()));
        late = run;
        let (mut taken, seen) = note.read().unwrap();
        taken.claimed_by = Some("early".to_string());
        note.write(taken, Some(seen)).unwrap();
        let told = loop {
            let event = match action {
                HandoffAction::Read => HandoffEvent::Read(note.read()),
                HandoffAction::Swap(next, expected) => {
                    HandoffEvent::Swapped(note.write(next, Some(expected)))
                }
                HandoffAction::Finish(result) => break result,
            };
            (late, action) = late.next(event);
        };
        match told {
            Err(StoreError::Conflict { attempts }) => assert!(raced && attempts == 1),
            Err(StoreError::HandoffNotOpen { state, .. }) => {
                assert!(!raced && state == HandoffState::Claimed)
            }
            other => panic!("{other:?}"),
        }
    }
}
