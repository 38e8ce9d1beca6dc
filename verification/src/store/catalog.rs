//! The index catalog: publishing a split and replacing them all.

use vstd::prelude::*;

use crate::numbers::{decimal, decimal_text};
use crate::store::commit::opt_version;
use crate::store::probe::{write_view, WriteReply, WriteView};
use crate::store::records::{
    copy_splits, splits_view, CatalogHead, CatalogHeadView, CatalogView, IndexCatalog, SplitEntry,
    SplitEntryView,
};
use crate::store::retry::{settled, RetryPolicy, Settled, SettledView};
use crate::store::version::{ErrorView, ObjectVersion, StoreError, VersionView};
use crate::text::{opt_text, same_text};

verus! {

/// Whether a split with this hash is among the splits.
pub open spec fn has_hash(splits: Seq<SplitEntryView>, hash: Seq<char>) -> bool {
    exists|i: int| 0 <= i < splits.len() && (#[trigger] splits[i]).content_hash == hash
}

/// The later of two times.
pub open spec fn later(a: i64, b: i64) -> i64 {
    if a < b {
        b
    } else {
        a
    }
}

/// The catalog with one more split.
pub open spec fn with_split(catalog: CatalogView, split: SplitEntryView, now_ms: i64) -> CatalogView {
    CatalogView {
        schema: catalog.schema,
        generation: (catalog.generation + 1) as u64,
        splits: catalog.splits.push(split),
        covered_until_ms: later(catalog.covered_until_ms, now_ms),
    }
}

/// The catalog with these splits in the place of its own.
pub open spec fn with_splits(
    catalog: CatalogView,
    schema: u32,
    splits: Seq<SplitEntryView>,
    now_ms: i64,
) -> CatalogView {
    CatalogView {
        schema,
        generation: (catalog.generation + 1) as u64,
        splits,
        covered_until_ms: later(catalog.covered_until_ms, now_ms),
    }
}

impl IndexCatalog {
    /// The catalog of a project that never published.
    pub fn empty(schema: u32) -> (catalog: Self)
        ensures
            catalog@ == (CatalogView {
                schema,
                generation: 0,
                splits: Seq::empty(),
                covered_until_ms: 0,
            }),
    {
        let catalog = IndexCatalog {
            schema,
            generation: 0,
            splits: Vec::new(),
            covered_until_ms: 0,
        };
        assert(catalog@.splits =~= Seq::empty());
        catalog
    }

    /// Whether a split with this hash is published.
    pub fn contains_hash(&self, hash: &str) -> (found: bool)
        ensures
            found == has_hash(self@.splits, hash@),
    {
        let mut i: usize = 0;
        while i < self.splits.len()
            invariant
                i <= self.splits@.len(),
                forall|j: int| 0 <= j < i ==> (#[trigger] self@.splits[j]).content_hash != hash@,
            decreases self.splits@.len() - i,
        {
            if same_text(self.splits[i].content_hash.as_str(), hash) {
                assert(self@.splits[i as int].content_hash == hash@);
                return true;
            }
            i += 1;
        }
        false
    }

    /// Adds a split.
    pub fn push_split(&mut self, split: SplitEntry, now_ms: i64)
        requires
            old(self).generation < u64::MAX,
        ensures
            final(self)@ == with_split(old(self)@, split@, now_ms),
    {
        let ghost before = self@.splits;
        self.splits.push(split);
        self.generation = self.generation + 1;
        if self.covered_until_ms < now_ms {
            self.covered_until_ms = now_ms;
        }
        assert(self@.splits =~= before.push(split@));
    }
}

/// A catalog and the head version it was read at.
#[derive(Debug)]
pub struct LoadedCatalog {
    /// Current catalog; empty when nothing has been published.
    pub catalog: IndexCatalog,
    /// Key of that catalog, if any.
    pub catalog_key: Option<String>,
    /// Version of the head to replace, or `None` when there is no head yet.
    pub head_version: Option<ObjectVersion>,
}

/// What a `LoadedCatalog` says.
pub struct LoadedCatalogView {
    pub catalog: CatalogView,
    pub catalog_key: Option<Seq<char>>,
    pub head_version: Option<VersionView>,
}

impl View for LoadedCatalog {
    type V = LoadedCatalogView;

    open spec fn view(&self) -> LoadedCatalogView {
        LoadedCatalogView {
            catalog: self.catalog@,
            catalog_key: opt_text(self.catalog_key),
            head_version: opt_version(self.head_version),
        }
    }
}

/// What a head and a catalog that disagree are told.
pub open spec fn generation_mismatch(head: CatalogHeadView, catalog: CatalogView) -> Seq<char> {
    "head generation "@ + decimal(head.generation as nat) + " but catalog "@ + head.catalog_key
        + " says "@ + decimal(catalog.generation as nat)
}

/// The index of a project whose head does not exist: nothing is published.
pub fn unpublished(schema: u32) -> (loaded: LoadedCatalog)
    ensures
        loaded@ == (LoadedCatalogView {
            catalog: CatalogView {
                schema,
                generation: 0,
                splits: Seq::empty(),
                covered_until_ms: 0,
            },
            catalog_key: None,
            head_version: None,
        }),
{
    LoadedCatalog { catalog: IndexCatalog::empty(schema), catalog_key: None, head_version: None }
}

/// The catalog that a head names, when the two agree.
pub fn pinned_catalog(head: CatalogHead, head_version: ObjectVersion, catalog: IndexCatalog) -> (
    loaded: Result<LoadedCatalog, StoreError>)
    ensures
        match loaded {
            Ok(l) => catalog@.generation == head@.generation && l@ == (LoadedCatalogView {
                catalog: catalog@,
                catalog_key: Some(head@.catalog_key),
                head_version: Some(head_version@),
            }),
            Err(error) => catalog@.generation != head@.generation && error@ == ErrorView::Corrupt(
                generation_mismatch(head@, catalog@),
            ),
        },
{
    if catalog.generation != head.generation {
        let mut what: String = "head generation ".to_owned();
        what.append(decimal_text(head.generation).as_str());
        what.append(" but catalog ");
        what.append(head.catalog_key.as_str());
        what.append(" says ");
        what.append(decimal_text(catalog.generation).as_str());
        return Err(StoreError::Corrupt(what));
    }
    Ok(
        LoadedCatalog {
            catalog,
            catalog_key: Some(head.catalog_key),
            head_version: Some(head_version),
        },
    )
}

/// What a split publication did.
#[derive(Debug)]
pub struct PublishOutcome {
    /// Catalog generation after the publication.
    pub generation: u64,
    /// Key of the catalog of that generation.
    pub catalog_key: String,
    /// Attempts consumed, including retries.
    pub attempts: u32,
    /// True when this split was already published.
    pub already_present: bool,
}

/// What a catalog replacement did.
#[derive(Debug)]
pub struct ReplaceCatalogOutcome {
    /// Generation of the replacement.
    pub generation: u64,
    /// Key of the replacement.
    pub catalog_key: String,
    /// Splits in the replacement.
    pub splits: usize,
    /// Attempts consumed, including retries.
    pub attempts: u32,
}

/// What is to be done to the catalog.
#[derive(Debug)]
pub enum CatalogGoal {
    /// Add this split.
    Publish(SplitEntry),
    /// Put these splits in the place of all.
    Replace(Vec<SplitEntry>),
}

/// What a `CatalogGoal` says.
pub enum CatalogGoalView {
    Publish(SplitEntryView),
    Replace(Seq<SplitEntryView>),
}

impl View for CatalogGoal {
    type V = CatalogGoalView;

    open spec fn view(&self) -> CatalogGoalView {
        match *self {
            CatalogGoal::Publish(split) => CatalogGoalView::Publish(split@),
            CatalogGoal::Replace(splits) => CatalogGoalView::Replace(splits_view(splits@)),
        }
    }
}

/// What was done to the catalog.
#[derive(Debug)]
pub enum CatalogOutcome {
    /// A split was published, or was already.
    Published(PublishOutcome),
    /// The catalog was replaced.
    Replaced(ReplaceCatalogOutcome),
}

/// What a `CatalogOutcome` says.
pub enum CatalogOutcomeView {
    Published {
        generation: nat,
        catalog_key: Seq<char>,
        attempts: nat,
        already_present: bool,
    },
    Replaced {
        generation: nat,
        catalog_key: Seq<char>,
        splits: nat,
        attempts: nat,
    },
}

impl View for CatalogOutcome {
    type V = CatalogOutcomeView;

    open spec fn view(&self) -> CatalogOutcomeView {
        match *self {
            CatalogOutcome::Published(p) => CatalogOutcomeView::Published {
                generation: p.generation as nat,
                catalog_key: p.catalog_key@,
                attempts: p.attempts as nat,
                already_present: p.already_present,
            },
            CatalogOutcome::Replaced(r) => CatalogOutcomeView::Replaced {
                generation: r.generation as nat,
                catalog_key: r.catalog_key@,
                splits: r.splits as nat,
                attempts: r.attempts as nat,
            },
        }
    }
}

// ---- The course of a change --------------------------------------------------------------

/// How far a change of the catalog has come.
#[derive(Debug)]
pub enum CatalogPhase {
    /// The catalog is being read.
    Loading,
    /// The next catalog is being stored: its generation, the number of its splits,
    /// and the version of the head that is to be replaced.
    Storing(u64, usize, Option<ObjectVersion>),
    /// The head is being replaced: generation, number of splits and key of the next
    /// catalog.
    Swapping(u64, usize, String),
    /// The backoff after a lost race.
    Waiting,
    /// Nothing more to do.
    Finished,
}

/// What a `CatalogPhase` says.
pub enum CatalogPhaseView {
    Loading,
    Storing(nat, nat, Option<VersionView>),
    Swapping(nat, nat, Seq<char>),
    Waiting,
    Finished,
}

impl View for CatalogPhase {
    type V = CatalogPhaseView;

    open spec fn view(&self) -> CatalogPhaseView {
        match *self {
            CatalogPhase::Loading => CatalogPhaseView::Loading,
            CatalogPhase::Storing(generation, splits, expected) => CatalogPhaseView::Storing(
                generation as nat,
                splits as nat,
                opt_version(expected),
            ),
            CatalogPhase::Swapping(generation, splits, key) => CatalogPhaseView::Swapping(
                generation as nat,
                splits as nat,
                key@,
            ),
            CatalogPhase::Waiting => CatalogPhaseView::Waiting,
            CatalogPhase::Finished => CatalogPhaseView::Finished,
        }
    }
}

/// A change of the catalog under way.
#[derive(Debug)]
pub struct CatalogRun {
    /// What is to be done.
    pub goal: CatalogGoal,
    /// Caller-supplied clock.
    pub now_ms: i64,
    /// Schema number of the records.
    pub schema: u32,
    /// How hard to fight for it.
    pub retry: RetryPolicy,
    /// Attempts so far.
    pub attempt: u32,
    /// How far it has come.
    pub phase: CatalogPhase,
}

/// What a `CatalogRun` says.
pub struct CatalogRunView {
    pub goal: CatalogGoalView,
    pub now_ms: i64,
    pub schema: u32,
    pub retry: RetryPolicy,
    pub attempt: nat,
    pub phase: CatalogPhaseView,
}

impl View for CatalogRun {
    type V = CatalogRunView;

    open spec fn view(&self) -> CatalogRunView {
        CatalogRunView {
            goal: self.goal@,
            now_ms: self.now_ms,
            schema: self.schema,
            retry: self.retry,
            attempt: self.attempt as nat,
            phase: self.phase@,
        }
    }
}

/// What happened.
#[derive(Debug)]
pub enum CatalogEvent {
    /// The catalog was read.
    Loaded(Result<LoadedCatalog, StoreError>),
    /// The next catalog was stored under this key.
    Stored(Result<String, StoreError>),
    /// The backend replied to the replacement of the head.
    Swapped(WriteReply),
    /// The backoff is over.
    Waited,
}

/// What a `CatalogEvent` says.
pub enum CatalogEventView {
    Loaded(Result<LoadedCatalogView, ErrorView>),
    Stored(Result<Seq<char>, ErrorView>),
    Swapped(WriteView),
    Waited,
}

impl View for CatalogEvent {
    type V = CatalogEventView;

    open spec fn view(&self) -> CatalogEventView {
        match *self {
            CatalogEvent::Loaded(Ok(loaded)) => CatalogEventView::Loaded(Ok(loaded@)),
            CatalogEvent::Loaded(Err(error)) => CatalogEventView::Loaded(Err(error@)),
            CatalogEvent::Stored(Ok(key)) => CatalogEventView::Stored(Ok(key@)),
            CatalogEvent::Stored(Err(error)) => CatalogEventView::Stored(Err(error@)),
            CatalogEvent::Swapped(reply) => CatalogEventView::Swapped(write_view(reply)),
            CatalogEvent::Waited => CatalogEventView::Waited,
        }
    }
}

/// What to do next.
#[derive(Debug)]
pub enum CatalogAction {
    /// Read the catalog.
    Load,
    /// Store this catalog under the key that its content gives it, unless the same
    /// one is there.
    Store(IndexCatalog),
    /// Replace the head if it still has this version; create it where there is
    /// none.
    Swap(CatalogHead, Option<ObjectVersion>),
    /// Wait so many nanoseconds.
    Wait(u128),
    /// The change is over.
    Finish(Result<CatalogOutcome, StoreError>),
}

/// What a `CatalogAction` says.
pub enum CatalogActionView {
    Load,
    Store(CatalogView),
    Swap(CatalogHeadView, Option<VersionView>),
    Wait(nat),
    Finish(Result<CatalogOutcomeView, ErrorView>),
}

impl View for CatalogAction {
    type V = CatalogActionView;

    open spec fn view(&self) -> CatalogActionView {
        match *self {
            CatalogAction::Load => CatalogActionView::Load,
            CatalogAction::Store(catalog) => CatalogActionView::Store(catalog@),
            CatalogAction::Swap(head, expected) => CatalogActionView::Swap(
                head@,
                opt_version(expected),
            ),
            CatalogAction::Wait(ns) => CatalogActionView::Wait(ns as nat),
            CatalogAction::Finish(Ok(outcome)) => CatalogActionView::Finish(Ok(outcome@)),
            CatalogAction::Finish(Err(error)) => CatalogActionView::Finish(Err(error@)),
        }
    }
}

/// The catalog that a change puts in the place of `base`.
pub open spec fn changed_catalog(run: CatalogRunView, base: CatalogView) -> CatalogView {
    match run.goal {
        CatalogGoalView::Publish(split) => with_split(base, split, run.now_ms),
        CatalogGoalView::Replace(splits) => with_splits(base, run.schema, splits, run.now_ms),
    }
}

/// The head that names the next catalog.
pub open spec fn next_head(run: CatalogRunView, generation: nat, key: Seq<char>) -> CatalogHeadView {
    CatalogHeadView {
        schema: run.schema,
        generation: generation as u64,
        catalog_key: key,
        updated_at_ms: run.now_ms,
    }
}

/// What a change that won is reported as.
pub open spec fn catalog_outcome(
    run: CatalogRunView,
    generation: nat,
    splits: nat,
    key: Seq<char>,
) -> CatalogOutcomeView {
    match run.goal {
        CatalogGoalView::Publish(_) => CatalogOutcomeView::Published {
            generation,
            catalog_key: key,
            attempts: run.attempt,
            already_present: false,
        },
        CatalogGoalView::Replace(_) => CatalogOutcomeView::Replaced {
            generation,
            catalog_key: key,
            splits,
            attempts: run.attempt,
        },
    }
}

/// Whether the catalog holds already what is to be published.
pub open spec fn is_published(run: CatalogRunView, base: CatalogView) -> bool {
    run.goal matches CatalogGoalView::Publish(split) && has_hash(base.splits, split.content_hash)
}

/// A change that is over.
pub open spec fn catalog_over(
    run: CatalogRunView,
    result: Result<CatalogOutcomeView, ErrorView>,
) -> (CatalogRunView, CatalogActionView) {
    (
        CatalogRunView { phase: CatalogPhaseView::Finished, ..run },
        CatalogActionView::Finish(result),
    )
}

/// How a change of the catalog goes on. A split that is published already is left
/// as it is.
pub open spec fn catalog_on(run: CatalogRunView, event: CatalogEventView) -> (
    CatalogRunView,
    CatalogActionView,
) {
    match (run.phase, event) {
        (CatalogPhaseView::Loading, CatalogEventView::Loaded(Ok(loaded))) => {
            let base = loaded.catalog;
            let next = changed_catalog(run, base);
            if is_published(run, base) {
                catalog_over(
                    run,
                    Ok(
                        CatalogOutcomeView::Published {
                            generation: base.generation as nat,
                            catalog_key: match loaded.catalog_key {
                                Some(key) => key,
                                None => Seq::empty(),
                            },
                            attempts: run.attempt,
                            already_present: true,
                        },
                    ),
                )
            } else {
                (
                    CatalogRunView {
                        phase: CatalogPhaseView::Storing(
                            next.generation as nat,
                            next.splits.len(),
                            loaded.head_version,
                        ),
                        ..run
                    },
                    CatalogActionView::Store(next),
                )
            }
        },
        (CatalogPhaseView::Loading, CatalogEventView::Loaded(Err(error))) => catalog_over(
            run,
            Err(error),
        ),
        (
            CatalogPhaseView::Storing(generation, splits, expected),
            CatalogEventView::Stored(Ok(key)),
        ) => (
            CatalogRunView {
                phase: CatalogPhaseView::Swapping(generation, splits, key),
                ..run
            },
            CatalogActionView::Swap(next_head(run, generation, key), expected),
        ),
        (CatalogPhaseView::Storing(_, _, _), CatalogEventView::Stored(Err(error))) => catalog_over(
            run,
            Err(error),
        ),
        (
            CatalogPhaseView::Swapping(generation, splits, key),
            CatalogEventView::Swapped(reply),
        ) => match settled(run.retry, run.attempt, reply) {
            SettledView::Won(_) => catalog_over(
                run,
                Ok(catalog_outcome(run, generation, splits, key)),
            ),
            SettledView::GiveUp => catalog_over(run, Err(ErrorView::Conflict(run.attempt))),
            SettledView::Failed(error) => catalog_over(run, Err(error)),
            SettledView::Again => (
                CatalogRunView { attempt: run.attempt + 1, phase: CatalogPhaseView::Loading, ..run },
                CatalogActionView::Load,
            ),
            SettledView::After(ns) => (
                CatalogRunView { phase: CatalogPhaseView::Waiting, ..run },
                CatalogActionView::Wait(ns),
            ),
        },
        (CatalogPhaseView::Waiting, CatalogEventView::Waited) => (
            CatalogRunView { attempt: run.attempt + 1, phase: CatalogPhaseView::Loading, ..run },
            CatalogActionView::Load,
        ),
        _ => (run, CatalogActionView::Load),
    }
}

impl CatalogRun {
    /// There are attempts left where one is to follow.
    pub open spec fn wf(&self) -> bool {
        &&& self.attempt > 0
        &&& self.phase is Waiting ==> self.attempt < self.retry.max_attempts
    }

    /// Whether the event is one that the phase waits for.
    pub open spec fn awaits(&self, event: CatalogEvent) -> bool {
        match self.phase {
            CatalogPhase::Loading => event matches CatalogEvent::Loaded(reply) && (
            reply matches Ok(loaded) ==> loaded.catalog.generation < u64::MAX),
            CatalogPhase::Storing(_, _, _) => event is Stored,
            CatalogPhase::Swapping(_, _, _) => event is Swapped,
            CatalogPhase::Waiting => event is Waited,
            CatalogPhase::Finished => false,
        }
    }

    /// The start of a change: the first thing to do is to read the catalog.
    pub fn start(goal: CatalogGoal, now_ms: i64, schema: u32, retry: RetryPolicy) -> (next: (
        CatalogRun,
        CatalogAction,
    ))
        ensures
            next.0.wf(),
            next.0@ == (CatalogRunView {
                goal: goal@,
                now_ms,
                schema,
                retry,
                attempt: 1,
                phase: CatalogPhaseView::Loading,
            }),
            next.1@ == CatalogActionView::Load,
    {
        (
            CatalogRun { goal, now_ms, schema, retry, attempt: 1, phase: CatalogPhase::Loading },
            CatalogAction::Load,
        )
    }

    /// The catalog that the change puts in the place of the one that was read, or
    /// `None` when there is nothing to change.
    fn changed(&self, base: IndexCatalog) -> (next: Option<IndexCatalog>)
        requires
            base.generation < u64::MAX,
        ensures
            match next {
                Some(catalog) => !is_published(self@, base@) && catalog@ == changed_catalog(
                    self@,
                    base@,
                ),
                None => is_published(self@, base@),
            },
    {
        match &self.goal {
            CatalogGoal::Publish(split) => {
                if base.contains_hash(split.content_hash.as_str()) {
                    return None;
                }
                let mut catalog: IndexCatalog = base;
                catalog.push_split(split.clone(), self.now_ms);
                Some(catalog)
            },
            CatalogGoal::Replace(splits) => {
                let covered: i64 = if base.covered_until_ms < self.now_ms {
                    self.now_ms
                } else {
                    base.covered_until_ms
                };
                Some(
                    IndexCatalog {
                        schema: self.schema,
                        generation: base.generation + 1,
                        splits: copy_splits(splits),
                        covered_until_ms: covered,
                    },
                )
            },
        }
    }

    /// Takes in what happened and says what to do next.
    pub fn next(self, event: CatalogEvent) -> (next: (CatalogRun, CatalogAction))
        requires
            self.wf(),
            self.awaits(event),
        ensures
            next.0.wf(),
            (next.0@, next.1@) == catalog_on(self@, event@),
    {
        let mut run: CatalogRun = self;
        match event {
            CatalogEvent::Loaded(reply) => match reply {
                Ok(loaded) => {
                    let generation: u64 = loaded.catalog.generation;
                    match run.changed(loaded.catalog) {
                        None => {
                            let key: String = match loaded.catalog_key {
                                Some(key) => key,
                                None => String::new(),
                            };
                            let outcome = PublishOutcome {
                                generation,
                                catalog_key: key,
                                attempts: run.attempt,
                                already_present: true,
                            };
                            run.phase = CatalogPhase::Finished;
                            (run, CatalogAction::Finish(Ok(CatalogOutcome::Published(outcome))))
                        },
                        Some(catalog) => {
                            run.phase = CatalogPhase::Storing(
                                catalog.generation,
                                catalog.splits.len(),
                                loaded.head_version,
                            );
                            (run, CatalogAction::Store(catalog))
                        },
                    }
                },
                Err(error) => {
                    run.phase = CatalogPhase::Finished;
                    (run, CatalogAction::Finish(Err(error)))
                },
            },
            CatalogEvent::Stored(reply) => match reply {
                Ok(key) => {
                    let CatalogRun { goal, now_ms, schema, retry, attempt, phase } = run;
                    match phase {
                        CatalogPhase::Storing(generation, splits, expected) => {
                            let head = CatalogHead {
                                schema,
                                generation,
                                catalog_key: key.clone(),
                                updated_at_ms: now_ms,
                            };
                            (
                                CatalogRun {
                                    goal,
                                    now_ms,
                                    schema,
                                    retry,
                                    attempt,
                                    phase: CatalogPhase::Swapping(generation, splits, key),
                                },
                                CatalogAction::Swap(head, expected),
                            )
                        },
                        other => (
                            CatalogRun { goal, now_ms, schema, retry, attempt, phase: other },
                            CatalogAction::Load,
                        ),
                    }
                },
                Err(error) => {
                    run.phase = CatalogPhase::Finished;
                    (run, CatalogAction::Finish(Err(error)))
                },
            },
            CatalogEvent::Swapped(reply) => {
                let outcome: Settled = run.retry.settle(run.attempt, reply);
                match outcome {
                    Settled::Won(_) => {
                        let CatalogRun { goal, now_ms, schema, retry, attempt, phase } = run;
                        match phase {
                            CatalogPhase::Swapping(generation, splits, catalog_key) => {
                                let done: CatalogOutcome = match &goal {
                                    CatalogGoal::Publish(_) => CatalogOutcome::Published(
                                        PublishOutcome {
                                            generation,
                                            catalog_key,
                                            attempts: attempt,
                                            already_present: false,
                                        },
                                    ),
                                    CatalogGoal::Replace(_) => CatalogOutcome::Replaced(
                                        ReplaceCatalogOutcome {
                                            generation,
                                            catalog_key,
                                            splits,
                                            attempts: attempt,
                                        },
                                    ),
                                };
                                (
                                    CatalogRun {
                                        goal,
                                        now_ms,
                                        schema,
                                        retry,
                                        attempt,
                                        phase: CatalogPhase::Finished,
                                    },
                                    CatalogAction::Finish(Ok(done)),
                                )
                            },
                            other => (
                                CatalogRun { goal, now_ms, schema, retry, attempt, phase: other },
                                CatalogAction::Load,
                            ),
                        }
                    },
                    Settled::GiveUp => {
                        let attempts: u32 = run.attempt;
                        run.phase = CatalogPhase::Finished;
                        (run, CatalogAction::Finish(Err(StoreError::Conflict { attempts })))
                    },
                    Settled::Failed(error) => {
                        run.phase = CatalogPhase::Finished;
                        (run, CatalogAction::Finish(Err(error)))
                    },
                    Settled::Again => {
                        run.attempt = run.attempt + 1;
                        run.phase = CatalogPhase::Loading;
                        (run, CatalogAction::Load)
                    },
                    Settled::After(ns) => {
                        run.phase = CatalogPhase::Waiting;
                        (run, CatalogAction::Wait(ns))
                    },
                }
            },
            CatalogEvent::Waited => {
                run.attempt = run.attempt + 1;
                run.phase = CatalogPhase::Loading;
                (run, CatalogAction::Load)
            },
        }
    }
}

/// Publishing a split a second time changes nothing: the run ends where it read
/// the catalog that holds the split, and reports the generation it found.
pub proof fn law_publishing_twice_is_publishing_once(
    first: CatalogRunView,
    base: CatalogView,
    again: CatalogRunView,
    key: Option<Seq<char>>,
    version: Option<VersionView>,
)
    requires
        first.goal is Publish,
        again.goal is Publish,
        again.phase is Loading,
        first.goal->Publish_0.content_hash == again.goal->Publish_0.content_hash,
        !is_published(first, base),
    ensures
        ({
            let published = changed_catalog(first, base);
            let end = catalog_on(
                again,
                CatalogEventView::Loaded(
                    Ok(
                        LoadedCatalogView {
                            catalog: published,
                            catalog_key: key,
                            head_version: version,
                        },
                    ),
                ),
            );
            end.1 matches CatalogActionView::Finish(result) && (result matches Ok(outcome) && (
            outcome matches CatalogOutcomeView::Published { generation, already_present, .. }
                && already_present && generation == published.generation))
        }),
{
    let split = first.goal->Publish_0;
    let published = changed_catalog(first, base);
    assert(published.splits[base.splits.len() as int] == split);
    assert(has_hash(published.splits, split.content_hash));
}

/// A publication keeps every split that was published before it, in its place.
pub proof fn law_a_publication_keeps_every_split(run: CatalogRunView, base: CatalogView)
    requires
        run.goal is Publish,
        base.generation < u64::MAX,
    ensures
        ({
            let next = changed_catalog(run, base);
            &&& next.splits.take(base.splits.len() as int) == base.splits
            &&& next.splits.len() == base.splits.len() + 1
            &&& next.generation == base.generation + 1
            &&& next.covered_until_ms >= base.covered_until_ms
        }),
{
    assert(changed_catalog(run, base).splits.take(base.splits.len() as int) =~= base.splits);
}

} // verus!
