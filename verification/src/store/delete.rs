//! Deleting a page by a tombstone. A deletion is a commit like any other.

use vstd::prelude::*;

use crate::store::commit::{opt_version, LoadedManifest, LoadedView};
use crate::store::probe::{write_view, WriteReply, WriteView};
use crate::store::records::{Manifest, ManifestView, Tombstone, TombstoneView};
use crate::store::retry::{settled, RetryPolicy, Settled, SettledView};
use crate::store::version::{
    clone_opt_text, ErrorView, ObjectVersion, StoreError, VersionView,
};
use crate::text::opt_text;

verus! {

/// What a deletion did.
#[derive(Debug)]
pub struct DeleteOutcome {
    /// Commit number after the deletion; unchanged when already deleted.
    pub manifest_seq: u64,
    /// Version that was current when it was deleted.
    pub removed: Option<String>,
    /// True when the path was already deleted.
    pub already_deleted: bool,
    /// Attempts consumed, including retries.
    pub attempts: u32,
}

/// What a `DeleteOutcome` says.
pub struct DeleteOutcomeView {
    pub manifest_seq: nat,
    pub removed: Option<Seq<char>>,
    pub already_deleted: bool,
    pub attempts: nat,
}

impl View for DeleteOutcome {
    type V = DeleteOutcomeView;

    open spec fn view(&self) -> DeleteOutcomeView {
        DeleteOutcomeView {
            manifest_seq: self.manifest_seq as nat,
            removed: opt_text(self.removed),
            already_deleted: self.already_deleted,
            attempts: self.attempts as nat,
        }
    }
}

/// How far a deletion has come.
#[derive(Debug)]
pub enum DeletePhase {
    /// The manifest is being read.
    Loading,
    /// The manifest is being replaced: the number of the commit, and the version
    /// that it removes.
    Swapping(u64, Option<String>),
    /// The backoff after a lost race.
    Waiting,
    /// Nothing more to do.
    Finished,
}

/// What a `DeletePhase` says.
pub enum DeletePhaseView {
    Loading,
    Swapping(nat, Option<Seq<char>>),
    Waiting,
    Finished,
}

impl View for DeletePhase {
    type V = DeletePhaseView;

    open spec fn view(&self) -> DeletePhaseView {
        match *self {
            DeletePhase::Loading => DeletePhaseView::Loading,
            DeletePhase::Swapping(seq, removed) => DeletePhaseView::Swapping(
                seq as nat,
                opt_text(removed),
            ),
            DeletePhase::Waiting => DeletePhaseView::Waiting,
            DeletePhase::Finished => DeletePhaseView::Finished,
        }
    }
}

/// A deletion under way.
#[derive(Debug)]
pub struct DeleteRun {
    /// Path to delete.
    pub path: String,
    /// Machine that deletes it.
    pub writer_id: String,
    /// Caller-supplied clock.
    pub now_ms: i64,
    /// How hard to fight for it.
    pub retry: RetryPolicy,
    /// Attempts so far.
    pub attempt: u32,
    /// How far it has come.
    pub phase: DeletePhase,
}

/// What a `DeleteRun` says.
pub struct DeleteView {
    pub path: Seq<char>,
    pub writer_id: Seq<char>,
    pub now_ms: i64,
    pub retry: RetryPolicy,
    pub attempt: nat,
    pub phase: DeletePhaseView,
}

impl View for DeleteRun {
    type V = DeleteView;

    open spec fn view(&self) -> DeleteView {
        DeleteView {
            path: self.path@,
            writer_id: self.writer_id@,
            now_ms: self.now_ms,
            retry: self.retry,
            attempt: self.attempt as nat,
            phase: self.phase@,
        }
    }
}

/// What happened.
#[derive(Debug)]
pub enum DeleteEvent {
    /// The manifest was read.
    Loaded(Result<LoadedManifest, StoreError>),
    /// The backend replied to the replacement of the manifest.
    Swapped(WriteReply),
    /// The backoff is over.
    Waited,
}

/// What a `DeleteEvent` says.
pub enum DeleteEventView {
    Loaded(Result<LoadedView, ErrorView>),
    Swapped(WriteView),
    Waited,
}

impl View for DeleteEvent {
    type V = DeleteEventView;

    open spec fn view(&self) -> DeleteEventView {
        match *self {
            DeleteEvent::Loaded(Ok(loaded)) => DeleteEventView::Loaded(Ok(loaded@)),
            DeleteEvent::Loaded(Err(error)) => DeleteEventView::Loaded(Err(error@)),
            DeleteEvent::Swapped(reply) => DeleteEventView::Swapped(write_view(reply)),
            DeleteEvent::Waited => DeleteEventView::Waited,
        }
    }
}

/// What to do next.
#[derive(Debug)]
pub enum DeleteAction {
    /// Read the manifest.
    Load,
    /// Replace the manifest if it still has this version; create it where there is
    /// none.
    Swap(Manifest, Option<ObjectVersion>),
    /// Wait so many nanoseconds.
    Wait(u128),
    /// The deletion is over.
    Finish(Result<DeleteOutcome, StoreError>),
}

/// What a `DeleteAction` says.
pub enum DeleteActionView {
    Load,
    Swap(ManifestView, Option<VersionView>),
    Wait(nat),
    Finish(Result<DeleteOutcomeView, ErrorView>),
}

impl View for DeleteAction {
    type V = DeleteActionView;

    open spec fn view(&self) -> DeleteActionView {
        match *self {
            DeleteAction::Load => DeleteActionView::Load,
            DeleteAction::Swap(manifest, expected) => DeleteActionView::Swap(
                manifest@,
                opt_version(expected),
            ),
            DeleteAction::Wait(ns) => DeleteActionView::Wait(ns as nat),
            DeleteAction::Finish(Ok(outcome)) => DeleteActionView::Finish(Ok(outcome@)),
            DeleteAction::Finish(Err(error)) => DeleteActionView::Finish(Err(error@)),
        }
    }
}

/// The tombstone that a deletion puts into the manifest.
pub open spec fn deleting_tombstone(run: DeleteView, base: ManifestView) -> TombstoneView {
    TombstoneView {
        seq: (base.seq + 1) as u64,
        deleted_at_ms: run.now_ms,
        writer_id: run.writer_id,
        last_page_id: base.head_page_id(run.path),
    }
}

/// The manifest that a deletion puts in the place of `base`.
pub open spec fn deleted(run: DeleteView, base: ManifestView) -> ManifestView {
    base.tombstoned(run.path, deleting_tombstone(run, base))
}

/// A deletion that is over.
pub open spec fn delete_over(
    run: DeleteView,
    result: Result<DeleteOutcomeView, ErrorView>,
) -> (DeleteView, DeleteActionView) {
    (
        DeleteView { phase: DeletePhaseView::Finished, ..run },
        DeleteActionView::Finish(result),
    )
}

/// How a deletion goes on. A path that is deleted already is left as it is.
pub open spec fn delete_on(run: DeleteView, event: DeleteEventView) -> (
    DeleteView,
    DeleteActionView,
) {
    match (run.phase, event) {
        (DeletePhaseView::Loading, DeleteEventView::Loaded(Ok(loaded))) => {
            let base = loaded.manifest;
            if base.tombstones.dom().contains(run.path) {
                delete_over(
                    run,
                    Ok(
                        DeleteOutcomeView {
                            manifest_seq: base.seq as nat,
                            removed: None,
                            already_deleted: true,
                            attempts: run.attempt,
                        },
                    ),
                )
            } else {
                (
                    DeleteView {
                        phase: DeletePhaseView::Swapping(
                            (base.seq + 1) as nat,
                            base.head_page_id(run.path),
                        ),
                        ..run
                    },
                    DeleteActionView::Swap(deleted(run, base), loaded.version),
                )
            }
        },
        (DeletePhaseView::Loading, DeleteEventView::Loaded(Err(error))) => delete_over(
            run,
            Err(error),
        ),
        (DeletePhaseView::Swapping(seq, removed), DeleteEventView::Swapped(reply)) => match settled(
            run.retry,
            run.attempt,
            reply,
        ) {
            SettledView::Won(_) => delete_over(
                run,
                Ok(
                    DeleteOutcomeView {
                        manifest_seq: seq,
                        removed,
                        already_deleted: false,
                        attempts: run.attempt,
                    },
                ),
            ),
            SettledView::GiveUp => delete_over(run, Err(ErrorView::Conflict(run.attempt))),
            SettledView::Failed(error) => delete_over(run, Err(error)),
            SettledView::Again => (
                DeleteView { attempt: run.attempt + 1, phase: DeletePhaseView::Loading, ..run },
                DeleteActionView::Load,
            ),
            SettledView::After(ns) => (
                DeleteView { phase: DeletePhaseView::Waiting, ..run },
                DeleteActionView::Wait(ns),
            ),
        },
        (DeletePhaseView::Waiting, DeleteEventView::Waited) => (
            DeleteView { attempt: run.attempt + 1, phase: DeletePhaseView::Loading, ..run },
            DeleteActionView::Load,
        ),
        _ => (run, DeleteActionView::Load),
    }
}

impl DeleteRun {
    /// There are attempts left where one is to follow.
    pub open spec fn wf(&self) -> bool {
        &&& self.attempt > 0
        &&& self.phase is Waiting ==> self.attempt < self.retry.max_attempts
    }

    /// Whether the event is one that the phase waits for.
    pub open spec fn awaits(&self, event: DeleteEvent) -> bool {
        match self.phase {
            DeletePhase::Loading => event matches DeleteEvent::Loaded(reply) && (reply matches Ok(
                loaded,
            ) ==> loaded.wf()),
            DeletePhase::Swapping(_, _) => event is Swapped,
            DeletePhase::Waiting => event is Waited,
            DeletePhase::Finished => false,
        }
    }

    /// The start of a deletion: the first thing to do is to read the manifest.
    pub fn start(path: String, writer_id: String, now_ms: i64, retry: RetryPolicy) -> (next: (
        DeleteRun,
        DeleteAction,
    ))
        ensures
            next.0.wf(),
            next.0@ == (DeleteView {
                path: path@,
                writer_id: writer_id@,
                now_ms,
                retry,
                attempt: 1,
                phase: DeletePhaseView::Loading,
            }),
            next.1@ == DeleteActionView::Load,
    {
        (
            DeleteRun { path, writer_id, now_ms, retry, attempt: 1, phase: DeletePhase::Loading },
            DeleteAction::Load,
        )
    }

    /// Takes in what happened and says what to do next.
    pub fn next(self, event: DeleteEvent) -> (next: (DeleteRun, DeleteAction))
        requires
            self.wf(),
            self.awaits(event),
        ensures
            next.0.wf(),
            (next.0@, next.1@) == delete_on(self@, event@),
            next.1 matches DeleteAction::Swap(manifest, _) ==> manifest.wf(),
    {
        let mut run: DeleteRun = self;
        match event {
            DeleteEvent::Loaded(reply) => match reply {
                Ok(loaded) => {
                    if loaded.manifest.is_tombstoned(run.path.as_str()) {
                        let outcome = DeleteOutcome {
                            manifest_seq: loaded.manifest.seq,
                            removed: None,
                            already_deleted: true,
                            attempts: run.attempt,
                        };
                        run.phase = DeletePhase::Finished;
                        return (run, DeleteAction::Finish(Ok(outcome)));
                    }
                    let removed: Option<String> = loaded.manifest.head_page_id(run.path.as_str());
                    let seq: u64 = loaded.manifest.next_seq();
                    let tombstone = Tombstone {
                        seq,
                        deleted_at_ms: run.now_ms,
                        writer_id: run.writer_id.clone(),
                        last_page_id: clone_opt_text(&removed),
                    };
                    let mut manifest: Manifest = loaded.manifest;
                    manifest.tombstone(run.path.as_str(), tombstone);
                    run.phase = DeletePhase::Swapping(seq, removed);
                    (run, DeleteAction::Swap(manifest, loaded.version))
                },
                Err(error) => {
                    run.phase = DeletePhase::Finished;
                    (run, DeleteAction::Finish(Err(error)))
                },
            },
            DeleteEvent::Swapped(reply) => {
                let outcome: Settled = run.retry.settle(run.attempt, reply);
                match outcome {
                    Settled::Won(_) => {
                        let mut seq: u64 = 0;
                        let mut removed: Option<String> = None;
                        if let DeletePhase::Swapping(s, r) = run.phase {
                            seq = s;
                            removed = r;
                        }
                        let done = DeleteOutcome {
                            manifest_seq: seq,
                            removed,
                            already_deleted: false,
                            attempts: run.attempt,
                        };
                        run.phase = DeletePhase::Finished;
                        (run, DeleteAction::Finish(Ok(done)))
                    },
                    Settled::GiveUp => {
                        let attempts: u32 = run.attempt;
                        run.phase = DeletePhase::Finished;
                        (run, DeleteAction::Finish(Err(StoreError::Conflict { attempts })))
                    },
                    Settled::Failed(error) => {
                        run.phase = DeletePhase::Finished;
                        (run, DeleteAction::Finish(Err(error)))
                    },
                    Settled::Again => {
                        run.attempt = run.attempt + 1;
                        run.phase = DeletePhase::Loading;
                        (run, DeleteAction::Load)
                    },
                    Settled::After(ns) => {
                        run.phase = DeletePhase::Waiting;
                        (run, DeleteAction::Wait(ns))
                    },
                }
            },
            DeleteEvent::Waited => {
                run.attempt = run.attempt + 1;
                run.phase = DeletePhase::Loading;
                (run, DeleteAction::Load)
            },
        }
    }
}

} // verus!
