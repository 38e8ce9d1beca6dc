//! Committing pages.
//!
//! A page becomes part of the project when, and only when, its entry enters the
//! manifest by a successful conditional write. What is stored before that, the
//! version and its write-ahead record, is invisible to readers.

use vstd::prelude::*;

use crate::store::probe::{write_view, WriteReply, WriteView};
use crate::store::records::{
    Manifest, ManifestView, PageEntry, PageEntryView, PageVersion, PageVersionView, WalEntry,
    WalEntryView,
};
use crate::store::retry::{lost, lost_race, Race, RaceView, RetryPolicy};
use crate::store::version::{
    clone_opt_text, ErrorView, ObjectVersion, StoreError, VersionView,
};
use crate::text::opt_text;

verus! {

/// A manifest and the version it was read at.
#[derive(Debug)]
pub struct LoadedManifest {
    /// Current contents; empty when the scope has never committed.
    pub manifest: Manifest,
    /// Version to replace, or `None` when there is no manifest yet.
    pub version: Option<ObjectVersion>,
}

/// What a `LoadedManifest` says.
pub struct LoadedView {
    pub manifest: ManifestView,
    pub version: Option<VersionView>,
}

/// What an optional version says.
pub open spec fn opt_version(version: Option<ObjectVersion>) -> Option<VersionView> {
    match version {
        Some(v) => Some(v@),
        None => None,
    }
}

impl View for LoadedManifest {
    type V = LoadedView;

    open spec fn view(&self) -> LoadedView {
        LoadedView { manifest: self.manifest@, version: opt_version(self.version) }
    }
}

impl LoadedManifest {
    /// The paths stand in order, and there is a number left for one more commit.
    pub open spec fn wf(&self) -> bool {
        self.manifest.wf() && self.manifest.seq < u64::MAX
    }
}

/// What the read of a manifest amounts to: an absent one is the manifest of a
/// scope that never committed.
pub fn loaded_manifest(reply: Result<(Manifest, ObjectVersion), StoreError>) -> (loaded: Result<
    LoadedManifest,
    StoreError,
>)
    requires
        reply matches Ok(found) ==> found.0.wf(),
    ensures
        loaded matches Ok(l) ==> l.manifest.wf(),
        match reply {
            Ok(found) => loaded matches Ok(l) && l@ == (LoadedView {
                manifest: found.0@,
                version: Some(found.1@),
            }),
            Err(error) => if error@ is NotFound {
                loaded matches Ok(l) && l@ == (LoadedView {
                    manifest: ManifestView {
                        seq: 0,
                        pages: Map::empty(),
                        tombstones: Map::empty(),
                    },
                    version: None,
                })
            } else {
                loaded matches Err(e) && e@ == error@
            },
        },
{
    match reply {
        Ok((manifest, version)) => Ok(LoadedManifest { manifest, version: Some(version) }),
        Err(StoreError::NotFound) => Ok(
            LoadedManifest { manifest: Manifest::empty(), version: None },
        ),
        Err(error) => Err(error),
    }
}

/// One page write to commit.
#[derive(Debug)]
pub struct CommitPageRequest {
    /// Workspace the page belongs to.
    pub workspace_id: String,
    /// Project the page belongs to.
    pub project_id: String,
    /// Path inside the project.
    pub path: String,
    /// Title.
    pub title: String,
    /// Markdown body.
    pub body: String,
    /// Machine performing the write.
    pub writer_id: String,
    /// Caller-supplied clock, recorded for ordering only.
    pub now_ms: i64,
}

/// What a `CommitPageRequest` says.
pub struct CommitRequestView {
    pub workspace_id: Seq<char>,
    pub project_id: Seq<char>,
    pub path: Seq<char>,
    pub title: Seq<char>,
    pub body: Seq<char>,
    pub writer_id: Seq<char>,
    pub now_ms: i64,
}

impl View for CommitPageRequest {
    type V = CommitRequestView;

    open spec fn view(&self) -> CommitRequestView {
        CommitRequestView {
            workspace_id: self.workspace_id@,
            project_id: self.project_id@,
            path: self.path@,
            title: self.title@,
            body: self.body@,
            writer_id: self.writer_id@,
            now_ms: self.now_ms,
        }
    }
}

/// What a successful commit did.
#[derive(Debug)]
pub struct CommitOutcome {
    /// Commit number that the winning write assigned.
    pub manifest_seq: u64,
    /// Id of the version that was committed.
    pub page_id: String,
    /// Version that this commit superseded, if any.
    pub supersedes: Option<String>,
    /// Attempts consumed, including retries.
    pub attempts: u32,
    /// False when the page object already existed: a replay.
    pub page_object_created: bool,
}

/// What a `CommitOutcome` says.
pub struct CommitOutcomeView {
    pub manifest_seq: nat,
    pub page_id: Seq<char>,
    pub supersedes: Option<Seq<char>>,
    pub attempts: nat,
    pub page_object_created: bool,
}

impl View for CommitOutcome {
    type V = CommitOutcomeView;

    open spec fn view(&self) -> CommitOutcomeView {
        CommitOutcomeView {
            manifest_seq: self.manifest_seq as nat,
            page_id: self.page_id@,
            supersedes: opt_text(self.supersedes),
            attempts: self.attempts as nat,
            page_object_created: self.page_object_created,
        }
    }
}

// ---- The course of a commit ------------------------------------------------------------

/// How far a commit has come.
#[derive(Debug)]
pub enum CommitPhase {
    /// The manifest is being read.
    Loading,
    /// The id of the new version is being derived.
    Deriving(LoadedManifest),
    /// The version is being stored.
    StoringPage(LoadedManifest, String),
    /// The write-ahead record is being stored. The flag says whether the version
    /// was new.
    StoringWal(LoadedManifest, String, bool),
    /// The manifest is being replaced.
    Swapping {
        /// Number of this commit.
        seq: u64,
        /// Id of the version.
        page_id: String,
        /// Version that it supersedes.
        supersedes: Option<String>,
        /// Whether the version was new.
        created: bool,
    },
    /// The backoff after a lost race.
    Waiting,
    /// Nothing more to do.
    Finished,
}

/// What a `CommitPhase` says.
pub enum CommitPhaseView {
    Loading,
    Deriving(LoadedView),
    StoringPage(LoadedView, Seq<char>),
    StoringWal(LoadedView, Seq<char>, bool),
    Swapping(nat, Seq<char>, Option<Seq<char>>, bool),
    Waiting,
    Finished,
}

impl View for CommitPhase {
    type V = CommitPhaseView;

    open spec fn view(&self) -> CommitPhaseView {
        match *self {
            CommitPhase::Loading => CommitPhaseView::Loading,
            CommitPhase::Deriving(loaded) => CommitPhaseView::Deriving(loaded@),
            CommitPhase::StoringPage(loaded, id) => CommitPhaseView::StoringPage(loaded@, id@),
            CommitPhase::StoringWal(loaded, id, created) => CommitPhaseView::StoringWal(
                loaded@,
                id@,
                created,
            ),
            CommitPhase::Swapping { seq, page_id, supersedes, created } =>
                CommitPhaseView::Swapping(seq as nat, page_id@, opt_text(supersedes), created),
            CommitPhase::Waiting => CommitPhaseView::Waiting,
            CommitPhase::Finished => CommitPhaseView::Finished,
        }
    }
}

/// A commit under way.
#[derive(Debug)]
pub struct CommitRun {
    /// What is to be committed.
    pub request: CommitPageRequest,
    /// How hard to fight for it.
    pub retry: RetryPolicy,
    /// Schema number of the records.
    pub schema: u32,
    /// Attempts so far.
    pub attempt: u32,
    /// How far it has come.
    pub phase: CommitPhase,
}

/// What a `CommitRun` says.
pub struct CommitView {
    pub request: CommitRequestView,
    pub retry: RetryPolicy,
    pub schema: u32,
    pub attempt: nat,
    pub phase: CommitPhaseView,
}

impl View for CommitRun {
    type V = CommitView;

    open spec fn view(&self) -> CommitView {
        CommitView {
            request: self.request@,
            retry: self.retry,
            schema: self.schema,
            attempt: self.attempt as nat,
            phase: self.phase@,
        }
    }
}

/// What happened.
#[derive(Debug)]
pub enum CommitEvent {
    /// The manifest was read.
    Loaded(Result<LoadedManifest, StoreError>),
    /// The id of the version was derived.
    Derived(String),
    /// The version was stored; the flag says whether it was new.
    PageStored(Result<bool, StoreError>),
    /// The write-ahead record was stored.
    WalStored(Result<bool, StoreError>),
    /// The backend replied to the replacement of the manifest.
    Swapped(WriteReply),
    /// The backoff is over.
    Waited,
}

/// What a `CommitEvent` says.
pub enum CommitEventView {
    Loaded(Result<LoadedView, ErrorView>),
    Derived(Seq<char>),
    PageStored(Result<bool, ErrorView>),
    WalStored(Result<bool, ErrorView>),
    Swapped(WriteView),
    Waited,
}

/// What a reply that carries no text says.
pub open spec fn flag_view(reply: Result<bool, StoreError>) -> Result<bool, ErrorView> {
    match reply {
        Ok(flag) => Ok(flag),
        Err(error) => Err(error@),
    }
}

impl View for CommitEvent {
    type V = CommitEventView;

    open spec fn view(&self) -> CommitEventView {
        match *self {
            CommitEvent::Loaded(Ok(loaded)) => CommitEventView::Loaded(Ok(loaded@)),
            CommitEvent::Loaded(Err(error)) => CommitEventView::Loaded(Err(error@)),
            CommitEvent::Derived(id) => CommitEventView::Derived(id@),
            CommitEvent::PageStored(reply) => CommitEventView::PageStored(flag_view(reply)),
            CommitEvent::WalStored(reply) => CommitEventView::WalStored(flag_view(reply)),
            CommitEvent::Swapped(reply) => CommitEventView::Swapped(write_view(reply)),
            CommitEvent::Waited => CommitEventView::Waited,
        }
    }
}

/// What to do next.
#[derive(Debug)]
pub enum CommitAction {
    /// Read the manifest.
    Load,
    /// Derive the id of the version that supersedes the given one.
    Derive(Option<String>),
    /// Store this version, unless the same one is there.
    StorePage(PageVersion),
    /// Store this write-ahead record, unless the same one is there.
    StoreWal(WalEntry),
    /// Replace the manifest if it still has this version; create it where there is
    /// none.
    Swap(Manifest, Option<ObjectVersion>),
    /// Wait so many nanoseconds.
    Wait(u128),
    /// The commit is over.
    Finish(Result<CommitOutcome, StoreError>),
}

/// What a `CommitAction` says.
pub enum CommitActionView {
    Load,
    Derive(Option<Seq<char>>),
    StorePage(PageVersionView),
    StoreWal(WalEntryView),
    Swap(ManifestView, Option<VersionView>),
    Wait(nat),
    Finish(Result<CommitOutcomeView, ErrorView>),
}

impl View for CommitAction {
    type V = CommitActionView;

    open spec fn view(&self) -> CommitActionView {
        match *self {
            CommitAction::Load => CommitActionView::Load,
            CommitAction::Derive(supersedes) => CommitActionView::Derive(opt_text(supersedes)),
            CommitAction::StorePage(page) => CommitActionView::StorePage(page@),
            CommitAction::StoreWal(entry) => CommitActionView::StoreWal(entry@),
            CommitAction::Swap(manifest, expected) => CommitActionView::Swap(
                manifest@,
                opt_version(expected),
            ),
            CommitAction::Wait(ns) => CommitActionView::Wait(ns as nat),
            CommitAction::Finish(Ok(outcome)) => CommitActionView::Finish(Ok(outcome@)),
            CommitAction::Finish(Err(error)) => CommitActionView::Finish(Err(error@)),
        }
    }
}

/// The entry that a commit puts into the manifest.
pub open spec fn committed_entry(
    request: CommitRequestView,
    base: ManifestView,
    page_id: Seq<char>,
) -> PageEntryView {
    PageEntryView {
        page_id,
        seq: (base.seq + 1) as u64,
        created_at_ms: request.now_ms,
        writer_id: request.writer_id,
        title: request.title,
        supersedes: base.head_page_id(request.path),
    }
}

/// The manifest that a commit puts in the place of `base`.
pub open spec fn committed(
    request: CommitRequestView,
    base: ManifestView,
    page_id: Seq<char>,
) -> ManifestView {
    base.recorded(request.path, committed_entry(request, base, page_id))
}

/// A commit that is over.
pub open spec fn commit_over(
    run: CommitView,
    result: Result<CommitOutcomeView, ErrorView>,
) -> (CommitView, CommitActionView) {
    (
        CommitView { phase: CommitPhaseView::Finished, ..run },
        CommitActionView::Finish(result),
    )
}

/// How a commit goes on.
pub open spec fn commit_on(run: CommitView, event: CommitEventView) -> (
    CommitView,
    CommitActionView,
) {
    let request = run.request;
    match (run.phase, event) {
        (CommitPhaseView::Loading, CommitEventView::Loaded(Ok(loaded))) => (
            CommitView { phase: CommitPhaseView::Deriving(loaded), ..run },
            CommitActionView::Derive(loaded.manifest.head_page_id(request.path)),
        ),
        (CommitPhaseView::Loading, CommitEventView::Loaded(Err(error))) => commit_over(
            run,
            Err(error),
        ),
        (CommitPhaseView::Deriving(loaded), CommitEventView::Derived(page_id)) => (
            CommitView { phase: CommitPhaseView::StoringPage(loaded, page_id), ..run },
            CommitActionView::StorePage(
                PageVersionView {
                    page_id,
                    path: request.path,
                    title: request.title,
                    body: request.body,
                    supersedes: loaded.manifest.head_page_id(request.path),
                },
            ),
        ),
        (
            CommitPhaseView::StoringPage(loaded, page_id),
            CommitEventView::PageStored(Ok(created)),
        ) => (
            CommitView { phase: CommitPhaseView::StoringWal(loaded, page_id, created), ..run },
            CommitActionView::StoreWal(
                WalEntryView {
                    schema: run.schema,
                    writer_id: request.writer_id,
                    page_id,
                    path: request.path,
                    supersedes: loaded.manifest.head_page_id(request.path),
                },
            ),
        ),
        (
            CommitPhaseView::StoringPage(_, _),
            CommitEventView::PageStored(Err(error)),
        ) => commit_over(run, Err(error)),
        (
            CommitPhaseView::StoringWal(loaded, page_id, created),
            CommitEventView::WalStored(Ok(_)),
        ) => (
            CommitView {
                phase: CommitPhaseView::Swapping(
                    (loaded.manifest.seq + 1) as nat,
                    page_id,
                    loaded.manifest.head_page_id(request.path),
                    created,
                ),
                ..run
            },
            CommitActionView::Swap(committed(request, loaded.manifest, page_id), loaded.version),
        ),
        (
            CommitPhaseView::StoringWal(_, _, _),
            CommitEventView::WalStored(Err(error)),
        ) => commit_over(run, Err(error)),
        (
            CommitPhaseView::Swapping(seq, page_id, supersedes, created),
            CommitEventView::Swapped(reply),
        ) => if reply is Ok {
            commit_over(
                run,
                Ok(
                    CommitOutcomeView {
                        manifest_seq: seq,
                        page_id,
                        supersedes,
                        attempts: run.attempt,
                        page_object_created: created,
                    },
                ),
            )
        } else if lost(reply) {
            match lost_race(run.retry, run.attempt) {
                RaceView::GiveUp => commit_over(run, Err(ErrorView::Conflict(run.attempt))),
                RaceView::Again => (
                    CommitView {
                        attempt: run.attempt + 1,
                        phase: CommitPhaseView::Loading,
                        ..run
                    },
                    CommitActionView::Load,
                ),
                RaceView::After(ns) => (
                    CommitView { phase: CommitPhaseView::Waiting, ..run },
                    CommitActionView::Wait(ns),
                ),
            }
        } else {
            commit_over(run, Err(reply->Err_0))
        },
        (CommitPhaseView::Waiting, CommitEventView::Waited) => (
            CommitView { attempt: run.attempt + 1, phase: CommitPhaseView::Loading, ..run },
            CommitActionView::Load,
        ),
        _ => (run, CommitActionView::Load),
    }
}

impl CommitRun {
    /// What is loaded is in order, and there are attempts left where one is to
    /// follow.
    pub open spec fn wf(&self) -> bool {
        &&& self.attempt > 0
        &&& match self.phase {
            CommitPhase::Deriving(loaded) => loaded.wf(),
            CommitPhase::StoringPage(loaded, _) => loaded.wf(),
            CommitPhase::StoringWal(loaded, _, _) => loaded.wf(),
            CommitPhase::Waiting => self.attempt < self.retry.max_attempts,
            _ => true,
        }
    }

    /// Whether the event is one that the phase waits for.
    pub open spec fn awaits(&self, event: CommitEvent) -> bool {
        match self.phase {
            CommitPhase::Loading => event matches CommitEvent::Loaded(reply) && (reply matches Ok(
                loaded,
            ) ==> loaded.wf()),
            CommitPhase::Deriving(_) => event is Derived,
            CommitPhase::StoringPage(_, _) => event is PageStored,
            CommitPhase::StoringWal(_, _, _) => event is WalStored,
            CommitPhase::Swapping { .. } => event is Swapped,
            CommitPhase::Waiting => event is Waited,
            CommitPhase::Finished => false,
        }
    }

    /// The start of a commit: the first thing to do is to read the manifest.
    pub fn start(request: CommitPageRequest, retry: RetryPolicy, schema: u32) -> (next: (
        CommitRun,
        CommitAction,
    ))
        ensures
            next.0.wf(),
            next.0@ == (CommitView {
                request: request@,
                retry,
                schema,
                attempt: 1,
                phase: CommitPhaseView::Loading,
            }),
            next.1@ == CommitActionView::Load,
    {
        (
            CommitRun { request, retry, schema, attempt: 1, phase: CommitPhase::Loading },
            CommitAction::Load,
        )
    }

    /// Takes in what happened and says what to do next.
    pub fn next(self, event: CommitEvent) -> (next: (CommitRun, CommitAction))
        requires
            self.wf(),
            self.awaits(event),
        ensures
            next.0.wf(),
            (next.0@, next.1@) == commit_on(self@, event@),
            next.1 matches CommitAction::Swap(manifest, _) ==> manifest.wf(),
    {
        let request: CommitPageRequest = self.request;
        let retry: RetryPolicy = self.retry;
        let schema: u32 = self.schema;
        let attempt: u32 = self.attempt;
        match (self.phase, event) {
            (CommitPhase::Loading, CommitEvent::Loaded(reply)) => match reply {
                Ok(loaded) => {
                    let supersedes: Option<String> = loaded.manifest.head_page_id(
                        request.path.as_str(),
                    );
                    (
                        CommitRun {
                            request,
                            retry,
                            schema,
                            attempt,
                            phase: CommitPhase::Deriving(loaded),
                        },
                        CommitAction::Derive(supersedes),
                    )
                },
                Err(error) => (
                    CommitRun { request, retry, schema, attempt, phase: CommitPhase::Finished },
                    CommitAction::Finish(Err(error)),
                ),
            },
            (CommitPhase::Deriving(loaded), CommitEvent::Derived(page_id)) => {
                let page = PageVersion {
                    page_id: page_id.clone(),
                    path: request.path.clone(),
                    title: request.title.clone(),
                    body: request.body.clone(),
                    supersedes: loaded.manifest.head_page_id(request.path.as_str()),
                };
                (
                    CommitRun {
                        request,
                        retry,
                        schema,
                        attempt,
                        phase: CommitPhase::StoringPage(loaded, page_id),
                    },
                    CommitAction::StorePage(page),
                )
            },
            (CommitPhase::StoringPage(loaded, page_id), CommitEvent::PageStored(reply)) => {
                match reply {
                    Ok(created) => {
                        let entry = WalEntry {
                            schema,
                            writer_id: request.writer_id.clone(),
                            page_id: page_id.clone(),
                            path: request.path.clone(),
                            supersedes: loaded.manifest.head_page_id(request.path.as_str()),
                        };
                        (
                            CommitRun {
                                request,
                                retry,
                                schema,
                                attempt,
                                phase: CommitPhase::StoringWal(loaded, page_id, created),
                            },
                            CommitAction::StoreWal(entry),
                        )
                    },
                    Err(error) => (
                        CommitRun {
                            request,
                            retry,
                            schema,
                            attempt,
                            phase: CommitPhase::Finished,
                        },
                        CommitAction::Finish(Err(error)),
                    ),
                }
            },
            (CommitPhase::StoringWal(loaded, page_id, created), CommitEvent::WalStored(reply)) => {
                match reply {
                    Ok(_) => {
                        let seq: u64 = loaded.manifest.next_seq();
                        let supersedes: Option<String> = loaded.manifest.head_page_id(
                            request.path.as_str(),
                        );
                        let entry = PageEntry {
                            page_id: page_id.clone(),
                            seq,
                            created_at_ms: request.now_ms,
                            writer_id: request.writer_id.clone(),
                            title: request.title.clone(),
                            supersedes: clone_opt_text(&supersedes),
                        };
                        let mut manifest: Manifest = loaded.manifest;
                        manifest.record(request.path.as_str(), entry);
                        (
                            CommitRun {
                                request,
                                retry,
                                schema,
                                attempt,
                                phase: CommitPhase::Swapping { seq, page_id, supersedes, created },
                            },
                            CommitAction::Swap(manifest, loaded.version),
                        )
                    },
                    Err(error) => (
                        CommitRun {
                            request,
                            retry,
                            schema,
                            attempt,
                            phase: CommitPhase::Finished,
                        },
                        CommitAction::Finish(Err(error)),
                    ),
                }
            },
            (
                CommitPhase::Swapping { seq, page_id, supersedes, created },
                CommitEvent::Swapped(reply),
            ) => match reply {
                Ok(_) => {
                    let outcome = CommitOutcome {
                        manifest_seq: seq,
                        page_id,
                        supersedes,
                        attempts: attempt,
                        page_object_created: created,
                    };
                    (
                        CommitRun {
                            request,
                            retry,
                            schema,
                            attempt,
                            phase: CommitPhase::Finished,
                        },
                        CommitAction::Finish(Ok(outcome)),
                    )
                },
                Err(error) => {
                    if !error.lost_the_race() {
                        return (
                            CommitRun {
                                request,
                                retry,
                                schema,
                                attempt,
                                phase: CommitPhase::Finished,
                            },
                            CommitAction::Finish(Err(error)),
                        );
                    }
                    match retry.lost(attempt) {
                        Race::GiveUp => (
                            CommitRun {
                                request,
                                retry,
                                schema,
                                attempt,
                                phase: CommitPhase::Finished,
                            },
                            CommitAction::Finish(Err(StoreError::Conflict { attempts: attempt })),
                        ),
                        Race::Again => (
                            CommitRun {
                                request,
                                retry,
                                schema,
                                attempt: attempt + 1,
                                phase: CommitPhase::Loading,
                            },
                            CommitAction::Load,
                        ),
                        Race::After(ns) => (
                            CommitRun {
                                request,
                                retry,
                                schema,
                                attempt,
                                phase: CommitPhase::Waiting,
                            },
                            CommitAction::Wait(ns),
                        ),
                    }
                },
            },
            (CommitPhase::Waiting, CommitEvent::Waited) => (
                CommitRun {
                    request,
                    retry,
                    schema,
                    attempt: attempt + 1,
                    phase: CommitPhase::Loading,
                },
                CommitAction::Load,
            ),
            (phase, _) => (
                CommitRun { request, retry, schema, attempt, phase },
                CommitAction::Load,
            ),
        }
    }
}

} // verus!
