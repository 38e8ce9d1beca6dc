//! What the operations on a project do from their start to their end.

use vstd::prelude::*;

use crate::store::commit::{
    commit_on, CommitActionView, CommitEventView, CommitOutcomeView, CommitPhaseView,
    CommitRequestView, CommitView, LoadedView,
};
use crate::store::delete::{
    delete_on, DeleteActionView, DeleteEventView, DeleteOutcomeView, DeletePhaseView, DeleteView,
};
use crate::store::probe::WriteView;
use crate::store::records::{ManifestView, PageEntryView, PageVersionView, TombstoneView, WalEntryView};
use crate::store::retry::{lost_race, settled, RaceView, RetryPolicy, SettledView};
use crate::store::version::{ErrorView, VersionView};

verus! {

/// The version that is current at a path, where there is one.
pub open spec fn current_at(manifest: ManifestView, path: Seq<char>) -> Option<Seq<char>> {
    if manifest.pages.dom().contains(path) {
        Some(manifest.pages[path].page_id)
    } else {
        None
    }
}

// ---- Commits ------------------------------------------------------------------------------

/// A commit that meets no race reads the manifest, derives the id against the version that
/// is current at the path, stores the page with the title and the body that were asked for,
/// stores the write-ahead record, replaces the manifest that it read by one whose entry has
/// the same title, and answers with the number and the id.
pub proof fn law_the_course_of_a_commit(
    request: CommitRequestView,
    retry: RetryPolicy,
    schema: u32,
    attempt: nat,
    loaded: LoadedView,
    id: Seq<char>,
    created: bool,
    logged: bool,
    version: VersionView,
)
    requires
        loaded.manifest.seq < u64::MAX,
    ensures
        ({
            let start = CommitView {
                request,
                retry,
                schema,
                attempt,
                phase: CommitPhaseView::Loading,
            };
            let head = current_at(loaded.manifest, request.path);
            let read = commit_on(start, CommitEventView::Loaded(Ok(loaded)));
            let derived = commit_on(read.0, CommitEventView::Derived(id));
            let stored = commit_on(derived.0, CommitEventView::PageStored(Ok(created)));
            let recorded = commit_on(stored.0, CommitEventView::WalStored(Ok(logged)));
            let swapped = commit_on(recorded.0, CommitEventView::Swapped(Ok(version)));
            &&& read.1 == CommitActionView::Derive(head)
            &&& derived.1 matches CommitActionView::StorePage(page)
            &&& page.page_id == id
            &&& page.path == request.path
            &&& page.title == request.title
            &&& page.body == request.body
            &&& page.supersedes == head
            &&& stored.1 matches CommitActionView::StoreWal(entry)
            &&& entry.schema == schema
            &&& entry.writer_id == request.writer_id
            &&& entry.page_id == id
            &&& entry.path == request.path
            &&& entry.supersedes == head
            &&& recorded.1 matches CommitActionView::Swap(manifest, expected)
            &&& expected == loaded.version
            &&& manifest.seq == loaded.manifest.seq + 1
            &&& manifest.pages.dom() == loaded.manifest.pages.dom().insert(request.path)
            &&& manifest.tombstones == loaded.manifest.tombstones.remove(request.path)
            &&& manifest.pages[request.path].page_id == page.page_id
            &&& manifest.pages[request.path].title == page.title
            &&& manifest.pages[request.path].supersedes == page.supersedes
            &&& manifest.pages[request.path].seq == loaded.manifest.seq + 1
            &&& manifest.pages[request.path].created_at_ms == request.now_ms
            &&& manifest.pages[request.path].writer_id == request.writer_id
            &&& swapped.1 matches CommitActionView::Finish(Ok(outcome))
            &&& outcome.manifest_seq == loaded.manifest.seq + 1
            &&& outcome.page_id == id
            &&& outcome.supersedes == head
            &&& outcome.attempts == attempt
            &&& outcome.page_object_created == created
            &&& swapped.0.phase is Finished
        }),
{
}

/// Whatever a commit does, it does for the request it was started with: a page that is
/// stored has the path, the title and the body of the request and the id that was derived; a
/// record that is stored has its path and its writer; a manifest is replaced only after both
/// were stored; and a commit succeeds only with an accepted replacement.
pub proof fn law_a_commit_serves_its_request(run: CommitView, event: CommitEventView)
    ensures
        ({
            let next = commit_on(run, event);
            &&& next.0.request == run.request
            &&& next.0.retry == run.retry
            &&& next.0.schema == run.schema
            &&& next.1 matches CommitActionView::StorePage(page) ==> {
                &&& run.phase matches CommitPhaseView::Deriving(loaded)
                &&& event matches CommitEventView::Derived(id)
                &&& page.page_id == id
                &&& page.path == run.request.path
                &&& page.title == run.request.title
                &&& page.body == run.request.body
                &&& page.supersedes == current_at(loaded.manifest, run.request.path)
            }
            &&& next.1 matches CommitActionView::StoreWal(entry) ==> {
                &&& run.phase matches CommitPhaseView::StoringPage(loaded, id)
                &&& event matches CommitEventView::PageStored(Ok(_))
                &&& entry.page_id == id
                &&& entry.path == run.request.path
                &&& entry.writer_id == run.request.writer_id
                &&& entry.schema == run.schema
                &&& entry.supersedes == current_at(loaded.manifest, run.request.path)
            }
            &&& next.1 matches CommitActionView::Swap(manifest, expected) ==> {
                &&& run.phase matches CommitPhaseView::StoringWal(loaded, id, _)
                &&& event matches CommitEventView::WalStored(Ok(_))
                &&& expected == loaded.version
                &&& manifest.pages[run.request.path].page_id == id
                &&& manifest.pages[run.request.path].title == run.request.title
            }
            &&& next.1 matches CommitActionView::Finish(Ok(_)) ==> event
                matches CommitEventView::Swapped(Ok(_)) && run.phase is Swapping
        }),
{
}

/// A commit that fails answers with the error that it met: of the read, of the page, of the
/// record, or of the replacement where that was not lost to another writer.
pub proof fn law_a_failed_commit_says_why(run: CommitView, error: ErrorView)
    ensures
        run.phase is Loading ==> commit_on(run, CommitEventView::Loaded(Err(error))).1
            == CommitActionView::Finish(Err(error)),
        run.phase is StoringPage ==> commit_on(run, CommitEventView::PageStored(Err(error))).1
            == CommitActionView::Finish(Err(error)),
        run.phase is StoringWal ==> commit_on(run, CommitEventView::WalStored(Err(error))).1
            == CommitActionView::Finish(Err(error)),
        run.phase is Swapping && !(error is Precondition) && !(error is AlreadyExists)
            ==> commit_on(run, CommitEventView::Swapped(Err(error))).1 == CommitActionView::Finish(
            Err(error),
        ),
        run.phase is Swapping && (error is Precondition || error is AlreadyExists) && run.attempt
            >= run.retry.max_attempts ==> commit_on(run, CommitEventView::Swapped(Err(error))).1
            == CommitActionView::Finish(Err(ErrorView::Conflict(run.attempt))),
{
}

// ---- Races --------------------------------------------------------------------------------

/// After a lost race an operation gives up with its last attempt, and otherwise waits for as
/// many base delays as it has made attempts; without a delay it goes on at once.
pub proof fn law_the_backoff_grows_with_the_attempts(
    policy: RetryPolicy,
    attempt: nat,
    error: ErrorView,
)
    requires
        error is Precondition || error is AlreadyExists,
        attempt > 0,
    ensures
        attempt >= policy.max_attempts ==> settled(policy, attempt, Err(error))
            == SettledView::GiveUp,
        attempt < policy.max_attempts && policy.base_delay_ns == 0 ==> settled(
            policy,
            attempt,
            Err(error),
        ) == SettledView::Again,
        attempt < policy.max_attempts && policy.base_delay_ns > 0 ==> settled(
            policy,
            attempt,
            Err(error),
        ) == SettledView::After(policy.base_delay_ns as nat * attempt),
        lost_race(policy, attempt) is GiveUp <==> attempt >= policy.max_attempts,
        lost_race(policy, attempt) is Again <==> attempt < policy.max_attempts
            && policy.base_delay_ns == 0,
{
}

/// A reply that is no lost race is final: an accepted write is won, and another error is
/// handed on.
pub proof fn law_other_replies_are_final(
    policy: RetryPolicy,
    attempt: nat,
    version: VersionView,
    error: ErrorView,
)
    requires
        !(error is Precondition),
        !(error is AlreadyExists),
    ensures
        settled(policy, attempt, Ok(version)) == SettledView::Won(version),
        settled(policy, attempt, Err(error)) == SettledView::Failed(error),
{
}

// ---- Deletions ----------------------------------------------------------------------------

/// A deletion of a path that is not deleted replaces the manifest that was read by one in
/// which the path is no longer current and has a tombstone with the clock and the writer of
/// the deletion and the version that was current, and answers with that version.
pub proof fn law_the_course_of_a_deletion(
    start: DeleteView,
    loaded: LoadedView,
    version: VersionView,
)
    requires
        start.phase is Loading,
        loaded.manifest.seq < u64::MAX,
        !loaded.manifest.tombstones.dom().contains(start.path),
    ensures
        ({
            let head = current_at(loaded.manifest, start.path);
            let read = delete_on(start, DeleteEventView::Loaded(Ok(loaded)));
            let swapped = delete_on(read.0, DeleteEventView::Swapped(Ok(version)));
            &&& read.1 matches DeleteActionView::Swap(manifest, expected)
            &&& expected == loaded.version
            &&& manifest.seq == loaded.manifest.seq + 1
            &&& manifest.pages == loaded.manifest.pages.remove(start.path)
            &&& manifest.tombstones.dom() == loaded.manifest.tombstones.dom().insert(start.path)
            &&& forall|path: Seq<char>|
                path != start.path && #[trigger] loaded.manifest.tombstones.dom().contains(path)
                    ==> manifest.tombstones[path] == loaded.manifest.tombstones[path]
            &&& manifest.tombstones[start.path].seq == loaded.manifest.seq + 1
            &&& manifest.tombstones[start.path].deleted_at_ms == start.now_ms
            &&& manifest.tombstones[start.path].writer_id == start.writer_id
            &&& manifest.tombstones[start.path].last_page_id == head
            &&& swapped.1 matches DeleteActionView::Finish(Ok(outcome))
            &&& outcome.manifest_seq == loaded.manifest.seq + 1
            &&& outcome.removed == head
            &&& !outcome.already_deleted
            &&& outcome.attempts == start.attempt
        }),
{
}

/// A deletion of a path that is deleted writes nothing, whatever stands in the manifest, and
/// says so.
pub proof fn law_a_deleted_path_is_left_alone(start: DeleteView, loaded: LoadedView)
    requires
        start.phase is Loading,
        loaded.manifest.tombstones.dom().contains(start.path),
    ensures
        delete_on(start, DeleteEventView::Loaded(Ok(loaded))).1 matches DeleteActionView::Finish(
            Ok(outcome),
        ) && outcome.already_deleted && outcome.removed is None && outcome.manifest_seq
            == loaded.manifest.seq && outcome.attempts == start.attempt,
{
}

/// A deletion that lost a race starts over with the next attempt, and gives up with its
/// last; any other error ends it.
pub proof fn law_a_lost_deletion_starts_over(run: DeleteView, error: ErrorView)
    requires
        run.phase is Swapping,
        run.attempt > 0,
    ensures
        ({
            let next = delete_on(run, DeleteEventView::Swapped(Err(error)));
            let raced = error is Precondition || error is AlreadyExists;
            &&& !raced ==> next.1 == DeleteActionView::Finish(Err(error))
            &&& raced && run.attempt >= run.retry.max_attempts ==> next.1
                == DeleteActionView::Finish(Err(ErrorView::Conflict(run.attempt)))
            &&& raced && run.attempt < run.retry.max_attempts && run.retry.base_delay_ns == 0
                ==> next.1 is Load && next.0 == (DeleteView {
                attempt: run.attempt + 1,
                phase: DeletePhaseView::Loading,
                ..run
            })
            &&& raced && run.attempt < run.retry.max_attempts && run.retry.base_delay_ns > 0 ==> {
                let after = delete_on(next.0, DeleteEventView::Waited);
                &&& next.1 == DeleteActionView::Wait(run.retry.base_delay_ns as nat * run.attempt)
                &&& after.1 is Load
                &&& after.0 == (DeleteView {
                    attempt: run.attempt + 1,
                    phase: DeletePhaseView::Loading,
                    ..run
                })
            }
        }),
{
}

} // verus!
