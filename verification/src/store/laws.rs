//! What holds of a project over several commits.

use vstd::prelude::*;

use crate::s3_stub::laws::{
    after_requests, law_an_etag_wins_once, law_conditional_write_replaces_what_was_read, numbered,
};
use crate::s3_stub::options::{Fault, RequestView};
use crate::s3_stub::state::{after_put, put_decision, put_response, Bucket};
use crate::store::commit::{
    commit_on, committed, CommitActionView, CommitEventView, CommitPhaseView, CommitRequestView,
    CommitView, LoadedView,
};
use crate::store::delete::{
    delete_on, deleted, DeleteActionView, DeleteEventView, DeleteView,
};
use crate::store::lease::{renewed_by, GuardView};
use crate::store::probe::WriteView;
use crate::store::records::{LeaseView, ManifestView};
use crate::store::retry::lost;
use crate::store::version::{ErrorView, VersionView};
use crate::trim::{trimmed, without_start, CharClass};

verus! {

/// One change of a manifest.
pub enum Change {
    /// A commit, with the id of the version it commits.
    Commit(CommitRequestView, Seq<char>),
    /// A deletion.
    Delete(DeleteView),
}

/// The path that a change touches.
pub open spec fn changed_path(change: Change) -> Seq<char> {
    match change {
        Change::Commit(request, _) => request.path,
        Change::Delete(run) => run.path,
    }
}

/// The manifest after a change.
pub open spec fn after_change(base: ManifestView, change: Change) -> ManifestView {
    match change {
        Change::Commit(request, page_id) => committed(request, base, page_id),
        Change::Delete(run) => deleted(run, base),
    }
}

/// The manifest after a list of changes.
pub open spec fn after_changes(base: ManifestView, changes: Seq<Change>) -> ManifestView
    decreases changes.len(),
{
    if changes.len() == 0 {
        base
    } else {
        after_change(after_changes(base, changes.drop_last()), changes.last())
    }
}

/// A change touches its own path and no other, uses up exactly one number, and
/// leaves no path both current and deleted.
pub proof fn law_a_change_touches_its_own_path(base: ManifestView, change: Change, other: Seq<char>)
    requires
        base.seq < u64::MAX,
        other != changed_path(change),
    ensures
        ({
            let next = after_change(base, change);
            &&& next.seq == base.seq + 1
            &&& next.pages.dom().contains(other) == base.pages.dom().contains(other)
            &&& base.pages.dom().contains(other) ==> next.pages[other] == base.pages[other]
            &&& next.tombstones.dom().contains(other) == base.tombstones.dom().contains(other)
            &&& base.tombstones.dom().contains(other) ==> next.tombstones[other]
                == base.tombstones[other]
            &&& base.consistent() ==> next.consistent()
        }),
{
    let next = after_change(base, change);
    if base.consistent() {
        assert(next.pages.dom().disjoint(next.tombstones.dom()));
    }
}

/// A commit makes its version the current one, brings a deleted path back, and
/// links it to the version that was current.
pub proof fn law_a_commit_supersedes_the_head(
    base: ManifestView,
    request: CommitRequestView,
    page_id: Seq<char>,
)
    requires
        base.seq < u64::MAX,
    ensures
        ({
            let next = committed(request, base, page_id);
            &&& next.head_page_id(request.path) == Some(page_id)
            &&& next.pages[request.path].supersedes == base.head_page_id(request.path)
            &&& next.pages[request.path].seq == next.seq
            &&& !next.tombstones.dom().contains(request.path)
        }),
{
}

/// A deletion takes the path out of the current ones and remembers the version that
/// was removed. Deleting once more ends without a write and without a new number.
pub proof fn law_a_deletion_stays(
    base: ManifestView,
    run: DeleteView,
    again: DeleteView,
    version: Option<VersionView>,
)
    requires
        base.seq < u64::MAX,
        again.phase is Loading,
        again.path == run.path,
    ensures
        ({
            let next = deleted(run, base);
            let end = delete_on(
                again,
                DeleteEventView::Loaded(Ok(LoadedView { manifest: next, version })),
            );
            &&& next.head_page_id(run.path) is None
            &&& next.tombstones[run.path].last_page_id == base.head_page_id(run.path)
            &&& end.1 matches DeleteActionView::Finish(result) && (result matches Ok(outcome)
                && outcome.already_deleted && outcome.manifest_seq == next.seq && outcome.removed
                is None)
        }),
{
}

/// Every change uses up exactly one number: after `n` changes the number of the
/// last commit has grown by `n`.
pub proof fn law_no_change_is_lost(base: ManifestView, changes: Seq<Change>)
    requires
        base.seq + changes.len() <= u64::MAX,
    ensures
        after_changes(base, changes).seq == base.seq + changes.len(),
    decreases changes.len(),
{
    if changes.len() > 0 {
        law_no_change_is_lost(base, changes.drop_last());
    }
}

/// A path that later changes do not touch stays as it was.
pub proof fn law_untouched_paths_stay(base: ManifestView, changes: Seq<Change>, path: Seq<char>)
    requires
        forall|i: int| 0 <= i < changes.len() ==> changed_path(#[trigger] changes[i]) != path,
    ensures
        after_changes(base, changes).head_page_id(path) == base.head_page_id(path),
        base.pages.dom().contains(path) ==> after_changes(base, changes).pages[path]
            == base.pages[path],
        after_changes(base, changes).tombstones.dom().contains(path)
            == base.tombstones.dom().contains(path),
    decreases changes.len(),
{
    if changes.len() > 0 {
        let shorter = changes.drop_last();
        assert forall|i: int| 0 <= i < shorter.len() implies changed_path(#[trigger] shorter[i])
            != path by {
            assert(shorter[i] == changes[i]);
        }
        law_untouched_paths_stay(base, shorter, path);
        assert(changed_path(changes[changes.len() - 1]) != path);
    }
}

/// The versions of `path` that the changes commit, in order.
pub open spec fn versions_of(changes: Seq<Change>, path: Seq<char>) -> Seq<Seq<char>>
    decreases changes.len(),
{
    if changes.len() == 0 {
        Seq::empty()
    } else {
        let before = versions_of(changes.drop_last(), path);
        match changes.last() {
            Change::Commit(request, page_id) => if request.path == path {
                before.push(page_id)
            } else {
                before
            },
            Change::Delete(_) => before,
        }
    }
}

/// Whether none of the changes deletes `path`.
pub open spec fn never_deleted(changes: Seq<Change>, path: Seq<char>) -> bool {
    forall|i: int|
        0 <= i < changes.len() ==> ((#[trigger] changes[i]) matches Change::Delete(run)
            ==> run.path != path)
}

/// Whatever machines commit in between, the current version of a path is the last
/// one that was committed to it, and each commit supersedes the one before it: the
/// chain holds every version.
pub proof fn law_every_version_is_in_the_chain(
    base: ManifestView,
    changes: Seq<Change>,
    path: Seq<char>,
)
    requires
        base.seq + changes.len() <= u64::MAX,
        base.head_page_id(path) is None,
        never_deleted(changes, path),
    ensures
        ({
            let versions = versions_of(changes, path);
            let last = after_changes(base, changes);
            &&& last.head_page_id(path) == (if versions.len() == 0 {
                None
            } else {
                Some(versions.last())
            })
            &&& versions.len() > 0 ==> last.pages[path].supersedes == (if versions.len() == 1 {
                None
            } else {
                Some(versions[versions.len() - 2])
            })
        }),
    decreases changes.len(),
{
    if changes.len() > 0 {
        let shorter = changes.drop_last();
        assert forall|i: int| 0 <= i < shorter.len() implies ((
        #[trigger] shorter[i]) matches Change::Delete(run) ==> run.path != path) by {
            assert(shorter[i] == changes[i]);
        }
        law_every_version_is_in_the_chain(base, shorter, path);
        assert(changes[changes.len() - 1] == changes.last());
    }
}

/// A commit replaces the manifest only after its version and its write-ahead record
/// are stored, and only with the change of the manifest that it read, bound to the
/// version it was read at.
pub proof fn law_the_manifest_is_swapped_last(run: CommitView, event: CommitEventView)
    ensures
        commit_on(run, event).1 matches CommitActionView::Swap(next, expected) ==> (
        run.phase matches CommitPhaseView::StoringWal(loaded, page_id, _) && event
            matches CommitEventView::WalStored(reply) && reply is Ok && next == committed(
            run.request,
            loaded.manifest,
            page_id,
        ) && expected == loaded.version),
        run.phase is StoringWal ==> !(commit_on(run, event).1 is StorePage),
        commit_on(run, event).0.phase is StoringWal && !(run.phase is StoringWal) ==> (
        run.phase is StoringPage && (event matches CommitEventView::PageStored(reply) && reply
            is Ok)),
{
}

/// A commit that loses a race reads the manifest again and derives its version
/// anew, until its attempts are used up; then it reports the conflict.
pub proof fn law_a_lost_race_is_fought_again(run: CommitView, reply: WriteView)
    requires
        run.phase is Swapping,
        lost(reply),
        run.attempt > 0,
    ensures
        ({
            let end = commit_on(run, CommitEventView::Swapped(reply));
            if run.attempt >= run.retry.max_attempts {
                end.1 == CommitActionView::Finish(Err(ErrorView::Conflict(run.attempt)))
            } else if end.0.phase is Waiting {
                commit_on(end.0, CommitEventView::Waited).1 == CommitActionView::Load
                    && commit_on(end.0, CommitEventView::Waited).0.attempt == run.attempt + 1
            } else {
                end.1 == CommitActionView::Load && end.0.attempt == run.attempt + 1
            }
        }),
{
}

/// The manifest that a bucket holds under a key; a project that never committed has an empty
/// one. `decode` says which manifest the bytes of an object spell.
pub open spec fn stored_manifest(
    bucket: Bucket,
    key: Seq<char>,
    decode: spec_fn(Seq<u8>) -> ManifestView,
) -> ManifestView {
    if bucket.objects.dom().contains(key) {
        decode(bucket.objects[key].bytes)
    } else {
        ManifestView { seq: 0, pages: Map::empty(), tombstones: Map::empty() }
    }
}

/// Whether this is what a commit loads from a bucket: the manifest and the version it stands
/// at, or an empty one without a version where there is none.
pub open spec fn loaded_from(
    bucket: Bucket,
    key: Seq<char>,
    decode: spec_fn(Seq<u8>) -> ManifestView,
    loaded: LoadedView,
) -> bool {
    &&& loaded.manifest == stored_manifest(bucket, key, decode)
    &&& if bucket.objects.dom().contains(key) {
        loaded.version matches Some(version) && version.etag == Some(bucket.objects[key].etag)
    } else {
        loaded.version is None
    }
}

/// The precondition under which a manifest is replaced: it still has the version it was
/// loaded at.
pub open spec fn must_match(loaded: LoadedView) -> Option<Seq<char>> {
    match loaded.version {
        Some(version) => version.etag,
        None => None,
    }
}

/// The precondition under which a manifest is created: there is none.
pub open spec fn must_be_new(loaded: LoadedView) -> Option<Seq<char>> {
    match loaded.version {
        Some(_) => None,
        None => Some("*"@),
    }
}

/// A commit that the bucket accepts changes the manifest that the bucket holds at
/// that moment, not merely the one that was read, the first commit of a project among them:
/// whatever other requests were served in between, the stored manifest becomes the change of
/// the stored one. `decode` says which manifest the bytes of an object spell.
pub proof fn law_an_accepted_commit_changes_the_stored_manifest(
    bucket: Bucket,
    requests: Seq<(RequestView, nat)>,
    key: Seq<char>,
    decode: spec_fn(Seq<u8>) -> ManifestView,
    run: CommitView,
    loaded: LoadedView,
    page_id: Seq<char>,
    created: bool,
    body: Seq<u8>,
    now: nat,
)
    requires
        numbered(bucket),
        !bucket.options.faults.contains(Fault::IgnoreIfMatch),
        run.phase == CommitPhaseView::StoringWal(loaded, page_id, created),
        loaded_from(bucket, key, decode, loaded),
        put_decision(
            after_requests(bucket, requests),
            key,
            must_match(loaded),
            must_be_new(loaded),
        ) is Accepted,
        commit_on(run, CommitEventView::WalStored(Ok(true))).1 matches CommitActionView::Swap(
            next,
            _,
        ) && decode(body) == next,
    ensures
        ({
            let before = after_requests(bucket, requests);
            let after = after_put(
                before,
                key,
                must_match(loaded),
                must_be_new(loaded),
                body,
                now,
            );
            stored_manifest(after, key, decode) == after_change(
                stored_manifest(before, key, decode),
                Change::Commit(run.request, page_id),
            )
        }),
{
    if bucket.objects.dom().contains(key) {
        law_conditional_write_replaces_what_was_read(bucket, requests, key, None);
    } else {
        reveal_strlit("*");
        assert(without_start("*"@, CharClass::Space) == "*"@);
        assert(trimmed("*"@, CharClass::Space) == "*"@);
    }
}

/// What a refused write means for the store, by the status of the answer.
pub open spec fn refusal(status: u16) -> Option<ErrorView> {
    if status == 404 {
        Some(ErrorView::NotFound)
    } else if status == 409 {
        Some(ErrorView::AlreadyExists)
    } else if status == 412 {
        Some(ErrorView::Precondition)
    } else {
        None
    }
}

/// Once another machine has taken a lease over, the guard that held it before is told so: its
/// renewal is refused, whatever was served in between, changes nothing in the bucket, and
/// leaves the guard as it was, with the word that the lease is lost.
pub proof fn law_a_lost_lease_is_not_renewed(
    bucket: Bucket,
    guard: GuardView,
    takeover: Seq<u8>,
    taken_at: nat,
    requests: Seq<(RequestView, nat)>,
    next: LeaseView,
    renewal: Seq<u8>,
    now: nat,
)
    requires
        numbered(bucket),
        !bucket.options.faults.contains(Fault::IgnoreIfMatch),
        bucket.objects.dom().contains(guard.key),
        guard.version.etag == Some(bucket.objects[guard.key].etag),
        put_decision(bucket, guard.key, guard.version.etag, None) is Accepted,
    ensures
        ({
            let taken = after_put(
                bucket,
                guard.key,
                guard.version.etag,
                None,
                takeover,
                taken_at,
            );
            let later = after_requests(taken, requests);
            let answer = put_response(later, guard.key, guard.version.etag, None, renewal, now);
            &&& after_put(later, guard.key, guard.version.etag, None, renewal, now) == later
            &&& refusal(answer.status) matches Some(error) && renewed_by(
                guard,
                next,
                WriteView::Err(error),
            ) == (Ok::<bool, ErrorView>(false), guard)
        }),
{
    law_an_etag_wins_once(bucket, guard.key, takeover, taken_at, requests, None);
}

} // verus!
