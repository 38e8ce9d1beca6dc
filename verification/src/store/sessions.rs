//! What ingests, handoffs, leases and publications do from their start to their end.

use vstd::prelude::*;

use crate::numbers::decimal;
use crate::store::catalog::{
    catalog_on, generation_mismatch, has_hash, CatalogActionView, CatalogEventView,
    CatalogGoalView, CatalogOutcomeView, CatalogPhaseView, CatalogRunView, LoadedCatalogView,
};
use crate::store::digest::activity_ms;
use crate::store::handoff::{
    handoff_on, note_keys, same_note, HandoffActionView, HandoffEventView, HandoffGoal,
    HandoffPhaseView, HandoffRunView,
};
use crate::store::history::{
    broken_link, endless_history, is_history, link_failure, wrong_version, Asked,
};
use crate::store::lease::{
    lease_on, renewed_by, GuardView, LeaseActionView, LeaseEventView, LeasePhaseView, LeaseRunView,
};
use crate::store::records::{
    handoff_state, CatalogHeadView, CatalogView, HandoffView, LeaseView, ObservationView,
    SegmentView, SessionHeadView, SplitEntryView, WalEntryView,
};
use crate::store::session::{
    chain_observations, chain_step, first_seen, has_observation, ingest_on,
    law_every_observation_is_seen_once, session_of, ChainStep, IngestActionView, IngestEventView,
    IngestPhaseView, IngestView,
};
use crate::store::version::{ErrorView, HandoffState, VersionView};
use crate::text::{has_prefix, has_suffix};

verus! {

// ---- Ingests ------------------------------------------------------------------------------

/// The first batch of a session becomes a segment without a predecessor, with the
/// observations as they came back from the scrubber, and its head says one generation and as
/// many observations as there are.
pub proof fn law_the_course_of_a_first_ingest(
    start: IngestView,
    scrubbed: Seq<ObservationView>,
    id: Seq<char>,
    stored: bool,
    version: VersionView,
)
    requires
        start.phase is Scrubbing,
        scrubbed.len() <= u64::MAX,
    ensures
        ({
            let clean = ingest_on(start, IngestEventView::Scrubbed(scrubbed));
            let read = ingest_on(clean.0, IngestEventView::Loaded(Ok(None)));
            let derived = ingest_on(read.0, IngestEventView::Derived(id));
            let kept = ingest_on(derived.0, IngestEventView::Stored(Ok(stored)));
            let swapped = ingest_on(kept.0, IngestEventView::Swapped(Ok(version)));
            &&& clean.1 is Load
            &&& read.1 matches IngestActionView::Derive(named)
            &&& derived.1 matches IngestActionView::Store(segment)
            &&& named == segment
            &&& segment.schema == start.schema
            &&& segment.session_id == start.session_id
            &&& segment.prev is None
            &&& segment.observations == scrubbed
            &&& kept.1 matches IngestActionView::Swap(head, expected)
            &&& expected is None
            &&& head.schema == start.schema
            &&& head.session_id == start.session_id
            &&& head.generation == 1
            &&& head.segment_id == id
            &&& head.count == scrubbed.len()
            &&& head.updated_at_ms == start.now_ms
            &&& swapped.1 matches IngestActionView::Finish(Ok(outcome))
            &&& outcome.segment_id == id
            &&& outcome.generation == 1
            &&& outcome.count == scrubbed.len()
            &&& outcome.accepted == scrubbed.len()
            &&& !outcome.already_present
            &&& outcome.attempts == start.attempt
        }),
{
}

/// A later batch becomes a segment behind the one that the head names, unless that one holds
/// the same observations; the head then counts one generation more and the new observations
/// in, and replaces the head that was read.
pub proof fn law_the_course_of_a_later_ingest(
    start: IngestView,
    scrubbed: Seq<ObservationView>,
    found: SessionHeadView,
    at: VersionView,
    last: SegmentView,
    id: Seq<char>,
    stored: bool,
    version: VersionView,
)
    requires
        start.phase is Scrubbing,
        found.generation < u64::MAX,
        found.count + scrubbed.len() <= u64::MAX,
    ensures
        ({
            let clean = ingest_on(start, IngestEventView::Scrubbed(scrubbed));
            let loaded = ingest_on(clean.0, IngestEventView::Loaded(Ok(Some((found, at)))));
            let read = ingest_on(loaded.0, IngestEventView::Read(Ok(last)));
            let derived = ingest_on(read.0, IngestEventView::Derived(id));
            let kept = ingest_on(derived.0, IngestEventView::Stored(Ok(stored)));
            let swapped = ingest_on(kept.0, IngestEventView::Swapped(Ok(version)));
            &&& loaded.1 == IngestActionView::Read(found.segment_id)
            &&& last.observations == scrubbed ==> {
                &&& read.1 matches IngestActionView::Finish(Ok(outcome))
                &&& outcome.already_present
                &&& outcome.accepted == 0
                &&& outcome.segment_id.len() == 0
                &&& outcome.generation == found.generation
                &&& outcome.count == found.count
                &&& outcome.attempts == start.attempt
            }
            &&& last.observations != scrubbed ==> {
                &&& read.1 matches IngestActionView::Derive(named)
                &&& derived.1 matches IngestActionView::Store(segment)
                &&& named == segment
                &&& segment.schema == start.schema
                &&& segment.session_id == start.session_id
                &&& segment.prev == Some(found.segment_id)
                &&& segment.observations == scrubbed
                &&& kept.1 matches IngestActionView::Swap(head, expected)
                &&& expected == Some(at)
                &&& head.schema == start.schema
                &&& head.session_id == start.session_id
                &&& head.generation == found.generation + 1
                &&& head.segment_id == id
                &&& head.count == found.count + scrubbed.len()
                &&& head.updated_at_ms == start.now_ms
                &&& swapped.1 matches IngestActionView::Finish(Ok(outcome))
                &&& outcome.segment_id == id
                &&& outcome.generation == found.generation + 1
                &&& outcome.count == found.count + scrubbed.len()
                &&& outcome.accepted == scrubbed.len()
                &&& !outcome.already_present
                &&& outcome.attempts == start.attempt
            }
        }),
{
}

/// An ingest that fails says why, and one that lost a race reads the head again with the
/// next attempt or gives up with its last.
pub proof fn law_a_failed_ingest_says_why(run: IngestView, error: ErrorView)
    requires
        run.attempt > 0,
    ensures
        run.phase is Loading ==> ingest_on(run, IngestEventView::Loaded(Err(error))).1
            == IngestActionView::Finish(Err(error)),
        run.phase is Checking ==> ingest_on(run, IngestEventView::Read(Err(error))).1
            == IngestActionView::Finish(Err(error)),
        run.phase is Storing ==> ingest_on(run, IngestEventView::Stored(Err(error))).1
            == IngestActionView::Finish(Err(error)),
        run.phase is Swapping ==> {
            let next = ingest_on(run, IngestEventView::Swapped(Err(error)));
            let raced = error is Precondition || error is AlreadyExists;
            &&& !raced ==> next.1 == IngestActionView::Finish(Err(error))
            &&& raced && run.attempt >= run.retry.max_attempts ==> next.1
                == IngestActionView::Finish(Err(ErrorView::Conflict(run.attempt)))
            &&& raced && run.attempt < run.retry.max_attempts && run.retry.base_delay_ns == 0
                ==> next.1 is Load && next.0 == (IngestView {
                attempt: run.attempt + 1,
                phase: IngestPhaseView::Loading,
                ..run
            })
            &&& raced && run.attempt < run.retry.max_attempts && run.retry.base_delay_ns > 0
                ==> next.1 == IngestActionView::Wait(run.retry.base_delay_ns as nat * run.attempt)
                && ingest_on(next.0, IngestEventView::Waited) == (
                IngestView { attempt: run.attempt + 1, phase: IngestPhaseView::Loading, ..run },
                IngestActionView::Load,
            )
        },
{
}

// ---- Chains -------------------------------------------------------------------------------

/// The observations of a chain are those of its segments, in order.
pub proof fn law_a_chain_is_read_in_order(
    a: Seq<SegmentView>,
    b: Seq<SegmentView>,
    one: SegmentView,
)
    ensures
        chain_observations(a + b) == chain_observations(a) + chain_observations(b),
        chain_observations(seq![one]) == one.observations,
        chain_observations(Seq::<SegmentView>::empty()).len() == 0,
    decreases b.len(),
{
    assert(seq![one].drop_last() =~= Seq::empty());
    reveal_with_fuel(chain_observations, 2);
    assert(chain_observations(seq![one]) =~= one.observations);
    if b.len() == 0 {
        assert(a + b =~= a);
        assert(chain_observations(a) + chain_observations(b) =~= chain_observations(a));
    } else {
        law_a_chain_is_read_in_order(a, b.drop_last(), one);
        assert((a + b).drop_last() =~= a + b.drop_last());
        assert((a + b).last() == b.last());
        assert(chain_observations(a + b) =~= chain_observations(a) + chain_observations(b));
    }
}

/// An observation is kept where its id is new, at the end, and dropped where an earlier one
/// has the same id; nothing else is changed.
pub proof fn law_the_first_of_an_id_is_kept(list: Seq<ObservationView>, o: ObservationView)
    ensures
        (exists|i: int| 0 <= i < list.len() && (#[trigger] list[i]).observation_id
            == o.observation_id) ==> first_seen(list.push(o)) == first_seen(list),
        (forall|i: int| 0 <= i < list.len() ==> (#[trigger] list[i]).observation_id
            != o.observation_id) ==> first_seen(list.push(o)) == first_seen(list).push(o),
        first_seen(Seq::<ObservationView>::empty()).len() == 0,
{
    assert(list.push(o).drop_last() =~= list);
    law_every_observation_is_seen_once(list);
    assert(has_observation(first_seen(list), o.observation_id) <==> has_observation(
        list,
        o.observation_id,
    ));
}

/// A walk along a chain reads the segment that it was led to, up to a hundred thousand of
/// them, and hands the segments out from the oldest to the newest.
pub proof fn law_a_chain_is_walked_to_its_start(
    session_id: Seq<char>,
    newest_first: Seq<SegmentView>,
    id: Seq<char>,
    step: ChainStep,
    end: ChainStep,
)
    requires
        chain_step(session_id, newest_first, Some(id), step),
        chain_step(session_id, newest_first, None, end),
    ensures
        newest_first.len() < 100_000 ==> (step matches ChainStep::Read(next) && next@ == id),
        newest_first.len() >= 100_000 ==> (step matches ChainStep::Failed(error) && error@
            == ErrorView::Corrupt(
            "session "@ + session_id + " chain exceeds "@ + decimal(100_000) + " segments"@,
        )),
        end matches ChainStep::Done(list) && list@.len() == newest_first.len() && forall|i: int|
            0 <= i < list@.len() ==> (#[trigger] list@[i])@ == newest_first[newest_first.len() - 1
                - i],
{
    let list = end->Done_0;
    let seen = crate::store::session::segments_view(list@);
    assert(seen == newest_first.reverse());
    assert(seen.len() == list@.len());
    assert forall|i: int| 0 <= i < list@.len() implies (#[trigger] list@[i])@
        == newest_first[newest_first.len() - 1 - i] by {
        assert(seen[i] == list@[i]@);
    }
}

/// A session is named by the key of its head, and by no other key.
pub proof fn law_a_session_is_named_by_its_head(
    prefix: Seq<char>,
    session: Seq<char>,
    key: Seq<char>,
)
    ensures
        !session.contains('/') ==> session_of(prefix, prefix + "/"@ + session + "/head.json"@)
            == Some(session),
        session_of(prefix, key) matches Some(named) ==> key == prefix + "/"@ + named
            + "/head.json"@ && !named.contains('/'),
{
    reveal_strlit("/");
    reveal_strlit("/head.json");
    let front = prefix + "/"@;
    let whole = prefix + "/"@ + session + "/head.json"@;
    assert(whole.take(front.len() as int) =~= front);
    let rest = whole.skip(front.len() as int);
    assert(rest =~= session + "/head.json"@);
    assert(rest.skip(rest.len() - 10) =~= "/head.json"@);
    assert(rest.take(rest.len() - 10) =~= session);
    if let Some(named) = session_of(prefix, key) {
        let tail = key.skip(front.len() as int);
        assert(key =~= front + tail);
        assert(tail =~= named + "/head.json"@);
        assert(key =~= prefix + "/"@ + named + "/head.json"@);
    }
}

// ---- Handoffs -----------------------------------------------------------------------------

/// A handoff is open until it is claimed, claimed until it is finished, and done after that.
pub proof fn law_the_stages_of_a_handoff(note: HandoffView)
    ensures
        handoff_state(note) == HandoffState::Open <==> note.claimed_by is None
            && note.finished_at_ms is None,
        handoff_state(note) == HandoffState::Claimed <==> note.claimed_by is Some
            && note.finished_at_ms is None,
        handoff_state(note) == HandoffState::Done <==> note.finished_at_ms is Some,
{
}

/// A claim of an open handoff writes the machine and the time into it and leaves all else as
/// it was, in the place of what was read, and answers with what it wrote.
pub proof fn law_the_course_of_a_claim(
    start: HandoffRunView,
    note: HandoffView,
    at: VersionView,
    version: VersionView,
)
    requires
        start.goal == HandoffGoal::Claim,
        start.phase is Reading,
    ensures
        ({
            let read = handoff_on(start, HandoffEventView::Read(Ok((note, at))));
            let swapped = handoff_on(read.0, HandoffEventView::Swapped(Ok(version)));
            let open = note.claimed_by is None && note.finished_at_ms is None;
            &&& open ==> {
                &&& read.1 matches HandoffActionView::Swap(next, expected)
                &&& expected == at
                &&& next.claimed_by == Some(start.machine)
                &&& next.claimed_at_ms == Some(start.now_ms)
                &&& next.finished_at_ms is None
                &&& next.schema == note.schema
                &&& next.id == note.id
                &&& next.title == note.title
                &&& next.body == note.body
                &&& next.created_by == note.created_by
                &&& next.created_at_ms == note.created_at_ms
                &&& swapped.1 == HandoffActionView::Finish(Ok(next))
            }
            &&& !open ==> read.1 == HandoffActionView::Finish(
                Err(
                    ErrorView::HandoffNotOpen(
                        start.id,
                        if note.finished_at_ms is Some {
                            HandoffState::Done
                        } else {
                            HandoffState::Claimed
                        },
                    ),
                ),
            )
        }),
{
}

/// A machine finishes the handoff that it claimed: the time is written into it and all else
/// stays; what another machine claimed, or none, it cannot finish.
pub proof fn law_the_course_of_a_finish(
    start: HandoffRunView,
    note: HandoffView,
    at: VersionView,
    version: VersionView,
)
    requires
        start.goal == HandoffGoal::Finish,
        start.phase is Reading,
    ensures
        ({
            let read = handoff_on(start, HandoffEventView::Read(Ok((note, at))));
            let swapped = handoff_on(read.0, HandoffEventView::Swapped(Ok(version)));
            &&& note.claimed_by == Some(start.machine) ==> {
                &&& read.1 matches HandoffActionView::Swap(next, expected)
                &&& expected == at
                &&& next.finished_at_ms == Some(start.now_ms)
                &&& next.claimed_by == note.claimed_by
                &&& next.claimed_at_ms == note.claimed_at_ms
                &&& next.schema == note.schema
                &&& next.id == note.id
                &&& next.title == note.title
                &&& next.body == note.body
                &&& next.created_by == note.created_by
                &&& next.created_at_ms == note.created_at_ms
                &&& swapped.1 == HandoffActionView::Finish(Ok(next))
            }
            &&& note.claimed_by is Some && note.claimed_by != Some(start.machine) ==> read.1
                == HandoffActionView::Finish(
                Err(ErrorView::HandoffOwnedByAnother(start.id, note.claimed_by->0)),
            )
            &&& note.claimed_by is None ==> read.1 == HandoffActionView::Finish(
                Err(ErrorView::HandoffNotOpen(start.id, handoff_state(note))),
            )
        }),
{
}

/// A claim or a finish that another machine got in the way of reads the handoff again with
/// the next attempt, and gives up with its last; any other error ends it.
pub proof fn law_a_disturbed_handoff_is_read_again(run: HandoffRunView, error: ErrorView)
    requires
        run.phase is Swapping,
    ensures
        ({
            let next = handoff_on(run, HandoffEventView::Swapped(Err(error)));
            let raced = error is Precondition || error is NotFound;
            &&& !raced ==> next.1 == HandoffActionView::Finish(Err(error))
            &&& raced && run.attempt >= run.retry.max_attempts ==> next.1
                == HandoffActionView::Finish(Err(ErrorView::Conflict(run.attempt)))
            &&& raced && run.attempt < run.retry.max_attempts ==> next.1 is Read && next.0 == (
            HandoffRunView { attempt: run.attempt + 1, phase: HandoffPhaseView::Reading, ..run })
        }),
{
}

/// Opening a handoff again is accepted where what was written down is the same; what was
/// done with it since does not matter.
pub proof fn law_a_note_is_the_same_whatever_was_done(a: HandoffView, b: HandoffView)
    ensures
        same_note(a, b) <==> a == (HandoffView {
            claimed_by: a.claimed_by,
            claimed_at_ms: a.claimed_at_ms,
            finished_at_ms: a.finished_at_ms,
            ..b
        }),
{
}

/// The handoffs of a listing are the keys that end in `.json`, in their order.
pub proof fn law_handoffs_are_the_json_keys(
    a: Seq<Seq<char>>,
    b: Seq<Seq<char>>,
    name: Seq<char>,
    key: Seq<char>,
)
    ensures
        note_keys(a + b) == note_keys(a) + note_keys(b),
        note_keys(seq![name + ".json"@]) == seq![name + ".json"@],
        (forall|rest: Seq<char>| key != #[trigger] (rest + ".json"@)) ==> note_keys(
            seq![key],
        ).len() == 0,
    decreases b.len(),
{
    reveal_strlit(".json");
    let whole = name + ".json"@;
    assert(seq![whole].drop_last() =~= Seq::empty());
    assert(whole.skip(whole.len() - 5) =~= ".json"@);
    reveal_with_fuel(note_keys, 2);
    assert(note_keys(seq![whole]) =~= seq![whole]);
    assert(seq![key].drop_last() =~= Seq::empty());
    if has_suffix(key, ".json"@) {
        let rest = key.take(key.len() - 5);
        assert(key =~= rest + ".json"@);
    }
    if b.len() == 0 {
        assert(a + b =~= a);
        assert(note_keys(a) + note_keys(b) =~= note_keys(a));
    } else {
        law_handoffs_are_the_json_keys(a, b.drop_last(), name, key);
        assert((a + b).drop_last() =~= a + b.drop_last());
        assert((a + b).last() == b.last());
        assert(note_keys(a + b) =~= note_keys(a) + note_keys(b));
    }
}

/// A handoff was last touched when it was opened, claimed or finished, whichever is the
/// latest.
pub proof fn law_the_last_touch_of_a_handoff(note: HandoffView)
    ensures
        activity_ms(note) >= note.created_at_ms,
        note.claimed_at_ms matches Some(at) ==> activity_ms(note) >= at,
        note.finished_at_ms matches Some(at) ==> activity_ms(note) >= at,
        activity_ms(note) == note.created_at_ms || Some(activity_ms(note)) == note.claimed_at_ms
            || Some(activity_ms(note)) == note.finished_at_ms,
{
}

// ---- Leases -------------------------------------------------------------------------------

/// A lease that has run out, and one that nobody holds, is taken: the owner, the time and
/// the end are those of the run, and the epoch is one more than that of the lease before.
pub proof fn law_the_course_of_a_lease(
    start: LeaseRunView,
    held: LeaseView,
    at: VersionView,
    version: VersionView,
)
    requires
        start.phase is Reading,
        i64::MIN <= start.now_ms + start.ttl_ms <= i64::MAX,
        held.epoch < u64::MAX,
    ensures
        ({
            let found = lease_on(start, LeaseEventView::Read(Ok((held, at))));
            let won = lease_on(found.0, LeaseEventView::Swapped(Ok(version)));
            let none = lease_on(start, LeaseEventView::Read(Err(ErrorView::NotFound)));
            let first = lease_on(none.0, LeaseEventView::Swapped(Ok(version)));
            &&& start.now_ms < held.expires_at_ms ==> found.1 == LeaseActionView::Finish(Ok(None))
            &&& start.now_ms >= held.expires_at_ms ==> {
                &&& found.1 matches LeaseActionView::Swap(lease, expected)
                &&& expected == Some(at)
                &&& lease.schema == start.schema
                &&& lease.owner == start.owner
                &&& lease.epoch == held.epoch + 1
                &&& lease.acquired_at_ms == start.now_ms
                &&& lease.expires_at_ms == start.now_ms + start.ttl_ms
                &&& won.1 matches LeaseActionView::Finish(Ok(Some(guard)))
                &&& guard.key == start.key
                &&& guard.lease == lease
                &&& guard.version == version
            }
            &&& none.1 matches LeaseActionView::Swap(lease, expected)
            &&& expected is None
            &&& lease.schema == start.schema
            &&& lease.owner == start.owner
            &&& lease.epoch == 1
            &&& lease.acquired_at_ms == start.now_ms
            &&& lease.expires_at_ms == start.now_ms + start.ttl_ms
            &&& first.1 matches LeaseActionView::Finish(Ok(Some(guard)))
            &&& guard.key == start.key
            &&& guard.lease == lease
            &&& guard.version == version
        }),
{
}

/// A lease that is lost to another taker is tried for again, and is not had after the last
/// attempt; any other error ends the run.
pub proof fn law_a_contested_lease_is_tried_again(run: LeaseRunView, error: ErrorView)
    requires
        run.attempt > 0,
    ensures
        run.phase is Reading && !(error is NotFound) ==> lease_on(
            run,
            LeaseEventView::Read(Err(error)),
        ).1 == LeaseActionView::Finish(Err(error)),
        run.phase is Swapping ==> {
            let next = lease_on(run, LeaseEventView::Swapped(Err(error)));
            let raced = error is Precondition || error is AlreadyExists;
            &&& !raced ==> next.1 == LeaseActionView::Finish(Err(error))
            &&& raced && run.attempt >= run.retry.max_attempts ==> next.1
                == LeaseActionView::Finish(Ok(None))
            &&& raced && run.attempt < run.retry.max_attempts && run.retry.base_delay_ns == 0
                ==> next.1 is Read && next.0.attempt == run.attempt + 1 && next.0.phase is Reading
            &&& raced && run.attempt < run.retry.max_attempts && run.retry.base_delay_ns > 0
                ==> next.1 == LeaseActionView::Wait(run.retry.base_delay_ns as nat * run.attempt)
        },
{
}

/// A renewal is held where it was accepted, with the new lease and its version; where it was
/// refused the guard stays as it was and the lease is gone.
pub proof fn law_a_renewal_is_held_where_it_was_accepted(
    guard: GuardView,
    next: LeaseView,
    version: VersionView,
    error: ErrorView,
)
    ensures
        renewed_by(guard, next, Ok(version)).0 == Ok::<bool, ErrorView>(true),
        renewed_by(guard, next, Ok(version)).1.key == guard.key,
        renewed_by(guard, next, Ok(version)).1.lease == next,
        renewed_by(guard, next, Ok(version)).1.version == version,
        renewed_by(guard, next, Err(error)).1 == guard,
        error is Precondition || error is NotFound || error is AlreadyExists ==> renewed_by(
            guard,
            next,
            Err(error),
        ).0 == Ok::<bool, ErrorView>(false),
        !(error is Precondition) && !(error is NotFound) && !(error is AlreadyExists)
            ==> renewed_by(guard, next, Err(error)).0 == Err::<bool, ErrorView>(error),
{
}

// ---- Catalogues ---------------------------------------------------------------------------

/// A publication stores a catalogue of the next generation that holds all splits of the one
/// that was read and the new one behind them, covers at least up to now, and becomes current
/// through a head that names it.
pub proof fn law_the_course_of_a_publication(
    start: CatalogRunView,
    split: SplitEntryView,
    loaded: LoadedCatalogView,
    key: Seq<char>,
    version: VersionView,
)
    requires
        start.goal == CatalogGoalView::Publish(split),
        start.phase is Loading,
        loaded.catalog.generation < u64::MAX,
        forall|i: int|
            0 <= i < loaded.catalog.splits.len() ==> (
            #[trigger] loaded.catalog.splits[i]).content_hash != split.content_hash,
    ensures
        ({
            let base = loaded.catalog;
            let read = catalog_on(start, CatalogEventView::Loaded(Ok(loaded)));
            let stored = catalog_on(read.0, CatalogEventView::Stored(Ok(key)));
            let swapped = catalog_on(stored.0, CatalogEventView::Swapped(Ok(version)));
            &&& read.1 matches CatalogActionView::Store(next)
            &&& next.schema == base.schema
            &&& next.generation == base.generation + 1
            &&& next.splits.len() == base.splits.len() + 1
            &&& next.splits.take(base.splits.len() as int) == base.splits
            &&& next.splits[base.splits.len() as int] == split
            &&& next.covered_until_ms >= base.covered_until_ms
            &&& next.covered_until_ms >= start.now_ms
            &&& next.covered_until_ms == base.covered_until_ms || next.covered_until_ms
                == start.now_ms
            &&& stored.1 matches CatalogActionView::Swap(head, expected)
            &&& expected == loaded.head_version
            &&& head.schema == start.schema
            &&& head.generation == base.generation + 1
            &&& head.catalog_key == key
            &&& head.updated_at_ms == start.now_ms
            &&& swapped.1 == CatalogActionView::Finish(
                Ok(
                    CatalogOutcomeView::Published {
                        generation: (base.generation + 1) as nat,
                        catalog_key: key,
                        attempts: start.attempt,
                        already_present: false,
                    },
                ),
            )
        }),
{
    let base = loaded.catalog;
    let read = catalog_on(start, CatalogEventView::Loaded(Ok(loaded)));
    assert(!has_hash(base.splits, split.content_hash));
    assert(read.1->Store_0.splits.take(base.splits.len() as int) =~= base.splits);
}

/// A split whose content the catalogue has is not published again, and the answer is the
/// generation and the key that are there.
pub proof fn law_known_content_is_not_published_again(
    start: CatalogRunView,
    split: SplitEntryView,
    loaded: LoadedCatalogView,
    i: int,
)
    requires
        start.goal == CatalogGoalView::Publish(split),
        start.phase is Loading,
        0 <= i < loaded.catalog.splits.len(),
        loaded.catalog.splits[i].content_hash == split.content_hash,
    ensures
        catalog_on(start, CatalogEventView::Loaded(Ok(loaded))).1 == CatalogActionView::Finish(
            Ok(
                CatalogOutcomeView::Published {
                    generation: loaded.catalog.generation as nat,
                    catalog_key: match loaded.catalog_key {
                        Some(key) => key,
                        None => Seq::empty(),
                    },
                    attempts: start.attempt,
                    already_present: true,
                },
            ),
        ),
{
    assert(has_hash(loaded.catalog.splits, split.content_hash));
}

/// A replacement stores a catalogue of the next generation with exactly the given splits,
/// and becomes current through a head that names it.
pub proof fn law_the_course_of_a_replacement(
    start: CatalogRunView,
    splits: Seq<SplitEntryView>,
    loaded: LoadedCatalogView,
    key: Seq<char>,
    version: VersionView,
)
    requires
        start.goal == CatalogGoalView::Replace(splits),
        start.phase is Loading,
        loaded.catalog.generation < u64::MAX,
    ensures
        ({
            let base = loaded.catalog;
            let read = catalog_on(start, CatalogEventView::Loaded(Ok(loaded)));
            let stored = catalog_on(read.0, CatalogEventView::Stored(Ok(key)));
            let swapped = catalog_on(stored.0, CatalogEventView::Swapped(Ok(version)));
            &&& read.1 matches CatalogActionView::Store(next)
            &&& next.schema == start.schema
            &&& next.generation == base.generation + 1
            &&& next.splits == splits
            &&& next.covered_until_ms >= base.covered_until_ms
            &&& next.covered_until_ms >= start.now_ms
            &&& next.covered_until_ms == base.covered_until_ms || next.covered_until_ms
                == start.now_ms
            &&& stored.1 matches CatalogActionView::Swap(head, expected)
            &&& expected == loaded.head_version
            &&& head.schema == start.schema
            &&& head.generation == base.generation + 1
            &&& head.catalog_key == key
            &&& head.updated_at_ms == start.now_ms
            &&& swapped.1 == CatalogActionView::Finish(
                Ok(
                    CatalogOutcomeView::Replaced {
                        generation: (base.generation + 1) as nat,
                        catalog_key: key,
                        splits: splits.len(),
                        attempts: start.attempt,
                    },
                ),
            )
        }),
{
}

/// A publication or replacement that fails says why; one that lost a race starts over with
/// the next attempt, and gives up with its last.
pub proof fn law_a_lost_publication_starts_over(run: CatalogRunView, error: ErrorView)
    requires
        run.attempt > 0,
    ensures
        run.phase is Loading ==> catalog_on(run, CatalogEventView::Loaded(Err(error))).1
            == CatalogActionView::Finish(Err(error)),
        run.phase is Storing ==> catalog_on(run, CatalogEventView::Stored(Err(error))).1
            == CatalogActionView::Finish(Err(error)),
        run.phase is Swapping ==> {
            let next = catalog_on(run, CatalogEventView::Swapped(Err(error)));
            let raced = error is Precondition || error is AlreadyExists;
            &&& !raced ==> next.1 == CatalogActionView::Finish(Err(error))
            &&& raced && run.attempt >= run.retry.max_attempts ==> next.1
                == CatalogActionView::Finish(Err(ErrorView::Conflict(run.attempt)))
            &&& raced && run.attempt < run.retry.max_attempts && run.retry.base_delay_ns == 0
                ==> next.1 is Load && next.0 == (CatalogRunView {
                attempt: run.attempt + 1,
                phase: CatalogPhaseView::Loading,
                ..run
            })
            &&& raced && run.attempt < run.retry.max_attempts && run.retry.base_delay_ns > 0
                ==> next.1 == CatalogActionView::Wait(run.retry.base_delay_ns as nat * run.attempt)
        },
{
}

// ---- What is said of damage ---------------------------------------------------------------

/// What is said of a version under the wrong key, of a broken or endless chain, and of a head
/// that disagrees with its catalogue.
pub proof fn law_damage_is_named(
    key: Seq<char>,
    found: Seq<char>,
    expected: Seq<char>,
    path: Seq<char>,
    error: ErrorView,
    head: CatalogHeadView,
    catalog: CatalogView,
)
    ensures
        wrong_version(Asked::ByManifest, key, found, expected) == key + " holds "@ + found
            + " but the manifest names "@ + expected,
        wrong_version(Asked::ByCaller, key, found, expected) == key + " holds "@ + found + " but "@
            + expected + " was requested"@,
        broken_link(key, found, expected) == key + " holds "@ + found + " but the chain expects "@
            + expected,
        endless_history(path) == "supersession chain for "@ + path + " exceeds "@ + decimal(100_000)
            + " links"@,
        error is NotFound ==> link_failure(key, error) == ErrorView::Corrupt(
            key + " is missing from the chain"@,
        ),
        !(error is NotFound) ==> link_failure(key, error) == error,
        generation_mismatch(head, catalog) == "head generation "@ + decimal(head.generation as nat)
            + " but catalog "@ + head.catalog_key + " says "@ + decimal(catalog.generation as nat),
{
}

/// A history goes from the first version of a page to its current one, each superseding the
/// one before.
pub proof fn law_a_history_leads_from_the_first_to_the_current(
    head: Option<Seq<char>>,
    list: Seq<WalEntryView>,
    i: int,
)
    requires
        is_history(head, list),
        0 <= i < list.len(),
    ensures
        head == Some(list[list.len() - 1].page_id),
        i == 0 <==> list[i].supersedes is None,
        i > 0 ==> list[i].supersedes == Some(list[i - 1].page_id),
{
}

} // verus!
