//! Sessions: chains of observation segments, each with its own commit point.

use vstd::prelude::*;

use crate::numbers::{decimal, decimal_text};
use crate::ordered::OrderedMap;
use crate::store::commit::{flag_view, opt_version};
use crate::store::history::{link_failed, link_failure};
use crate::store::probe::{write_view, WriteReply, WriteView};
use crate::store::records::{
    copy_observations, observations_view, same_observations, Observation, ObservationSegment,
    ObservationView, SegmentView, SessionHead, SessionHeadView,
};
use crate::store::retry::{settled, RetryPolicy, Settled, SettledView};
use crate::store::version::{ErrorView, ObjectVersion, StoreError, VersionView};
use crate::text::{
    contains_char, opt_text, same_text, strip_prefix, strip_suffix, texts, without_prefix,
    without_suffix,
};

verus! {

/// Upper bound on how many links a chain may have.
pub const MAX_HISTORY_DEPTH: usize = 100_000;

/// What an ingest did.
#[derive(Debug)]
pub struct IngestOutcome {
    /// Id of the committed segment; empty when the batch was already present.
    pub segment_id: String,
    /// Segments committed after this ingest.
    pub generation: u64,
    /// Observations committed across the chain.
    pub count: u64,
    /// Observations accepted from this batch.
    pub accepted: usize,
    /// True when this exact batch was already committed.
    pub already_present: bool,
    /// Attempts consumed, including retries.
    pub attempts: u32,
}

/// What an `IngestOutcome` says.
pub struct IngestOutcomeView {
    pub segment_id: Seq<char>,
    pub generation: nat,
    pub count: nat,
    pub accepted: nat,
    pub already_present: bool,
    pub attempts: nat,
}

impl View for IngestOutcome {
    type V = IngestOutcomeView;

    open spec fn view(&self) -> IngestOutcomeView {
        IngestOutcomeView {
            segment_id: self.segment_id@,
            generation: self.generation as nat,
            count: self.count as nat,
            accepted: self.accepted as nat,
            already_present: self.already_present,
            attempts: self.attempts as nat,
        }
    }
}

/// The head of a session and the version it was read at.
pub type CurrentHead = Option<(SessionHead, ObjectVersion)>;

/// What a `CurrentHead` says.
pub type CurrentView = Option<(SessionHeadView, VersionView)>;

/// What a `CurrentHead` says.
pub open spec fn current_view(current: CurrentHead) -> CurrentView {
    match current {
        Some(found) => Some((found.0@, found.1@)),
        None => None,
    }
}

/// What the read of a session head amounts to: an absent one is a session that
/// never committed.
pub fn current_head(reply: Result<(SessionHead, ObjectVersion), StoreError>) -> (head: Result<
    CurrentHead,
    StoreError,
>)
    ensures
        match reply {
            Ok(found) => head matches Ok(current) && current_view(current) == Some(
                (found.0@, found.1@),
            ),
            Err(error) => if error@ is NotFound {
                head matches Ok(current) && current is None
            } else {
                head matches Err(e) && e@ == error@
            },
        },
{
    match reply {
        Ok(found) => Ok(Some(found)),
        Err(StoreError::NotFound) => Ok(None),
        Err(error) => Err(error),
    }
}

/// One batch of observations to ingest.
#[derive(Debug)]
pub struct IngestObservationsRequest {
    /// Workspace the session belongs to.
    pub workspace_id: String,
    /// Project the session belongs to.
    pub project_id: String,
    /// Session being captured.
    pub session_id: String,
    /// Machine performing the capture.
    pub writer_id: String,
    /// Observations, in arrival order.
    pub observations: Vec<Observation>,
    /// Commit time in milliseconds.
    pub now_ms: i64,
}

// ---- The course of an ingest -------------------------------------------------------------

/// How far an ingest has come.
#[derive(Debug)]
pub enum IngestPhase {
    /// The observations are being scrubbed.
    Scrubbing,
    /// The head is being read.
    Loading,
    /// The newest segment is being read.
    Checking(SessionHead, ObjectVersion),
    /// The id of the new segment is being derived.
    Deriving(CurrentHead),
    /// The new segment is being stored.
    Storing(CurrentHead, String),
    /// The head is being replaced by this one.
    Swapping(SessionHead),
    /// The backoff after a lost race.
    Waiting,
    /// Nothing more to do.
    Finished,
}

/// What an `IngestPhase` says.
pub enum IngestPhaseView {
    Scrubbing,
    Loading,
    Checking(SessionHeadView, VersionView),
    Deriving(CurrentView),
    Storing(CurrentView, Seq<char>),
    Swapping(SessionHeadView),
    Waiting,
    Finished,
}

impl View for IngestPhase {
    type V = IngestPhaseView;

    open spec fn view(&self) -> IngestPhaseView {
        match *self {
            IngestPhase::Scrubbing => IngestPhaseView::Scrubbing,
            IngestPhase::Loading => IngestPhaseView::Loading,
            IngestPhase::Checking(head, version) => IngestPhaseView::Checking(head@, version@),
            IngestPhase::Deriving(current) => IngestPhaseView::Deriving(current_view(current)),
            IngestPhase::Storing(current, id) => IngestPhaseView::Storing(
                current_view(current),
                id@,
            ),
            IngestPhase::Swapping(head) => IngestPhaseView::Swapping(head@),
            IngestPhase::Waiting => IngestPhaseView::Waiting,
            IngestPhase::Finished => IngestPhaseView::Finished,
        }
    }
}

/// An ingest under way.
#[derive(Debug)]
pub struct IngestRun {
    /// Session being captured.
    pub session_id: String,
    /// Observations: as they came until they are scrubbed, scrubbed from then on.
    pub observations: Vec<Observation>,
    /// Caller-supplied clock.
    pub now_ms: i64,
    /// Schema number of the records.
    pub schema: u32,
    /// How hard to fight for it.
    pub retry: RetryPolicy,
    /// Attempts so far.
    pub attempt: u32,
    /// How far it has come.
    pub phase: IngestPhase,
}

/// What an `IngestRun` says.
pub struct IngestView {
    pub session_id: Seq<char>,
    pub observations: Seq<ObservationView>,
    pub now_ms: i64,
    pub schema: u32,
    pub retry: RetryPolicy,
    pub attempt: nat,
    pub phase: IngestPhaseView,
}

impl View for IngestRun {
    type V = IngestView;

    open spec fn view(&self) -> IngestView {
        IngestView {
            session_id: self.session_id@,
            observations: observations_view(self.observations@),
            now_ms: self.now_ms,
            schema: self.schema,
            retry: self.retry,
            attempt: self.attempt as nat,
            phase: self.phase@,
        }
    }
}

/// What happened.
#[derive(Debug)]
pub enum IngestEvent {
    /// The observations were scrubbed.
    Scrubbed(Vec<Observation>),
    /// The head was read.
    Loaded(Result<CurrentHead, StoreError>),
    /// The newest segment was read.
    Read(Result<ObservationSegment, StoreError>),
    /// The id of the new segment was derived.
    Derived(String),
    /// The new segment was stored.
    Stored(Result<bool, StoreError>),
    /// The backend replied to the replacement of the head.
    Swapped(WriteReply),
    /// The backoff is over.
    Waited,
}

/// What an `IngestEvent` says.
pub enum IngestEventView {
    Scrubbed(Seq<ObservationView>),
    Loaded(Result<CurrentView, ErrorView>),
    Read(Result<SegmentView, ErrorView>),
    Derived(Seq<char>),
    Stored(Result<bool, ErrorView>),
    Swapped(WriteView),
    Waited,
}

impl View for IngestEvent {
    type V = IngestEventView;

    open spec fn view(&self) -> IngestEventView {
        match *self {
            IngestEvent::Scrubbed(list) => IngestEventView::Scrubbed(observations_view(list@)),
            IngestEvent::Loaded(Ok(current)) => IngestEventView::Loaded(Ok(current_view(current))),
            IngestEvent::Loaded(Err(error)) => IngestEventView::Loaded(Err(error@)),
            IngestEvent::Read(Ok(segment)) => IngestEventView::Read(Ok(segment@)),
            IngestEvent::Read(Err(error)) => IngestEventView::Read(Err(error@)),
            IngestEvent::Derived(id) => IngestEventView::Derived(id@),
            IngestEvent::Stored(reply) => IngestEventView::Stored(flag_view(reply)),
            IngestEvent::Swapped(reply) => IngestEventView::Swapped(write_view(reply)),
            IngestEvent::Waited => IngestEventView::Waited,
        }
    }
}

/// What to do next.
#[derive(Debug)]
pub enum IngestAction {
    /// Scrub these observations.
    Scrub(Vec<Observation>),
    /// Read the head.
    Load,
    /// Read the segment with this id.
    Read(String),
    /// Derive the id of this segment.
    Derive(ObservationSegment),
    /// Store this segment, unless the same one is there.
    Store(ObservationSegment),
    /// Replace the head if it still has this version; create it where there is
    /// none.
    Swap(SessionHead, Option<ObjectVersion>),
    /// Wait so many nanoseconds.
    Wait(u128),
    /// The ingest is over.
    Finish(Result<IngestOutcome, StoreError>),
}

/// What an `IngestAction` says.
pub enum IngestActionView {
    Scrub(Seq<ObservationView>),
    Load,
    Read(Seq<char>),
    Derive(SegmentView),
    Store(SegmentView),
    Swap(SessionHeadView, Option<VersionView>),
    Wait(nat),
    Finish(Result<IngestOutcomeView, ErrorView>),
}

impl View for IngestAction {
    type V = IngestActionView;

    open spec fn view(&self) -> IngestActionView {
        match *self {
            IngestAction::Scrub(list) => IngestActionView::Scrub(observations_view(list@)),
            IngestAction::Load => IngestActionView::Load,
            IngestAction::Read(id) => IngestActionView::Read(id@),
            IngestAction::Derive(segment) => IngestActionView::Derive(segment@),
            IngestAction::Store(segment) => IngestActionView::Store(segment@),
            IngestAction::Swap(head, expected) => IngestActionView::Swap(
                head@,
                opt_version(expected),
            ),
            IngestAction::Wait(ns) => IngestActionView::Wait(ns as nat),
            IngestAction::Finish(Ok(outcome)) => IngestActionView::Finish(Ok(outcome@)),
            IngestAction::Finish(Err(error)) => IngestActionView::Finish(Err(error@)),
        }
    }
}

/// The segment that an ingest adds behind `current`.
pub open spec fn new_segment(run: IngestView, current: CurrentView) -> SegmentView {
    SegmentView {
        schema: run.schema,
        session_id: run.session_id,
        prev: match current {
            Some(found) => Some(found.0.segment_id),
            None => None,
        },
        observations: run.observations,
    }
}

/// The head that an ingest puts in the place of `current`.
pub open spec fn new_head(run: IngestView, current: CurrentView, segment_id: Seq<char>) ->
    SessionHeadView {
    SessionHeadView {
        schema: run.schema,
        session_id: run.session_id,
        generation: match current {
            Some(found) => (found.0.generation + 1) as u64,
            None => 1,
        },
        segment_id,
        count: match current {
            Some(found) => (found.0.count + run.observations.len()) as u64,
            None => run.observations.len() as u64,
        },
        updated_at_ms: run.now_ms,
    }
}

/// The version of the head that is to be replaced.
pub open spec fn head_version(current: CurrentView) -> Option<VersionView> {
    match current {
        Some(found) => Some(found.1),
        None => None,
    }
}

/// An ingest that is over.
pub open spec fn ingest_over(
    run: IngestView,
    result: Result<IngestOutcomeView, ErrorView>,
) -> (IngestView, IngestActionView) {
    (
        IngestView { phase: IngestPhaseView::Finished, ..run },
        IngestActionView::Finish(result),
    )
}

/// An ingest that goes on to derive the id of its segment.
pub open spec fn ingest_derives(run: IngestView, current: CurrentView) -> (
    IngestView,
    IngestActionView,
) {
    (
        IngestView { phase: IngestPhaseView::Deriving(current), ..run },
        IngestActionView::Derive(new_segment(run, current)),
    )
}

/// How an ingest goes on. A batch that the chain ends with already is not added
/// again.
pub open spec fn ingest_on(run: IngestView, event: IngestEventView) -> (
    IngestView,
    IngestActionView,
) {
    match (run.phase, event) {
        (IngestPhaseView::Scrubbing, IngestEventView::Scrubbed(scrubbed)) => (
            IngestView { observations: scrubbed, phase: IngestPhaseView::Loading, ..run },
            IngestActionView::Load,
        ),
        (IngestPhaseView::Loading, IngestEventView::Loaded(Ok(current))) => match current {
            Some(found) => (
                IngestView { phase: IngestPhaseView::Checking(found.0, found.1), ..run },
                IngestActionView::Read(found.0.segment_id),
            ),
            None => ingest_derives(run, None),
        },
        (IngestPhaseView::Loading, IngestEventView::Loaded(Err(error))) => ingest_over(
            run,
            Err(error),
        ),
        (
            IngestPhaseView::Checking(head, version),
            IngestEventView::Read(Ok(segment)),
        ) => if segment.observations == run.observations {
            ingest_over(
                run,
                Ok(
                    IngestOutcomeView {
                        segment_id: Seq::empty(),
                        generation: head.generation as nat,
                        count: head.count as nat,
                        accepted: 0,
                        already_present: true,
                        attempts: run.attempt,
                    },
                ),
            )
        } else {
            ingest_derives(run, Some((head, version)))
        },
        (IngestPhaseView::Checking(_, _), IngestEventView::Read(Err(error))) => ingest_over(
            run,
            Err(error),
        ),
        (IngestPhaseView::Deriving(current), IngestEventView::Derived(id)) => (
            IngestView { phase: IngestPhaseView::Storing(current, id), ..run },
            IngestActionView::Store(new_segment(run, current)),
        ),
        (IngestPhaseView::Storing(current, id), IngestEventView::Stored(Ok(_))) => (
            IngestView { phase: IngestPhaseView::Swapping(new_head(run, current, id)), ..run },
            IngestActionView::Swap(new_head(run, current, id), head_version(current)),
        ),
        (IngestPhaseView::Storing(_, _), IngestEventView::Stored(Err(error))) => ingest_over(
            run,
            Err(error),
        ),
        (IngestPhaseView::Swapping(head), IngestEventView::Swapped(reply)) => match settled(
            run.retry,
            run.attempt,
            reply,
        ) {
            SettledView::Won(_) => ingest_over(
                run,
                Ok(
                    IngestOutcomeView {
                        segment_id: head.segment_id,
                        generation: head.generation as nat,
                        count: head.count as nat,
                        accepted: run.observations.len(),
                        already_present: false,
                        attempts: run.attempt,
                    },
                ),
            ),
            SettledView::GiveUp => ingest_over(run, Err(ErrorView::Conflict(run.attempt))),
            SettledView::Failed(error) => ingest_over(run, Err(error)),
            SettledView::Again => (
                IngestView { attempt: run.attempt + 1, phase: IngestPhaseView::Loading, ..run },
                IngestActionView::Load,
            ),
            SettledView::After(ns) => (
                IngestView { phase: IngestPhaseView::Waiting, ..run },
                IngestActionView::Wait(ns),
            ),
        },
        (IngestPhaseView::Waiting, IngestEventView::Waited) => (
            IngestView { attempt: run.attempt + 1, phase: IngestPhaseView::Loading, ..run },
            IngestActionView::Load,
        ),
        _ => (run, IngestActionView::Load),
    }
}

/// Whether there are numbers left for one more segment of `len` observations.
pub open spec fn head_has_room(head: SessionHead, len: nat) -> bool {
    head.generation < u64::MAX && head.count + len <= u64::MAX
}

impl IngestRun {
    /// There are numbers left for the next segment, and attempts left where one is
    /// to follow.
    pub open spec fn wf(&self) -> bool {
        &&& self.attempt > 0
        &&& match self.phase {
            IngestPhase::Checking(head, _) => head_has_room(head, self.observations@.len()),
            IngestPhase::Deriving(Some(found)) => head_has_room(
                found.0,
                self.observations@.len(),
            ),
            IngestPhase::Storing(Some(found), _) => head_has_room(
                found.0,
                self.observations@.len(),
            ),
            IngestPhase::Waiting => self.attempt < self.retry.max_attempts,
            _ => true,
        }
    }

    /// Whether the event is one that the phase waits for: every observation of the batch,
    /// scrubbed, and a head with numbers left.
    pub open spec fn awaits(&self, event: IngestEvent) -> bool {
        match self.phase {
            IngestPhase::Scrubbing => event matches IngestEvent::Scrubbed(list) && list@.len()
                == self.observations@.len(),
            IngestPhase::Loading => event matches IngestEvent::Loaded(reply) && (reply matches Ok(
                current,
            ) ==> (current matches Some(found) ==> head_has_room(
                found.0,
                self.observations@.len(),
            ))),
            IngestPhase::Checking(_, _) => event is Read,
            IngestPhase::Deriving(_) => event is Derived,
            IngestPhase::Storing(_, _) => event is Stored,
            IngestPhase::Swapping(_) => event is Swapped,
            IngestPhase::Waiting => event is Waited,
            IngestPhase::Finished => false,
        }
    }

    /// The start of an ingest: the first thing to do is to scrub the observations,
    /// so that nothing reaches storage as it came.
    pub fn start(request: IngestObservationsRequest, schema: u32, retry: RetryPolicy) -> (next: (
        IngestRun,
        IngestAction,
    ))
        ensures
            next.0.wf(),
            next.0@ == (IngestView {
                session_id: request.session_id@,
                observations: observations_view(request.observations@),
                now_ms: request.now_ms,
                schema,
                retry,
                attempt: 1,
                phase: IngestPhaseView::Scrubbing,
            }),
            next.1@ == IngestActionView::Scrub(observations_view(request.observations@)),
    {
        let run = IngestRun {
            session_id: request.session_id,
            observations: copy_observations(&request.observations),
            now_ms: request.now_ms,
            schema,
            retry,
            attempt: 1,
            phase: IngestPhase::Scrubbing,
        };
        (run, IngestAction::Scrub(request.observations))
    }

    /// The segment that the ingest adds behind `current`.
    fn segment(&self, current: &CurrentHead) -> (segment: ObservationSegment)
        ensures
            segment@ == new_segment(self@, current_view(*current)),
    {
        let prev: Option<String> = match current {
            Some(found) => Some(found.0.segment_id.clone()),
            None => None,
        };
        ObservationSegment {
            schema: self.schema,
            session_id: self.session_id.clone(),
            prev,
            observations: copy_observations(&self.observations),
        }
    }

    /// Takes in what happened and says what to do next.
    pub fn next(self, event: IngestEvent) -> (next: (IngestRun, IngestAction))
        requires
            self.wf(),
            self.awaits(event),
        ensures
            next.0.wf(),
            (next.0@, next.1@) == ingest_on(self@, event@),
    {
        let IngestRun { session_id, observations, now_ms, schema, retry, attempt, phase } = self;
        let mut run = IngestRun {
            session_id,
            observations,
            now_ms,
            schema,
            retry,
            attempt,
            phase: IngestPhase::Finished,
        };
        match (phase, event) {
            (IngestPhase::Scrubbing, IngestEvent::Scrubbed(scrubbed)) => {
                run.observations = scrubbed;
                run.phase = IngestPhase::Loading;
                (run, IngestAction::Load)
            },
            (IngestPhase::Loading, IngestEvent::Loaded(reply)) => match reply {
                Ok(Some((head, version))) => {
                    let id: String = head.segment_id.clone();
                    run.phase = IngestPhase::Checking(head, version);
                    (run, IngestAction::Read(id))
                },
                Ok(None) => {
                    let segment: ObservationSegment = run.segment(&None);
                    run.phase = IngestPhase::Deriving(None);
                    (run, IngestAction::Derive(segment))
                },
                Err(error) => (run, IngestAction::Finish(Err(error))),
            },
            (IngestPhase::Checking(head, version), IngestEvent::Read(reply)) => match reply {
                Ok(last) => {
                    if same_observations(&last.observations, &run.observations) {
                        let outcome = IngestOutcome {
                            segment_id: String::new(),
                            generation: head.generation,
                            count: head.count,
                            accepted: 0,
                            already_present: true,
                            attempts: run.attempt,
                        };
                        return (run, IngestAction::Finish(Ok(outcome)));
                    }
                    let current: CurrentHead = Some((head, version));
                    let segment: ObservationSegment = run.segment(&current);
                    run.phase = IngestPhase::Deriving(current);
                    (run, IngestAction::Derive(segment))
                },
                Err(error) => (run, IngestAction::Finish(Err(error))),
            },
            (IngestPhase::Deriving(current), IngestEvent::Derived(id)) => {
                let segment: ObservationSegment = run.segment(&current);
                run.phase = IngestPhase::Storing(current, id);
                (run, IngestAction::Store(segment))
            },
            (IngestPhase::Storing(current, segment_id), IngestEvent::Stored(reply)) => match reply {
                Ok(_) => {
                    let len: u64 = run.observations.len() as u64;
                    let (generation, count, expected): (u64, u64, Option<ObjectVersion>) =
                        match current {
                        Some((head, version)) => (
                            head.generation + 1,
                            head.count + len,
                            Some(version),
                        ),
                        None => (1, len, None),
                    };
                    let head = SessionHead {
                        schema: run.schema,
                        session_id: run.session_id.clone(),
                        generation,
                        segment_id,
                        count,
                        updated_at_ms: run.now_ms,
                    };
                    run.phase = IngestPhase::Swapping(head.clone());
                    (run, IngestAction::Swap(head, expected))
                },
                Err(error) => (run, IngestAction::Finish(Err(error))),
            },
            (IngestPhase::Swapping(head), IngestEvent::Swapped(reply)) => {
                let outcome: Settled = run.retry.settle(run.attempt, reply);
                match outcome {
                    Settled::Won(_) => {
                        let done = IngestOutcome {
                            segment_id: head.segment_id,
                            generation: head.generation,
                            count: head.count,
                            accepted: run.observations.len(),
                            already_present: false,
                            attempts: run.attempt,
                        };
                        (run, IngestAction::Finish(Ok(done)))
                    },
                    Settled::GiveUp => {
                        let attempts: u32 = run.attempt;
                        (run, IngestAction::Finish(Err(StoreError::Conflict { attempts })))
                    },
                    Settled::Failed(error) => (run, IngestAction::Finish(Err(error))),
                    Settled::Again => {
                        run.attempt = run.attempt + 1;
                        run.phase = IngestPhase::Loading;
                        (run, IngestAction::Load)
                    },
                    Settled::After(ns) => {
                        run.phase = IngestPhase::Waiting;
                        (run, IngestAction::Wait(ns))
                    },
                }
            },
            (IngestPhase::Waiting, IngestEvent::Waited) => {
                run.attempt = run.attempt + 1;
                run.phase = IngestPhase::Loading;
                (run, IngestAction::Load)
            },
            (other, _) => {
                run.phase = other;
                (run, IngestAction::Load)
            },
        }
    }
}

/// An ingest that is replayed right after it won adds nothing: the chain ends with
/// its batch, and the run reports the head it found.
pub proof fn law_a_replayed_ingest_adds_nothing(
    first: IngestView,
    current: CurrentView,
    id: Seq<char>,
    again: IngestView,
    version: VersionView,
)
    requires
        again.phase is Loading,
        again.observations == first.observations,
    ensures
        ({
            let head = new_head(first, current, id);
            let checked = ingest_on(again, IngestEventView::Loaded(Ok(Some((head, version)))));
            let end = ingest_on(
                checked.0,
                IngestEventView::Read(Ok(new_segment(first, current))),
            );
            &&& checked.1 == IngestActionView::Read(id)
            &&& end.1 matches IngestActionView::Finish(result) && (result matches Ok(outcome)
                && outcome.already_present && outcome.accepted == 0 && outcome.generation
                == head.generation && outcome.count == head.count)
        }),
{
}

/// What an ingest stores and commits is what the scrubbing handed back, never what
/// came in.
pub proof fn law_only_scrubbed_observations_are_stored(
    run: IngestView,
    scrubbed: Seq<ObservationView>,
    current: CurrentView,
    id: Seq<char>,
)
    requires
        run.phase is Scrubbing,
    ensures
        ({
            let clean = ingest_on(run, IngestEventView::Scrubbed(scrubbed)).0;
            let storing = IngestView { phase: IngestPhaseView::Deriving(current), ..clean };
            ingest_on(storing, IngestEventView::Derived(id)).1 matches IngestActionView::Store(
                segment,
            ) && segment.observations == scrubbed
        }),
{
}

// ---- Reading a chain ---------------------------------------------------------------------

/// The segment under `key`, when it belongs to the session and its content gives it
/// the id that it stands under.
pub fn checked_segment(
    key: &str,
    session_id: &str,
    segment_id: &str,
    segment: ObservationSegment,
    derived_id: &str,
) -> (checked: Result<ObservationSegment, StoreError>)
    ensures
        match checked {
            Ok(found) => found == segment && segment@.session_id == session_id@ && derived_id@
                == segment_id@,
            Err(error) => if segment@.session_id != session_id@ {
                error@ == ErrorView::Corrupt(
                    key@ + " holds a segment for "@ + segment@.session_id,
                )
            } else {
                derived_id@ != segment_id@ && error@ == ErrorView::Corrupt(
                    key@ + " does not hash to its key"@,
                )
            },
        },
{
    if !same_text(segment.session_id.as_str(), session_id) {
        let mut what: String = key.to_owned();
        what.append(" holds a segment for ");
        what.append(segment.session_id.as_str());
        return Err(StoreError::Corrupt(what));
    }
    if !same_text(derived_id, segment_id) {
        let mut what: String = key.to_owned();
        what.append(" does not hash to its key");
        return Err(StoreError::Corrupt(what));
    }
    Ok(segment)
}

/// What a list of segments says.
pub open spec fn segments_view(list: Seq<ObservationSegment>) -> Seq<SegmentView> {
    Seq::new(list.len(), |i: int| list[i]@)
}

/// The walk along a session's chain, from its newest segment back.
#[derive(Debug)]
pub struct ChainWalk {
    /// Session.
    pub session_id: String,
    /// Segments read so far, the newest first.
    pub newest_first: Vec<ObservationSegment>,
}

/// What a walk along a chain leads to.
#[derive(Debug)]
pub enum ChainStep {
    /// Read the segment with this id.
    Read(String),
    /// The chain is read: its segments with the oldest first.
    Done(Vec<ObservationSegment>),
    /// The chain is broken.
    Failed(StoreError),
}

/// What is told about a chain that does not end.
pub open spec fn endless_chain(session_id: Seq<char>) -> Seq<char> {
    "session "@ + session_id + " chain exceeds "@ + decimal(MAX_HISTORY_DEPTH as nat)
        + " segments"@
}

/// What a step of the walk says: where to go on, or that the walk is over.
pub open spec fn chain_step(
    session_id: Seq<char>,
    newest_first: Seq<SegmentView>,
    cursor: Option<Seq<char>>,
    step: ChainStep,
) -> bool {
    match cursor {
        None => step matches ChainStep::Done(list) && segments_view(list@)
            == newest_first.reverse(),
        Some(id) => if newest_first.len() >= MAX_HISTORY_DEPTH {
            step matches ChainStep::Failed(error) && error@ == ErrorView::Corrupt(
                endless_chain(session_id),
            )
        } else {
            step matches ChainStep::Read(next) && next@ == id
        },
    }
}

/// The list turned around.
fn reversed(list: Vec<ObservationSegment>) -> (turned: Vec<ObservationSegment>)
    ensures
        turned@ == list@.reverse(),
{
    let ghost all = list@;
    let mut left: Vec<ObservationSegment> = list;
    let mut turned: Vec<ObservationSegment> = Vec::new();
    assert(all.take(all.len() as int) =~= all);
    loop
        invariant
            left@ == all.take(left@.len() as int),
            left@.len() + turned@.len() == all.len(),
            forall|i: int| 0 <= i < turned@.len() ==> turned@[i] == all[all.len() - 1 - i],
        ensures
            turned@ == all.reverse(),
        decreases left@.len(),
    {
        match left.pop() {
            Some(item) => {
                assert(left@ =~= all.take(left@.len() as int));
                turned.push(item);
            },
            None => {
                assert(turned@ =~= all.reverse());
                break ;
            },
        }
    }
    turned
}

impl ChainWalk {
    /// The start of a walk, from the head of the session; a session that never
    /// committed has no segments.
    pub fn start(session_id: String, head: Option<SessionHead>) -> (next: (ChainWalk, ChainStep))
        ensures
            next.0.session_id == session_id,
            next.0.newest_first@.len() == 0,
            chain_step(
                session_id@,
                Seq::empty(),
                match head {
                    Some(h) => Some(h@.segment_id),
                    None => None,
                },
                next.1,
            ),
    {
        let empty: Vec<ObservationSegment> = Vec::new();
        let walk = ChainWalk { session_id, newest_first: Vec::new() };
        let step: ChainStep = match head {
            Some(h) => ChainStep::Read(h.segment_id),
            None => {
                assert(segments_view(empty@) =~= Seq::<SegmentView>::empty().reverse());
                ChainStep::Done(empty)
            },
        };
        (walk, step)
    }

    /// Takes in the segment that was read under `key` and says where the walk goes on.
    pub fn next(self, key: &str, reply: Result<ObservationSegment, StoreError>) -> (next: (
        ChainWalk,
        ChainStep,
    ))
        requires
            self.newest_first@.len() < MAX_HISTORY_DEPTH,
        ensures
            next.0.session_id == self.session_id,
            match reply {
                Ok(segment) => chain_step(
                    self.session_id@,
                    segments_view(self.newest_first@).push(segment@),
                    segment@.prev,
                    next.1,
                ) && (next.1 is Read ==> segments_view(next.0.newest_first@) == segments_view(
                    self.newest_first@,
                ).push(segment@)),
                Err(error) => next.1 matches ChainStep::Failed(e) && e@ == link_failure(
                    key@,
                    error@,
                ),
            },
            next.1 is Read ==> next.0.newest_first@.len() < MAX_HISTORY_DEPTH,
    {
        let mut walk: ChainWalk = self;
        match reply {
            Err(error) => (walk, ChainStep::Failed(link_failed(key, error))),
            Ok(segment) => {
                let cursor: Option<String> = match &segment.prev {
                    Some(id) => Some(id.clone()),
                    None => None,
                };
                let ghost before = walk.newest_first@;
                walk.newest_first.push(segment);
                assert(segments_view(walk.newest_first@) =~= segments_view(before).push(segment@));
                match cursor {
                    None => {
                        let ChainWalk { session_id, newest_first } = walk;
                        let ghost all = newest_first@;
                        let list: Vec<ObservationSegment> = reversed(newest_first);
                        assert(segments_view(list@) =~= segments_view(all).reverse());
                        (
                            ChainWalk { session_id, newest_first: Vec::new() },
                            ChainStep::Done(list),
                        )
                    },
                    Some(id) => {
                        if walk.newest_first.len() >= MAX_HISTORY_DEPTH {
                            let mut what: String = "session ".to_owned();
                            what.append(walk.session_id.as_str());
                            what.append(" chain exceeds ");
                            what.append(decimal_text(MAX_HISTORY_DEPTH as u64).as_str());
                            what.append(" segments");
                            (walk, ChainStep::Failed(StoreError::Corrupt(what)))
                        } else {
                            (walk, ChainStep::Read(id))
                        }
                    },
                }
            },
        }
    }
}

// ---- Observations and sessions -----------------------------------------------------------

/// Whether an observation with this id is in the list.
pub open spec fn has_observation(list: Seq<ObservationView>, id: Seq<char>) -> bool {
    exists|i: int| 0 <= i < list.len() && (#[trigger] list[i]).observation_id == id
}

/// The observations without those whose id came before.
pub open spec fn first_seen(list: Seq<ObservationView>) -> Seq<ObservationView>
    decreases list.len(),
{
    if list.len() == 0 {
        Seq::empty()
    } else {
        let before = first_seen(list.drop_last());
        if has_observation(before, list.last().observation_id) {
            before
        } else {
            before.push(list.last())
        }
    }
}

/// The observations of a chain, one segment after the other.
pub open spec fn chain_observations(segments: Seq<SegmentView>) -> Seq<ObservationView>
    decreases segments.len(),
{
    if segments.len() == 0 {
        Seq::empty()
    } else {
        chain_observations(segments.drop_last()) + segments.last().observations
    }
}

/// Every observation of a chain, the oldest first, each id once.
pub fn session_observations(segments: &Vec<ObservationSegment>) -> (list: Vec<Observation>)
    ensures
        observations_view(list@) == first_seen(chain_observations(segments_view(segments@))),
{
    let ghost all = segments_view(segments@);
    let mut seen: OrderedMap<bool> = OrderedMap::new();
    let mut list: Vec<Observation> = Vec::new();
    let mut i: usize = 0;
    assert(all.take(0) =~= Seq::empty());
    assert(observations_view(list@) =~= Seq::empty());
    while i < segments.len()
        invariant
            i <= segments@.len(),
            all == segments_view(segments@),
            seen.wf(),
            observations_view(list@) == first_seen(chain_observations(all.take(i as int))),
            forall|id: Seq<char>| #[trigger]
                seen@.dom().contains(id) <==> has_observation(observations_view(list@), id),
        decreases segments@.len() - i,
    {
        let ghost before = chain_observations(all.take(i as int));
        let ghost batch = all[i as int].observations;
        let batch_list: &Vec<Observation> = &segments[i].observations;
        let mut j: usize = 0;
        assert(before + batch.take(0) =~= before);
        while j < batch_list.len()
            invariant
                j <= batch_list@.len(),
                batch == observations_view(batch_list@),
                seen.wf(),
                observations_view(list@) == first_seen(before + batch.take(j as int)),
                forall|id: Seq<char>| #[trigger]
                    seen@.dom().contains(id) <==> has_observation(observations_view(list@), id),
            decreases batch_list@.len() - j,
        {
            let item: &Observation = &batch_list[j];
            let ghost longer = before + batch.take(j + 1);
            proof {
                assert(longer.drop_last() =~= before + batch.take(j as int));
                assert(longer.last() == item@);
            }
            if !seen.contains(item.observation_id.as_str()) {
                let ghost old_list = observations_view(list@);
                let ghost id = item.observation_id@;
                let ghost known = seen@;
                list.push(item.clone());
                seen.insert(item.observation_id.clone(), true);
                proof {
                    assert(observations_view(list@) =~= old_list.push(item@));
                    assert forall|other: Seq<char>| #[trigger]
                        seen@.dom().contains(other) <==> has_observation(
                            observations_view(list@),
                            other,
                        ) by {
                        let now = observations_view(list@);
                        if seen@.dom().contains(other) {
                            if other == id {
                                assert(now[old_list.len() as int].observation_id == other);
                            } else {
                                assert(known.dom().contains(other));
                                let k = choose|k: int|
                                    0 <= k < old_list.len() && (#[trigger] old_list[k]).observation_id
                                        == other;
                                assert(now[k].observation_id == other);
                            }
                        }
                        if has_observation(now, other) {
                            let k = choose|k: int|
                                0 <= k < now.len() && (#[trigger] now[k]).observation_id == other;
                            if k < old_list.len() {
                                assert(old_list[k].observation_id == other);
                                assert(known.dom().contains(other));
                            }
                        }
                    }
                }
            }
            j += 1;
        }
        proof {
            assert(batch.take(j as int) =~= batch);
            assert(all.take(i + 1).drop_last() =~= all.take(i as int));
            assert(all.take(i + 1).last() == all[i as int]);
        }
        i += 1;
    }
    assert(all.take(i as int) =~= all);
    list
}

/// No id comes twice among the observations that are handed out, and none of those
/// that were committed is missing.
pub proof fn law_every_observation_is_seen_once(list: Seq<ObservationView>)
    ensures
        forall|i: int, j: int|
            0 <= i < j < first_seen(list).len() ==> (#[trigger] first_seen(list)[i]).observation_id
                != (#[trigger] first_seen(list)[j]).observation_id,
        forall|id: Seq<char>| #[trigger]
            has_observation(first_seen(list), id) <==> has_observation(list, id),
    decreases list.len(),
{
    if list.len() > 0 {
        let shorter = list.drop_last();
        let before = first_seen(shorter);
        let last = list.last();
        law_every_observation_is_seen_once(shorter);
        let now = first_seen(list);
        assert forall|id: Seq<char>| #[trigger]
            has_observation(now, id) <==> has_observation(list, id) by {
            if has_observation(now, id) {
                let k = choose|k: int|
                    0 <= k < now.len() && (#[trigger] now[k]).observation_id == id;
                if k < before.len() {
                    assert(before[k].observation_id == id);
                    assert(has_observation(before, id));
                    assert(has_observation(shorter, id));
                    let m = choose|m: int|
                        0 <= m < shorter.len() && (#[trigger] shorter[m]).observation_id == id;
                    assert(list[m].observation_id == id);
                } else {
                    assert(list[list.len() - 1].observation_id == id);
                }
            }
            if has_observation(list, id) {
                let m = choose|m: int|
                    0 <= m < list.len() && (#[trigger] list[m]).observation_id == id;
                if m < shorter.len() {
                    assert(shorter[m].observation_id == id);
                    assert(has_observation(shorter, id));
                    assert(has_observation(before, id));
                } else if has_observation(before, last.observation_id) {
                } else {
                    assert(now[before.len() as int].observation_id == id);
                }
                if has_observation(before, id) {
                    let k = choose|k: int|
                        0 <= k < before.len() && (#[trigger] before[k]).observation_id == id;
                    assert(now[k].observation_id == id);
                }
            }
        }
        assert forall|i: int, j: int| 0 <= i < j < now.len() implies (
        #[trigger] now[i]).observation_id != (#[trigger] now[j]).observation_id by {
            if j < before.len() {
                assert(before[i].observation_id != before[j].observation_id);
            } else {
                assert(before[i].observation_id == now[i].observation_id);
            }
        }
    } else {
        assert forall|id: Seq<char>| #[trigger]
            has_observation(first_seen(list), id) <==> has_observation(list, id) by {}
    }
}

/// The segments behind a cursor in what is stored, the oldest first, when there are no more
/// than `depth` and none is missing.
pub open spec fn chain_behind(
    stored: Map<Seq<char>, SegmentView>,
    cursor: Option<Seq<char>>,
    depth: nat,
) -> Option<Seq<SegmentView>>
    decreases depth,
{
    match cursor {
        None => Some(Seq::empty()),
        Some(id) => if depth == 0 || !stored.dom().contains(id) {
            None
        } else {
            match chain_behind(stored, stored[id].prev, (depth - 1) as nat) {
                Some(before) => Some(before.push(stored[id])),
                None => None,
            }
        },
    }
}

/// What a walk leads to that reads what is stored, the newest segment first, and goes on as
/// `chain_step` says: the segments with the oldest first.
pub open spec fn walked_back(
    stored: Map<Seq<char>, SegmentView>,
    newest_first: Seq<SegmentView>,
    cursor: Option<Seq<char>>,
) -> Option<Seq<SegmentView>>
    decreases MAX_HISTORY_DEPTH - newest_first.len(),
{
    match cursor {
        None => Some(newest_first.reverse()),
        Some(id) => if newest_first.len() >= MAX_HISTORY_DEPTH || !stored.dom().contains(id) {
            None
        } else {
            walked_back(stored, newest_first.push(stored[id]), stored[id].prev)
        },
    }
}

proof fn lemma_walked_back(
    stored: Map<Seq<char>, SegmentView>,
    newest_first: Seq<SegmentView>,
    cursor: Option<Seq<char>>,
    depth: nat,
)
    requires
        chain_behind(stored, cursor, depth) is Some,
        newest_first.len() + chain_behind(stored, cursor, depth)->0.len() <= MAX_HISTORY_DEPTH,
    ensures
        walked_back(stored, newest_first, cursor) == Some(
            chain_behind(stored, cursor, depth)->0 + newest_first.reverse(),
        ),
    decreases depth,
{
    let chain = chain_behind(stored, cursor, depth)->0;
    match cursor {
        None => {
            assert(chain + newest_first.reverse() =~= newest_first.reverse());
        },
        Some(id) => {
            let before = chain_behind(stored, stored[id].prev, (depth - 1) as nat)->0;
            lemma_walked_back(
                stored,
                newest_first.push(stored[id]),
                stored[id].prev,
                (depth - 1) as nat,
            );
            assert(before + newest_first.push(stored[id]).reverse() =~= before.push(stored[id])
                + newest_first.reverse());
        },
    }
}

/// A segment that is added leaves the chains that were there as they are.
proof fn lemma_chain_stays(
    stored: Map<Seq<char>, SegmentView>,
    id: Seq<char>,
    segment: SegmentView,
    cursor: Option<Seq<char>>,
    depth: nat,
)
    requires
        chain_behind(stored, cursor, depth) is Some,
        stored.dom().contains(id) ==> stored[id] == segment,
    ensures
        chain_behind(stored.insert(id, segment), cursor, depth) == chain_behind(
            stored,
            cursor,
            depth,
        ),
    decreases depth,
{
    if let Some(at) = cursor {
        lemma_chain_stays(stored, id, segment, stored[at].prev, (depth - 1) as nat);
    }
}

/// A chain without its last segment holds what its observations were before.
proof fn lemma_last_batch(before: Seq<SegmentView>, segment: SegmentView)
    ensures
        chain_observations(before.push(segment)) == chain_observations(before)
            + segment.observations,
{
    assert(before.push(segment).drop_last() =~= before);
}

/// A read of a session gives back what an ingest wrote: behind everything that was there,
/// the batch, as it was scrubbed; and each of its observations is handed out.
pub proof fn law_a_read_gives_back_the_ingest(
    run: IngestView,
    current: CurrentView,
    id: Seq<char>,
    stored: Map<Seq<char>, SegmentView>,
    depth: nat,
)
    requires
        run.phase == IngestPhaseView::Storing(current, id),
        stored.dom().contains(id) ==> stored[id] == new_segment(run, current),
        chain_behind(stored, new_segment(run, current).prev, depth) is Some,
        chain_behind(stored, new_segment(run, current).prev, depth)->0.len() < MAX_HISTORY_DEPTH,
    ensures
        ({
            let segment = new_segment(run, current);
            let before = chain_behind(stored, segment.prev, depth)->0;
            let now = stored.insert(id, segment);
            &&& ingest_on(run, IngestEventView::Stored(Ok(true))).1 matches IngestActionView::Swap(
                head,
                _,
            ) && walked_back(now, Seq::empty(), Some(head.segment_id)) == Some(before.push(segment))
            &&& chain_observations(before.push(segment)) == chain_observations(before)
                + run.observations
            &&& forall|i: int|
                0 <= i < run.observations.len() ==> has_observation(
                    first_seen(chain_observations(before.push(segment))),
                    (#[trigger] run.observations[i]).observation_id,
                )
        }),
{
    let segment = new_segment(run, current);
    let before = chain_behind(stored, segment.prev, depth)->0;
    let now = stored.insert(id, segment);
    lemma_chain_stays(stored, id, segment, segment.prev, depth);
    assert(chain_behind(now, Some(id), depth + 1) == Some(before.push(segment)));
    lemma_walked_back(now, Seq::empty(), Some(id), depth + 1);
    assert(before.push(segment) + Seq::<SegmentView>::empty().reverse() =~= before.push(segment));
    lemma_last_batch(before, segment);
    let all = chain_observations(before.push(segment));
    law_every_observation_is_seen_once(all);
    assert forall|i: int| 0 <= i < run.observations.len() implies has_observation(
        first_seen(all),
        (#[trigger] run.observations[i]).observation_id,
    ) by {
        assert(all[chain_observations(before).len() + i] == run.observations[i]);
        assert(has_observation(all, run.observations[i].observation_id));
    }
}

/// The session whose head stands under `key`, when one does.
pub open spec fn session_of(prefix: Seq<char>, key: Seq<char>) -> Option<Seq<char>> {
    match without_prefix(key, prefix + "/"@) {
        Some(rest) => match without_suffix(rest, "/head.json"@) {
            Some(session) => if session.contains('/') {
                None
            } else {
                Some(session)
            },
            None => None,
        },
        None => None,
    }
}

/// The session whose head stands under `key`, when one does.
pub fn session_in_key(prefix: &str, key: &str) -> (session: Option<String>)
    ensures
        opt_text(session) == session_of(prefix@, key@),
{
    let mut start: String = prefix.to_owned();
    start.append("/");
    match strip_prefix(key, start.as_str()) {
        None => None,
        Some(rest) => match strip_suffix(rest.as_str(), "/head.json") {
            None => None,
            Some(session) => {
                if contains_char(session.as_str(), '/') {
                    None
                } else {
                    Some(session)
                }
            },
        },
    }
}

/// Whether some key holds the head of this session.
pub open spec fn names_session(
    prefix: Seq<char>,
    keys: Seq<Seq<char>>,
    session: Seq<char>,
) -> bool {
    exists|i: int| 0 <= i < keys.len() && #[trigger] session_of(prefix, keys[i]) == Some(session)
}

/// The sessions whose heads stand under the keys, in order, each once. A session
/// whose head never committed is not among them.
pub fn sessions_in(prefix: &str, keys: &Vec<String>) -> (sessions: Vec<String>)
    ensures
        forall|i: int, j: int|
            0 <= i < j < sessions@.len() ==> crate::text::lex_less(
                #[trigger] sessions@[i]@,
                #[trigger] sessions@[j]@,
            ),
        forall|s: Seq<char>| #[trigger]
            texts(sessions@).contains(s) <==> names_session(prefix@, texts(keys@), s),
{
    let ghost all = texts(keys@);
    let mut found: OrderedMap<bool> = OrderedMap::new();
    let mut i: usize = 0;
    while i < keys.len()
        invariant
            i <= keys@.len(),
            all == texts(keys@),
            found.wf(),
            forall|s: Seq<char>| #[trigger]
                found@.dom().contains(s) <==> names_session(prefix@, all.take(i as int), s),
        decreases keys@.len() - i,
    {
        let ghost shorter = all.take(i as int);
        let ghost longer = all.take(i + 1);
        let ghost known = found@;
        let session: Option<String> = session_in_key(prefix, keys[i].as_str());
        assert(opt_text(session) == session_of(prefix@, longer[i as int]));
        let ghost name = opt_text(session);
        if let Some(s) = session {
            found.insert(s, true);
        }
        proof {
            assert forall|s: Seq<char>| #[trigger]
                found@.dom().contains(s) <==> names_session(prefix@, longer, s) by {
                if found@.dom().contains(s) {
                    if name == Some(s) {
                        assert(session_of(prefix@, longer[i as int]) == Some(s));
                    } else {
                        assert(known.dom().contains(s));
                        let k = choose|k: int|
                            0 <= k < shorter.len() && #[trigger] session_of(prefix@, shorter[k])
                                == Some(s);
                        assert(session_of(prefix@, longer[k]) == Some(s));
                    }
                }
                if names_session(prefix@, longer, s) {
                    let k = choose|k: int|
                        0 <= k < longer.len() && #[trigger] session_of(prefix@, longer[k]) == Some(
                            s,
                        );
                    if k < i {
                        assert(session_of(prefix@, shorter[k]) == Some(s));
                        assert(known.dom().contains(s));
                    }
                }
            }
        }
        i += 1;
    }
    assert(all.take(i as int) =~= all);
    let mut sessions: Vec<String> = Vec::new();
    let mut k: usize = 0;
    while k < found.entries.len()
        invariant
            k <= found.entries@.len(),
            sessions@.len() == k,
            forall|j: int| 0 <= j < k ==> (#[trigger] sessions@[j])@ == found.entries@[j].0@,
        decreases found.entries@.len() - k,
    {
        sessions.push(found.entries[k].0.clone());
        k += 1;
    }
    proof {
        assert forall|a: int, b: int| 0 <= a < b < sessions@.len() implies crate::text::lex_less(
            #[trigger] sessions@[a]@,
            #[trigger] sessions@[b]@,
        ) by {
            assert(crate::text::lex_less(found.entries@[a].0@, found.entries@[b].0@));
        }
        assert forall|s: Seq<char>| #[trigger]
            texts(sessions@).contains(s) <==> names_session(prefix@, all, s) by {
            if texts(sessions@).contains(s) {
                let j = choose|j: int| 0 <= j < texts(sessions@).len() && texts(sessions@)[j] == s;
                crate::ordered::lemma_place(found.entries@, j);
                assert(sessions@[j]@ == found.entries@[j].0@);
                assert(found@.dom().contains(s));
            }
            if names_session(prefix@, all, s) {
                assert(found@.dom().contains(s));
                let j = crate::ordered::place_of(found.entries@, s);
                assert(texts(sessions@)[j] == s);
            }
        }
    }
    sessions
}

} // verus!
