//! Handoffs: notes that one machine leaves and exactly one other machine takes.

use vstd::prelude::*;

use crate::numbers::decimal;
use crate::sort::{sort, stable_sorted, Ranked};
use crate::store::probe::{write_view, WriteReply, WriteView};
use crate::store::records::{handoff_state, Handoff, HandoffView};
use crate::store::retry::{different_content, RetryPolicy};
use crate::store::version::{
    ErrorView, HandoffState, ObjectVersion, StoreError, VersionView,
};
use crate::text::{
    comes_before, ends_with, has_suffix, lemma_lex_asymmetric, lex_less, same_text, texts,
};

verus! {

/// The note that opening a handoff stores.
pub fn opening(
    schema: u32,
    id: String,
    title: String,
    body: String,
    created_by: String,
    now_ms: i64,
) -> (handoff: Handoff)
    ensures
        handoff@ == (HandoffView {
            schema,
            id: id@,
            title: title@,
            body: body@,
            created_by: created_by@,
            created_at_ms: now_ms,
            claimed_by: None,
            claimed_at_ms: None,
            finished_at_ms: None,
        }),
        handoff_state(handoff@) == HandoffState::Open,
{
    Handoff {
        schema,
        id,
        title,
        body,
        created_by,
        created_at_ms: now_ms,
        claimed_by: None,
        claimed_at_ms: None,
        finished_at_ms: None,
    }
}

/// Whether two notes are the same but for who took them.
pub open spec fn same_note(a: HandoffView, b: HandoffView) -> bool {
    &&& a.schema == b.schema
    &&& a.id == b.id
    &&& a.title == b.title
    &&& a.body == b.body
    &&& a.created_by == b.created_by
    &&& a.created_at_ms == b.created_at_ms
}

/// Opening a note where one stands already: the same note stays as it is, whoever took it
/// meanwhile, and another one is corruption.
pub fn reopened(key: &str, existing: Handoff, wanted: &Handoff) -> (kept: Result<
    Handoff,
    StoreError,
>)
    ensures
        match kept {
            Ok(found) => found == existing && same_note(existing@, wanted@),
            Err(error) => !same_note(existing@, wanted@) && error@ == ErrorView::Corrupt(
                key@ + " already exists with different content"@,
            ),
        },
{
    if existing.schema == wanted.schema && same_text(existing.id.as_str(), wanted.id.as_str())
        && same_text(existing.title.as_str(), wanted.title.as_str()) && same_text(
        existing.body.as_str(),
        wanted.body.as_str(),
    ) && same_text(existing.created_by.as_str(), wanted.created_by.as_str())
        && existing.created_at_ms == wanted.created_at_ms {
        Ok(existing)
    } else {
        Err(different_content(key))
    }
}

/// The note under `key`, when it is the one with the id that was asked for.
pub fn checked_handoff(key: &str, id: &str, handoff: Handoff) -> (checked: Result<
    Handoff,
    StoreError,
>)
    ensures
        match checked {
            Ok(found) => found == handoff && handoff@.id == id@,
            Err(error) => handoff@.id != id@ && error@ == ErrorView::Corrupt(
                key@ + " holds handoff "@ + handoff@.id,
            ),
        },
{
    if same_text(handoff.id.as_str(), id) {
        Ok(handoff)
    } else {
        let mut what: String = key.to_owned();
        what.append(" holds handoff ");
        what.append(handoff.id.as_str());
        Err(StoreError::Corrupt(what))
    }
}

/// The keys that hold notes.
pub open spec fn note_keys(keys: Seq<Seq<char>>) -> Seq<Seq<char>>
    decreases keys.len(),
{
    if keys.len() == 0 {
        Seq::empty()
    } else {
        let before = note_keys(keys.drop_last());
        if has_suffix(keys.last(), ".json"@) {
            before.push(keys.last())
        } else {
            before
        }
    }
}

/// The keys that hold notes, in their order.
pub fn handoff_keys(keys: &Vec<String>) -> (notes: Vec<String>)
    ensures
        texts(notes@) == note_keys(texts(keys@)),
{
    let ghost all = texts(keys@);
    let mut notes: Vec<String> = Vec::new();
    let mut i: usize = 0;
    assert(all.take(0) =~= Seq::empty());
    assert(texts(notes@) =~= Seq::empty());
    while i < keys.len()
        invariant
            i <= keys@.len(),
            all == texts(keys@),
            texts(notes@) == note_keys(all.take(i as int)),
        decreases keys@.len() - i,
    {
        proof {
            assert(all.take(i + 1).drop_last() =~= all.take(i as int));
            assert(all.take(i + 1).last() == keys@[i as int]@);
        }
        if ends_with(keys[i].as_str(), ".json") {
            let note: String = keys[i].clone();
            proof {
                crate::text::lemma_texts_push(notes@, note);
            }
            notes.push(note);
        }
        i += 1;
    }
    assert(all.take(i as int) =~= all);
    notes
}

impl Ranked for Handoff {
    open spec fn precedes(self, other: Self) -> bool {
        self.created_at_ms < other.created_at_ms || (self.created_at_ms == other.created_at_ms
            && lex_less(self.id@, other.id@))
    }

    fn ranks_before(&self, other: &Self) -> (before: bool) {
        self.created_at_ms < other.created_at_ms || (self.created_at_ms == other.created_at_ms
            && comes_before(self.id.as_str(), other.id.as_str()))
    }

    proof fn precedes_is_asymmetric(a: Self, b: Self) {
        if a.created_at_ms == b.created_at_ms {
            lemma_lex_asymmetric(a.id@, b.id@);
        }
    }

    proof fn precedes_has_no_gaps(a: Self, b: Self, c: Self) {
        if lex_less(a.id@, c.id@) {
            crate::sort::lemma_lex_no_gaps(a.id@, b.id@, c.id@);
        }
    }
}

/// Handoffs with the oldest first, those of the same time by id.
pub fn ordered_handoffs(list: Vec<Handoff>) -> (ordered: Vec<Handoff>)
    ensures
        ordered@ == stable_sorted(list@),
{
    sort(list)
}

// ---- Claiming and finishing ------------------------------------------------------------

/// What is to be done to a handoff.
#[derive(Clone, Copy, Debug, PartialEq, Eq, Structural)]
pub enum HandoffGoal {
    /// Take it.
    Claim,
    /// Finish it.
    Finish,
}

/// How far it has come.
#[derive(Debug)]
pub enum HandoffPhase {
    /// The note is being read.
    Reading,
    /// The note is being replaced by this one.
    Swapping(Handoff),
    /// Nothing more to do.
    Finished,
}

/// What a `HandoffPhase` says.
pub enum HandoffPhaseView {
    Reading,
    Swapping(HandoffView),
    Finished,
}

impl View for HandoffPhase {
    type V = HandoffPhaseView;

    open spec fn view(&self) -> HandoffPhaseView {
        match *self {
            HandoffPhase::Reading => HandoffPhaseView::Reading,
            HandoffPhase::Swapping(next) => HandoffPhaseView::Swapping(next@),
            HandoffPhase::Finished => HandoffPhaseView::Finished,
        }
    }
}

/// The claiming or finishing of a handoff under way.
#[derive(Debug)]
pub struct HandoffRun {
    /// What is to be done.
    pub goal: HandoffGoal,
    /// Id of the handoff.
    pub id: String,
    /// Machine that does it.
    pub machine: String,
    /// Caller-supplied clock.
    pub now_ms: i64,
    /// How hard to fight for it.
    pub retry: RetryPolicy,
    /// Attempts so far.
    pub attempt: u32,
    /// How far it has come.
    pub phase: HandoffPhase,
}

/// What a `HandoffRun` says.
pub struct HandoffRunView {
    pub goal: HandoffGoal,
    pub id: Seq<char>,
    pub machine: Seq<char>,
    pub now_ms: i64,
    pub retry: RetryPolicy,
    pub attempt: nat,
    pub phase: HandoffPhaseView,
}

impl View for HandoffRun {
    type V = HandoffRunView;

    open spec fn view(&self) -> HandoffRunView {
        HandoffRunView {
            goal: self.goal,
            id: self.id@,
            machine: self.machine@,
            now_ms: self.now_ms,
            retry: self.retry,
            attempt: self.attempt as nat,
            phase: self.phase@,
        }
    }
}

/// What happened.
#[derive(Debug)]
pub enum HandoffEvent {
    /// The note was read.
    Read(Result<(Handoff, ObjectVersion), StoreError>),
    /// The backend replied to the replacement of the note.
    Swapped(WriteReply),
}

/// What a `HandoffEvent` says.
pub enum HandoffEventView {
    Read(Result<(HandoffView, VersionView), ErrorView>),
    Swapped(WriteView),
}

impl View for HandoffEvent {
    type V = HandoffEventView;

    open spec fn view(&self) -> HandoffEventView {
        match *self {
            HandoffEvent::Read(Ok(found)) => HandoffEventView::Read(Ok((found.0@, found.1@))),
            HandoffEvent::Read(Err(error)) => HandoffEventView::Read(Err(error@)),
            HandoffEvent::Swapped(reply) => HandoffEventView::Swapped(write_view(reply)),
        }
    }
}

/// What to do next.
#[derive(Debug)]
pub enum HandoffAction {
    /// Read the note.
    Read,
    /// Replace the note if it still has this version.
    Swap(Handoff, ObjectVersion),
    /// It is over.
    Finish(Result<Handoff, StoreError>),
}

/// What a `HandoffAction` says.
pub enum HandoffActionView {
    Read,
    Swap(HandoffView, VersionView),
    Finish(Result<HandoffView, ErrorView>),
}

impl View for HandoffAction {
    type V = HandoffActionView;

    open spec fn view(&self) -> HandoffActionView {
        match *self {
            HandoffAction::Read => HandoffActionView::Read,
            HandoffAction::Swap(next, expected) => HandoffActionView::Swap(next@, expected@),
            HandoffAction::Finish(Ok(handoff)) => HandoffActionView::Finish(Ok(handoff@)),
            HandoffAction::Finish(Err(error)) => HandoffActionView::Finish(Err(error@)),
        }
    }
}

/// What the note becomes, or why it may not: only an open note is taken, and only
/// the machine that took it finishes it.
pub open spec fn advanced(run: HandoffRunView, note: HandoffView) -> Result<
    HandoffView,
    ErrorView,
> {
    match run.goal {
        HandoffGoal::Claim => if handoff_state(note) == HandoffState::Open {
            Ok(
                HandoffView {
                    claimed_by: Some(run.machine),
                    claimed_at_ms: Some(run.now_ms),
                    ..note
                },
            )
        } else {
            Err(ErrorView::HandoffNotOpen(run.id, handoff_state(note)))
        },
        HandoffGoal::Finish => match note.claimed_by {
            Some(claimer) => if claimer == run.machine {
                Ok(HandoffView { finished_at_ms: Some(run.now_ms), ..note })
            } else {
                Err(ErrorView::HandoffOwnedByAnother(run.id, claimer))
            },
            None => Err(ErrorView::HandoffNotOpen(run.id, handoff_state(note))),
        },
    }
}

/// It is over.
pub open spec fn handoff_over(
    run: HandoffRunView,
    result: Result<HandoffView, ErrorView>,
) -> (HandoffRunView, HandoffActionView) {
    (
        HandoffRunView { phase: HandoffPhaseView::Finished, ..run },
        HandoffActionView::Finish(result),
    )
}

/// How the claiming or finishing of a handoff goes on. A note that somebody else
/// moved is read again.
pub open spec fn handoff_on(run: HandoffRunView, event: HandoffEventView) -> (
    HandoffRunView,
    HandoffActionView,
) {
    match (run.phase, event) {
        (HandoffPhaseView::Reading, HandoffEventView::Read(Ok(found))) => match advanced(
            run,
            found.0,
        ) {
            Ok(next) => (
                HandoffRunView { phase: HandoffPhaseView::Swapping(next), ..run },
                HandoffActionView::Swap(next, found.1),
            ),
            Err(error) => handoff_over(run, Err(error)),
        },
        (HandoffPhaseView::Reading, HandoffEventView::Read(Err(error))) => handoff_over(
            run,
            Err(error),
        ),
        (HandoffPhaseView::Swapping(next), HandoffEventView::Swapped(Ok(_))) => handoff_over(
            run,
            Ok(next),
        ),
        (HandoffPhaseView::Swapping(_), HandoffEventView::Swapped(Err(error))) => if error
            is Precondition || error is NotFound {
            if run.attempt >= run.retry.max_attempts {
                handoff_over(run, Err(ErrorView::Conflict(run.attempt)))
            } else {
                (
                    HandoffRunView {
                        attempt: run.attempt + 1,
                        phase: HandoffPhaseView::Reading,
                        ..run
                    },
                    HandoffActionView::Read,
                )
            }
        } else {
            handoff_over(run, Err(error))
        },
        _ => (run, HandoffActionView::Read),
    }
}

/// What the note becomes, or why it may not.
fn advance(run: &HandoffRun, note: Handoff) -> (next: Result<Handoff, StoreError>)
    ensures
        match next {
            Ok(handoff) => advanced(run@, note@) == Ok::<HandoffView, ErrorView>(handoff@),
            Err(error) => advanced(run@, note@) == Err::<HandoffView, ErrorView>(error@),
        },
{
    let mut next: Handoff = note;
    match run.goal {
        HandoffGoal::Claim => {
            let state: HandoffState = next.state();
            if state != HandoffState::Open {
                return Err(StoreError::HandoffNotOpen { id: run.id.clone(), state });
            }
            next.claimed_by = Some(run.machine.clone());
            next.claimed_at_ms = Some(run.now_ms);
            Ok(next)
        },
        HandoffGoal::Finish => {
            match &next.claimed_by {
                Some(claimer) => {
                    if !same_text(claimer.as_str(), run.machine.as_str()) {
                        return Err(
                            StoreError::HandoffOwnedByAnother {
                                id: run.id.clone(),
                                owner: claimer.clone(),
                            },
                        );
                    }
                },
                None => {
                    return Err(
                        StoreError::HandoffNotOpen { id: run.id.clone(), state: next.state() },
                    );
                },
            }
            next.finished_at_ms = Some(run.now_ms);
            Ok(next)
        },
    }
}

impl HandoffRun {
    /// Whether the event is one that the phase waits for.
    pub open spec fn awaits(&self, event: HandoffEvent) -> bool {
        match self.phase {
            HandoffPhase::Reading => event is Read,
            HandoffPhase::Swapping(_) => event is Swapped,
            HandoffPhase::Finished => false,
        }
    }

    /// The start: the first thing to do is to read the note.
    pub fn start(
        goal: HandoffGoal,
        id: String,
        machine: String,
        now_ms: i64,
        retry: RetryPolicy,
    ) -> (next: (HandoffRun, HandoffAction))
        ensures
            next.0@ == (HandoffRunView {
                goal,
                id: id@,
                machine: machine@,
                now_ms,
                retry,
                attempt: 1,
                phase: HandoffPhaseView::Reading,
            }),
            next.1@ == HandoffActionView::Read,
    {
        (
            HandoffRun { goal, id, machine, now_ms, retry, attempt: 1, phase: HandoffPhase::Reading },
            HandoffAction::Read,
        )
    }

    /// Takes in what happened and says what to do next.
    pub fn next(self, event: HandoffEvent) -> (next: (HandoffRun, HandoffAction))
        requires
            self.awaits(event),
        ensures
            (next.0@, next.1@) == handoff_on(self@, event@),
    {
        let mut run: HandoffRun = self;
        match event {
            HandoffEvent::Read(reply) => match reply {
                Ok((note, version)) => match advance(&run, note) {
                    Ok(next) => {
                        run.phase = HandoffPhase::Swapping(next.clone());
                        (run, HandoffAction::Swap(next, version))
                    },
                    Err(error) => {
                        run.phase = HandoffPhase::Finished;
                        (run, HandoffAction::Finish(Err(error)))
                    },
                },
                Err(error) => {
                    run.phase = HandoffPhase::Finished;
                    (run, HandoffAction::Finish(Err(error)))
                },
            },
            HandoffEvent::Swapped(reply) => match reply {
                Ok(_) => {
                    let HandoffRun { goal, id, machine, now_ms, retry, attempt, phase } = run;
                    let finished = HandoffRun {
                        goal,
                        id,
                        machine,
                        now_ms,
                        retry,
                        attempt,
                        phase: HandoffPhase::Finished,
                    };
                    match phase {
                        HandoffPhase::Swapping(next) => (
                            finished,
                            HandoffAction::Finish(Ok(next)),
                        ),
                        _ => (finished, HandoffAction::Read),
                    }
                },
                Err(error) => {
                    let moved: bool = match error {
                        StoreError::Precondition => true,
                        StoreError::NotFound => true,
                        _ => false,
                    };
                    if !moved {
                        run.phase = HandoffPhase::Finished;
                        return (run, HandoffAction::Finish(Err(error)));
                    }
                    if run.attempt >= run.retry.max_attempts {
                        let attempts: u32 = run.attempt;
                        run.phase = HandoffPhase::Finished;
                        return (run, HandoffAction::Finish(Err(StoreError::Conflict { attempts })));
                    }
                    run.attempt = run.attempt + 1;
                    run.phase = HandoffPhase::Reading;
                    (run, HandoffAction::Read)
                },
            },
        }
    }
}

/// Once a note is taken nobody takes it again: whoever reads it is told so and
/// writes nothing.
pub proof fn law_a_handoff_is_claimed_once(
    winner: HandoffRunView,
    note: HandoffView,
    loser: HandoffRunView,
    version: VersionView,
)
    requires
        winner.goal == HandoffGoal::Claim,
        advanced(winner, note) is Ok,
        loser.goal == HandoffGoal::Claim,
        loser.phase is Reading,
    ensures
        handoff_on(
            loser,
            HandoffEventView::Read(Ok((advanced(winner, note)->Ok_0, version))),
        ).1 == HandoffActionView::Finish(
            Err(ErrorView::HandoffNotOpen(loser.id, HandoffState::Claimed)),
        ),
{
}

/// A note that was taken is finished by the machine that took it, and by no other.
pub proof fn law_only_the_claimer_finishes(
    claimer: HandoffRunView,
    note: HandoffView,
    finisher: HandoffRunView,
)
    requires
        claimer.goal == HandoffGoal::Claim,
        advanced(claimer, note) is Ok,
        finisher.goal == HandoffGoal::Finish,
    ensures
        ({
            let claimed = advanced(claimer, note)->Ok_0;
            &&& finisher.machine == claimer.machine ==> (advanced(finisher, claimed) matches Ok(
                done,
            ) && handoff_state(done) == HandoffState::Done)
            &&& finisher.machine != claimer.machine ==> advanced(finisher, claimed) == Err::<
                HandoffView,
                ErrorView,
            >(ErrorView::HandoffOwnedByAnother(finisher.id, claimer.machine))
            &&& advanced(finisher, note) == Err::<HandoffView, ErrorView>(
                ErrorView::HandoffNotOpen(finisher.id, HandoffState::Open),
            )
        }),
{
}

// ---- Several machines at once --------------------------------------------------------------

/// One of several machines that claim the same note: how far it is, the version at which it
/// read the note last, and what it was told in the end.
pub struct Claimer {
    pub run: HandoffRunView,
    pub read_at: nat,
    pub told: Option<Result<HandoffView, ErrorView>>,
}

/// The stored note, the number of its version, and the machines that claim it. The bucket
/// replaces the note only at the version at which it was read, and every replacement gives
/// it a new version.
pub struct Contest {
    pub note: HandoffView,
    pub version: nat,
    pub claimers: Seq<Claimer>,
}

/// The version with this number.
pub open spec fn numbered_version(version: nat) -> VersionView {
    VersionView { etag: Some(decimal(version)), version: None }
}

/// A machine after an event.
pub open spec fn after_event(claimer: Claimer, read_at: nat, event: HandoffEventView) -> Claimer {
    let next = handoff_on(claimer.run, event);
    Claimer {
        run: next.0,
        read_at,
        told: match next.1 {
            HandoffActionView::Finish(result) => Some(result),
            _ => claimer.told,
        },
    }
}

/// The contest after one machine made its next move: it reads the note, or tries to replace
/// it.
pub open spec fn after_move(contest: Contest, who: int) -> Contest {
    let claimer = contest.claimers[who];
    match claimer.run.phase {
        HandoffPhaseView::Reading => Contest {
            claimers: contest.claimers.update(
                who,
                after_event(
                    claimer,
                    contest.version,
                    HandoffEventView::Read(Ok((contest.note, numbered_version(contest.version)))),
                ),
            ),
            ..contest
        },
        HandoffPhaseView::Swapping(next) => if claimer.read_at == contest.version {
            Contest {
                note: next,
                version: contest.version + 1,
                claimers: contest.claimers.update(
                    who,
                    after_event(
                        claimer,
                        claimer.read_at,
                        HandoffEventView::Swapped(Ok(numbered_version(contest.version + 1))),
                    ),
                ),
            }
        } else {
            Contest {
                claimers: contest.claimers.update(
                    who,
                    after_event(
                        claimer,
                        claimer.read_at,
                        HandoffEventView::Swapped(Err(ErrorView::Precondition)),
                    ),
                ),
                ..contest
            }
        },
        HandoffPhaseView::Finished => contest,
    }
}

/// The contest after moves in this order.
pub open spec fn after_moves(contest: Contest, order: Seq<int>) -> Contest
    decreases order.len(),
{
    if order.len() == 0 {
        contest
    } else {
        after_move(after_moves(contest, order.drop_last()), order.last())
    }
}

/// Whether a machine got the note.
pub open spec fn has_won(contest: Contest, who: int) -> bool {
    contest.claimers[who].told matches Some(Ok(_))
}

/// Whether every machine is about to claim an open note.
pub open spec fn about_to_claim(contest: Contest) -> bool {
    &&& handoff_state(contest.note) == HandoffState::Open
    &&& forall|i: int|
        0 <= i < contest.claimers.len() ==> {
            let claimer = #[trigger] contest.claimers[i];
            &&& claimer.run.goal == HandoffGoal::Claim
            &&& claimer.run.phase is Reading
            &&& claimer.told is None
        }
}

/// Whether a run is the one that a machine started with, but for how far it is.
spec fn same_run(first: HandoffRunView, run: HandoffRunView) -> bool {
    &&& run.goal == first.goal
    &&& run.id == first.id
    &&& run.machine == first.machine
    &&& run.now_ms == first.now_ms
    &&& run.retry == first.retry
}

/// Whether a machine is still in the running, while nobody has the note.
spec fn undecided(start: Contest, first: Claimer, claimer: Claimer) -> bool {
    &&& claimer.told is None
    &&& same_run(first.run, claimer.run)
    &&& claimer.run.attempt == first.run.attempt
    &&& match claimer.run.phase {
        HandoffPhaseView::Reading => true,
        HandoffPhaseView::Swapping(next) => claimer.read_at == start.version && advanced(
            claimer.run,
            start.note,
        ) == Ok::<HandoffView, ErrorView>(next),
        HandoffPhaseView::Finished => false,
    }
}

/// What a machine that lost is told: that the note is taken; or, where it had no attempt
/// left to read the note again, that it lost the race for it.
pub open spec fn told_it_lost(first: HandoffRunView, error: ErrorView) -> bool {
    ||| error == ErrorView::HandoffNotOpen(first.id, HandoffState::Claimed)
    ||| first.attempt >= first.retry.max_attempts && error == ErrorView::Conflict(first.attempt)
}

/// Whether a machine was told that it lost, or will be.
spec fn beaten(start: Contest, first: Claimer, claimer: Claimer) -> bool {
    &&& same_run(first.run, claimer.run)
    &&& match claimer.told {
        None => match claimer.run.phase {
            HandoffPhaseView::Reading => true,
            HandoffPhaseView::Swapping(_) => claimer.read_at == start.version
                && claimer.run.attempt == first.run.attempt,
            HandoffPhaseView::Finished => false,
        },
        Some(Err(error)) => claimer.run.phase is Finished && told_it_lost(first.run, error),
        Some(Ok(_)) => false,
    }
}

/// Whether this machine has the note.
spec fn holds_it(contest: Contest, who: int) -> bool {
    let claimer = contest.claimers[who];
    &&& 0 <= who < contest.claimers.len()
    &&& claimer.run.phase is Finished
    &&& claimer.told == Some(Ok::<HandoffView, ErrorView>(contest.note))
    &&& contest.note.claimed_by == Some(claimer.run.machine)
    &&& handoff_state(contest.note) == HandoffState::Claimed
}

/// What holds of a contest at any time: nobody has the note and it is as it was, or one
/// machine has it and all others are beaten.
spec fn fair(start: Contest, contest: Contest) -> bool {
    &&& contest.claimers.len() == start.claimers.len()
    &&& forall|i: int|
        0 <= i < contest.claimers.len() ==> (#[trigger] contest.claimers[i]).run.goal
            == HandoffGoal::Claim
    &&& if contest.version == start.version {
        &&& contest.note == start.note
        &&& forall|i: int|
            0 <= i < contest.claimers.len() ==> undecided(
                start,
                start.claimers[i],
                #[trigger] contest.claimers[i],
            )
    } else {
        &&& contest.version == start.version + 1
        &&& exists|w: int| #[trigger]
            holds_it(contest, w) && forall|i: int|
                0 <= i < contest.claimers.len() && i != w ==> beaten(
                    start,
                    start.claimers[i],
                    #[trigger] contest.claimers[i],
                )
    }
}

proof fn lemma_move_is_fair(start: Contest, contest: Contest, who: int)
    requires
        about_to_claim(start),
        fair(start, contest),
        0 <= who < contest.claimers.len(),
    ensures
        fair(start, after_move(contest, who)),
{
    let next = after_move(contest, who);
    let claimer = contest.claimers[who];
    assert(claimer.run.goal == HandoffGoal::Claim);
    assert forall|i: int| 0 <= i < next.claimers.len() implies (
    #[trigger] next.claimers[i]).run.goal == HandoffGoal::Claim by {
        assert(contest.claimers[i].run.goal == HandoffGoal::Claim);
    }
    if contest.version == start.version {
        assert(undecided(start, start.claimers[who], claimer));
        if next.version == start.version {
            assert forall|i: int| 0 <= i < next.claimers.len() implies undecided(
                start,
                start.claimers[i],
                #[trigger] next.claimers[i],
            ) by {
                assert(undecided(start, start.claimers[i], contest.claimers[i]));
            }
        } else {
            assert(holds_it(next, who));
            assert forall|i: int| 0 <= i < next.claimers.len() && i != who implies beaten(
                start,
                start.claimers[i],
                #[trigger] next.claimers[i],
            ) by {
                assert(undecided(start, start.claimers[i], contest.claimers[i]));
            }
        }
    } else {
        let w = choose|w: int| #[trigger]
            holds_it(contest, w) && forall|i: int|
                0 <= i < contest.claimers.len() && i != w ==> beaten(
                    start,
                    start.claimers[i],
                    #[trigger] contest.claimers[i],
                );
        if who != w {
            assert(beaten(start, start.claimers[who], claimer));
        }
        assert(holds_it(next, w));
        assert forall|i: int| 0 <= i < next.claimers.len() && i != w implies beaten(
            start,
            start.claimers[i],
            #[trigger] next.claimers[i],
        ) by {
            assert(beaten(start, start.claimers[i], contest.claimers[i]));
        }
    }
}

proof fn lemma_moves_are_fair(start: Contest, order: Seq<int>)
    requires
        about_to_claim(start),
        forall|i: int| 0 <= i < order.len() ==> 0 <= #[trigger] order[i] < start.claimers.len(),
    ensures
        fair(start, after_moves(start, order)),
    decreases order.len(),
{
    if order.len() == 0 {
        assert forall|i: int| 0 <= i < start.claimers.len() implies undecided(
            start,
            start.claimers[i],
            #[trigger] start.claimers[i],
        ) by {}
    } else {
        let front = order.drop_last();
        assert forall|i: int| 0 <= i < front.len() implies 0 <= #[trigger] front[i]
            < start.claimers.len() by {
            assert(front[i] == order[i]);
        }
        lemma_moves_are_fair(start, front);
        let last = order[order.len() - 1];
        lemma_move_is_fair(start, after_moves(start, front), last);
    }
}

/// Of several machines that claim the same open note, in whatever order they read it and try
/// to replace it, no two get it; as soon as any of them has been told something, one of them
/// has it, and the stored note names that one; and the others are told that it is taken. Only
/// a machine that has no attempt left to read the note again is told instead that it lost the
/// race for it.
pub proof fn law_one_claim_wins(start: Contest, order: Seq<int>)
    requires
        about_to_claim(start),
        forall|i: int| 0 <= i < order.len() ==> 0 <= #[trigger] order[i] < start.claimers.len(),
    ensures
        ({
            let end = after_moves(start, order);
            &&& end.claimers.len() == start.claimers.len()
            &&& forall|i: int, j: int|
                0 <= i < end.claimers.len() && 0 <= j < end.claimers.len() && #[trigger] has_won(
                    end,
                    i,
                ) && #[trigger] has_won(end, j) ==> i == j
            &&& (exists|i: int|
                0 <= i < end.claimers.len() && (#[trigger] end.claimers[i]).told is Some)
                ==> exists|w: int|
                0 <= w < end.claimers.len() && #[trigger] has_won(end, w) && end.note.claimed_by
                    == Some(end.claimers[w].run.machine)
            &&& forall|i: int|
                0 <= i < end.claimers.len() ==> ((#[trigger] end.claimers[i]).told matches Some(
                    Err(error),
                ) ==> told_it_lost(start.claimers[i].run, error))
        }),
{
    let end = after_moves(start, order);
    lemma_moves_are_fair(start, order);
    if end.version == start.version {
        assert forall|i: int| 0 <= i < end.claimers.len() implies (#[trigger] end.claimers[i]).told
            is None by {
            assert(undecided(start, start.claimers[i], end.claimers[i]));
        }
    } else {
        let w = choose|w: int| #[trigger]
            holds_it(end, w) && forall|i: int|
                0 <= i < end.claimers.len() && i != w ==> beaten(
                    start,
                    start.claimers[i],
                    #[trigger] end.claimers[i],
                );
        assert(has_won(end, w));
        assert forall|i: int| 0 <= i < end.claimers.len() && i != w implies !(#[trigger] has_won(
            end,
            i,
        )) by {
            assert(beaten(start, start.claimers[i], end.claimers[i]));
        }
        assert forall|i: int| 0 <= i < end.claimers.len() implies ((
        #[trigger] end.claimers[i]).told matches Some(Err(error)) ==> told_it_lost(
            start.claimers[i].run,
            error,
        )) by {
            if i != w {
                assert(beaten(start, start.claimers[i], end.claimers[i]));
            }
        }
    }
}

} // verus!
