//! The history that the digest probe writes: two pages, the deletion of one of them, two
//! sessions, and three handoffs whose stages lie at different points around a window.
//!
//! Every step is checked rather than taken for granted: a deletion that removed nothing is
//! not reported as one, and a session that did not move is not reported as activity. The
//! pages are committed in the opposite order to their clocks, so that a reader that returns
//! the order of the log is caught.

use vstd::prelude::*;

use crate::numbers::{decimal, decimal_text, signed, signed_text};
use crate::store::commit::{CommitPageRequest, CommitRequestView};
use crate::store::digest::{activity_ms, handoff_activity_ms, CommitRecord, SessionSummary};
use crate::store::records::{
    observations_view, Handoff, HandoffView, Observation, ObservationView,
};
use crate::text::texts;

verus! {

/// Workspace of the history.
pub const WORKSPACE: &'static str = "probe-digest-ws";

/// Project of the history.
pub const PROJECT: &'static str = "probe-digest-proj";

/// Machine that writes it.
pub const WRITER: &'static str = "probe-digest";

/// Machine that claims a handoff.
pub const CLAIMER: &'static str = "probe-digest-claimer";

/// Page that stays.
pub const ALPHA: &'static str = "notes/alpha.md";

/// Page that is deleted.
pub const BETA: &'static str = "notes/beta.md";

/// When the page that stays is written: last, though it is committed first.
pub const ALPHA_AT_MS: i64 = 3_000;

/// When the other page is written.
pub const BETA_AT_MS: i64 = 1_000;

/// When it is deleted.
pub const BETA_DELETED_AT_MS: i64 = 2_000;

/// First batch of the newer session.
pub const SESSION_FIRST_AT_MS: i64 = 2_100;

/// Second batch of the newer session.
pub const SESSION_HEAD_AT_MS: i64 = 2_600;

/// The only batch of the older session.
pub const SESSION_OLD_AT_MS: i64 = 800;

/// When the handoff that is finished was opened.
pub const HANDOFF_CREATED_AT_MS: i64 = 400;

/// When it was claimed.
pub const HANDOFF_CLAIMED_AT_MS: i64 = 900;

/// When it was finished: the stage that carries it into the window.
pub const HANDOFF_FINISHED_AT_MS: i64 = 3_200;

/// When the handoff that stays open was opened.
pub const HANDOFF_LATER_AT_MS: i64 = 2_800;

/// When the handoff was opened whose every stage predates the window.
pub const HANDOFF_EARLY_AT_MS: i64 = 300;

/// A handoff as it was left.
#[derive(Debug)]
pub struct Baton {
    /// Id.
    pub id: String,
    /// When it was opened.
    pub created_at_ms: i64,
    /// When it was claimed.
    pub claimed_at_ms: Option<i64>,
    /// When it was finished.
    pub finished_at_ms: Option<i64>,
}

/// What was written.
#[derive(Debug)]
pub struct SeedReport {
    /// Commits, in the order they were made.
    pub commits: Vec<CommitRecord>,
    /// Sessions, the newer one first.
    pub sessions: Vec<SessionSummary>,
    /// Handoffs: the finished one, the open one and the early one.
    pub handoffs: Vec<Baton>,
}

/// What a commit says.
pub struct CommitRecordView {
    pub seq: u64,
    pub at_ms: i64,
    pub kind: Seq<char>,
    pub path: Seq<char>,
}

/// What a session says.
pub struct SessionView {
    pub session_id: Seq<char>,
    pub observations: u64,
    pub last_seen_ms: i64,
}

/// What a `Baton` says.
pub struct BatonView {
    pub id: Seq<char>,
    pub created_at_ms: i64,
    pub claimed_at_ms: Option<i64>,
    pub finished_at_ms: Option<i64>,
}

/// What a `SeedReport` says.
#[verifier::ext_equal]
pub struct SeedView {
    pub commits: Seq<CommitRecordView>,
    pub sessions: Seq<SessionView>,
    pub handoffs: Seq<BatonView>,
}

impl View for Baton {
    type V = BatonView;

    open spec fn view(&self) -> BatonView {
        BatonView {
            id: self.id@,
            created_at_ms: self.created_at_ms,
            claimed_at_ms: self.claimed_at_ms,
            finished_at_ms: self.finished_at_ms,
        }
    }
}

/// What a commit says.
pub open spec fn commit_view(record: CommitRecord) -> CommitRecordView {
    CommitRecordView {
        seq: record.seq,
        at_ms: record.at_ms,
        kind: record.kind@,
        path: record.path@,
    }
}

/// What a session says.
pub open spec fn session_view(session: SessionSummary) -> SessionView {
    SessionView {
        session_id: session.session_id@,
        observations: session.observations,
        last_seen_ms: session.last_seen_ms,
    }
}

impl View for SeedReport {
    type V = SeedView;

    open spec fn view(&self) -> SeedView {
        SeedView {
            commits: Seq::new(self.commits@.len(), |i: int| commit_view(self.commits@[i])),
            sessions: Seq::new(self.sessions@.len(), |i: int| session_view(self.sessions@[i])),
            handoffs: Seq::new(self.handoffs@.len(), |i: int| self.handoffs@[i]@),
        }
    }
}

/// The step that is being done.
#[derive(Debug, Clone, Copy, PartialEq, Eq, Structural)]
pub enum SeedStep {
    /// The page that stays is being committed.
    Alpha,
    /// The other page is being committed.
    Beta,
    /// That page is being deleted.
    Delete,
    /// The first batch of the newer session is being taken in.
    First,
    /// The second batch of the newer session is being taken in.
    Second,
    /// The batch of the older session is being taken in.
    Older,
    /// The handoff that is finished is being opened.
    Open,
    /// It is being claimed.
    Claim,
    /// It is being finished.
    Finish,
    /// The handoff that stays open is being opened.
    Later,
    /// The early handoff is being opened.
    Early,
    /// It is over.
    Over,
}

/// The writing of the history.
#[derive(Debug)]
pub struct SeedRun {
    /// What was written so far.
    pub report: SeedReport,
    /// The step that is being done.
    pub step: SeedStep,
}

/// What a `SeedRun` says.
pub struct SeedRunView {
    pub report: SeedView,
    pub step: SeedStep,
}

impl View for SeedRun {
    type V = SeedRunView;

    open spec fn view(&self) -> SeedRunView {
        SeedRunView { report: self.report@, step: self.step }
    }
}

/// What happened.
#[derive(Debug)]
pub enum SeedEvent {
    /// A page was committed: the number of the commit.
    Committed(Result<u64, String>),
    /// A page was deleted: the number of the commit, whether it had already been deleted,
    /// and whether a version was removed.
    Deleted(Result<(u64, bool, bool), String>),
    /// A batch was taken in: how many observations of it, and how many the session has.
    Ingested(Result<(usize, u64), String>),
    /// A handoff was opened, and whether it was new.
    Opened(Result<(Handoff, bool), String>),
    /// The handoff was claimed.
    Claimed(Result<Handoff, String>),
    /// The handoff was finished.
    Finished(Result<Handoff, String>),
}

/// What a `SeedEvent` says.
pub enum SeedEventView {
    Committed(Result<u64, Seq<char>>),
    Deleted(Result<(u64, bool, bool), Seq<char>>),
    Ingested(Result<(usize, u64), Seq<char>>),
    Opened(Result<(HandoffView, bool), Seq<char>>),
    Claimed(Result<HandoffView, Seq<char>>),
    Finished(Result<HandoffView, Seq<char>>),
}

impl View for SeedEvent {
    type V = SeedEventView;

    open spec fn view(&self) -> SeedEventView {
        match *self {
            SeedEvent::Committed(Ok(seq)) => SeedEventView::Committed(Ok(seq)),
            SeedEvent::Committed(Err(why)) => SeedEventView::Committed(Err(why@)),
            SeedEvent::Deleted(Ok(done)) => SeedEventView::Deleted(Ok(done)),
            SeedEvent::Deleted(Err(why)) => SeedEventView::Deleted(Err(why@)),
            SeedEvent::Ingested(Ok(done)) => SeedEventView::Ingested(Ok(done)),
            SeedEvent::Ingested(Err(why)) => SeedEventView::Ingested(Err(why@)),
            SeedEvent::Opened(Ok(opened)) => SeedEventView::Opened(Ok((opened.0@, opened.1))),
            SeedEvent::Opened(Err(why)) => SeedEventView::Opened(Err(why@)),
            SeedEvent::Claimed(Ok(handoff)) => SeedEventView::Claimed(Ok(handoff@)),
            SeedEvent::Claimed(Err(why)) => SeedEventView::Claimed(Err(why@)),
            SeedEvent::Finished(Ok(handoff)) => SeedEventView::Finished(Ok(handoff@)),
            SeedEvent::Finished(Err(why)) => SeedEventView::Finished(Err(why@)),
        }
    }
}

/// What to do next.
#[derive(Debug)]
pub enum SeedAction {
    /// Commit this page.
    Commit(CommitPageRequest),
    /// Delete the page under this path at this time.
    Delete(&'static str, i64),
    /// Take in a batch of this session at this time: what happened, one by one.
    Ingest(&'static str, i64, Vec<&'static str>),
    /// Open a handoff with this title and this text at this time.
    Open(&'static str, &'static str, i64),
    /// Claim the handoff with this id at this time.
    Claim(String, i64),
    /// Finish the handoff with this id at this time.
    Finish(String, i64),
    /// It is over.
    Done(Result<SeedReport, String>),
}

/// What a `SeedAction` says.
#[verifier::ext_equal]
pub enum SeedActionView {
    Commit(CommitRequestView),
    Delete(Seq<char>, i64),
    Ingest(Seq<char>, i64, Seq<Seq<char>>),
    Open(Seq<char>, Seq<char>, i64),
    Claim(Seq<char>, i64),
    Finish(Seq<char>, i64),
    Done(Result<SeedView, Seq<char>>),
}

/// What literals say.
pub open spec fn literals(list: Seq<&'static str>) -> Seq<Seq<char>> {
    Seq::new(list.len(), |i: int| list[i]@)
}

impl View for SeedAction {
    type V = SeedActionView;

    open spec fn view(&self) -> SeedActionView {
        match *self {
            SeedAction::Commit(request) => SeedActionView::Commit(request@),
            SeedAction::Delete(path, at_ms) => SeedActionView::Delete(path@, at_ms),
            SeedAction::Ingest(session, at_ms, list) => SeedActionView::Ingest(
                session@,
                at_ms,
                literals(list@),
            ),
            SeedAction::Open(title, text, at_ms) => SeedActionView::Open(title@, text@, at_ms),
            SeedAction::Claim(id, at_ms) => SeedActionView::Claim(id@, at_ms),
            SeedAction::Finish(id, at_ms) => SeedActionView::Finish(id@, at_ms),
            SeedAction::Done(Ok(report)) => SeedActionView::Done(Ok(report@)),
            SeedAction::Done(Err(why)) => SeedActionView::Done(Err(why@)),
        }
    }
}

// ---- How it goes -------------------------------------------------------------------------------------

/// The commit of a page.
pub open spec fn page_of(path: Seq<char>, at_ms: i64) -> CommitRequestView {
    CommitRequestView {
        workspace_id: WORKSPACE@,
        project_id: PROJECT@,
        path,
        title: path,
        body: "body of "@ + path,
        writer_id: WRITER@,
        now_ms: at_ms,
    }
}

/// A step follows.
pub open spec fn to_step(run: SeedRunView, step: SeedStep, action: SeedActionView) -> (
    SeedRunView,
    SeedActionView,
) {
    (SeedRunView { step, ..run }, action)
}

/// It fails. What was written so far is not reported.
pub open spec fn gave_up(run: SeedRunView, why: Seq<char>) -> (SeedRunView, SeedActionView) {
    to_step(run, SeedStep::Over, SeedActionView::Done(Err(why)))
}

/// With one more commit.
pub open spec fn with_commit(
    run: SeedRunView,
    seq: u64,
    at_ms: i64,
    kind: Seq<char>,
    path: Seq<char>,
) -> SeedRunView {
    SeedRunView {
        report: SeedView {
            commits: run.report.commits.push(CommitRecordView { seq, at_ms, kind, path }),
            ..run.report
        },
        ..run
    }
}

/// With one more session.
pub open spec fn with_session(run: SeedRunView, id: Seq<char>, count: u64, at_ms: i64) -> SeedRunView {
    SeedRunView {
        report: SeedView {
            sessions: run.report.sessions.push(
                SessionView { session_id: id, observations: count, last_seen_ms: at_ms },
            ),
            ..run.report
        },
        ..run
    }
}

/// A handoff as it was left.
pub open spec fn left(handoff: HandoffView) -> BatonView {
    BatonView {
        id: handoff.id,
        created_at_ms: handoff.created_at_ms,
        claimed_at_ms: handoff.claimed_at_ms,
        finished_at_ms: handoff.finished_at_ms,
    }
}

/// With one more handoff.
pub open spec fn with_baton(run: SeedRunView, handoff: HandoffView) -> SeedRunView {
    SeedRunView {
        report: SeedView { handoffs: run.report.handoffs.push(left(handoff)), ..run.report },
        ..run
    }
}

/// What is said of a batch that was not taken in whole.
pub open spec fn short_batch(id: Seq<char>, accepted: nat, expected: nat) -> Seq<char> {
    "session "@ + id + " committed "@ + decimal(accepted) + " of "@ + decimal(expected)
        + " observations"@
}

/// How an optional time is spelled.
pub open spec fn spelled_time(at: Option<i64>) -> Seq<char> {
    match at {
        Some(ms) => "Some("@ + signed(ms as int) + ")"@,
        None => "None"@,
    }
}

/// The first batch of the newer session.
pub open spec fn first_batch() -> SeedActionView {
    SeedActionView::Ingest(
        "probe-sess-new"@,
        SESSION_FIRST_AT_MS,
        seq!["wrote the digest probe"@],
    )
}

/// The second batch of the newer session.
pub open spec fn second_batch() -> SeedActionView {
    SeedActionView::Ingest(
        "probe-sess-new"@,
        SESSION_HEAD_AT_MS,
        seq!["checked ordering"@, "kept the deletion"@],
    )
}

/// The batch of the older session.
pub open spec fn older_batch() -> SeedActionView {
    SeedActionView::Ingest("probe-sess-old"@, SESSION_OLD_AT_MS, seq!["an older session"@])
}

/// What follows the finish of the handoff. It has to be recorded, and to outrank the other
/// stages on its own.
pub open spec fn after_finish(run: SeedRunView, handoff: HandoffView) -> (
    SeedRunView,
    SeedActionView,
) {
    if handoff.finished_at_ms != Some(HANDOFF_FINISHED_AT_MS) {
        gave_up(
            run,
            "finish_handoff recorded "@ + spelled_time(handoff.finished_at_ms) + ", not "@
                + signed(HANDOFF_FINISHED_AT_MS as int),
        )
    } else if activity_ms(handoff) != HANDOFF_FINISHED_AT_MS {
        gave_up(run, "the finished baton's activity is not its finish time"@)
    } else {
        to_step(
            with_baton(run, handoff),
            SeedStep::Later,
            SeedActionView::Open(
                "a later baton"@,
                "opened inside the window"@,
                HANDOFF_LATER_AT_MS,
            ),
        )
    }
}

/// How the writing of the history goes on.
pub open spec fn seed_on(run: SeedRunView, event: SeedEventView) -> (SeedRunView, SeedActionView) {
    match (run.step, event) {
        (SeedStep::Alpha, SeedEventView::Committed(Ok(seq))) => to_step(
            with_commit(run, seq, ALPHA_AT_MS, "page_written"@, ALPHA@),
            SeedStep::Beta,
            SeedActionView::Commit(page_of(BETA@, BETA_AT_MS)),
        ),
        (SeedStep::Beta, SeedEventView::Committed(Ok(seq))) => to_step(
            with_commit(run, seq, BETA_AT_MS, "page_written"@, BETA@),
            SeedStep::Delete,
            SeedActionView::Delete(BETA@, BETA_DELETED_AT_MS),
        ),
        (SeedStep::Delete, SeedEventView::Deleted(Ok(done))) => if done.1 || !done.2 {
            gave_up(
                run,
                "the delete was a no-op; there was no live page at "@ + BETA@ + " to remove"@,
            )
        } else {
            to_step(
                with_commit(run, done.0, BETA_DELETED_AT_MS, "page_deleted"@, BETA@),
                SeedStep::First,
                first_batch(),
            )
        },
        (SeedStep::First, SeedEventView::Ingested(Ok(done))) => if done.0 != 1 {
            gave_up(run, short_batch("probe-sess-new"@, done.0 as nat, 1))
        } else {
            to_step(run, SeedStep::Second, second_batch())
        },
        (SeedStep::Second, SeedEventView::Ingested(Ok(done))) => if done.0 != 2 {
            gave_up(run, short_batch("probe-sess-new"@, done.0 as nat, 2))
        } else {
            to_step(
                with_session(run, "probe-sess-new"@, done.1, SESSION_HEAD_AT_MS),
                SeedStep::Older,
                older_batch(),
            )
        },
        (SeedStep::Older, SeedEventView::Ingested(Ok(done))) => if done.0 != 1 {
            gave_up(run, short_batch("probe-sess-old"@, done.0 as nat, 1))
        } else {
            to_step(
                with_session(run, "probe-sess-old"@, done.1, SESSION_OLD_AT_MS),
                SeedStep::Open,
                SeedActionView::Open(
                    "carry the digest work"@,
                    "the S3 stub leg still needs a reader"@,
                    HANDOFF_CREATED_AT_MS,
                ),
            )
        },
        (SeedStep::Open, SeedEventView::Opened(Ok(opened))) => if !opened.1 {
            gave_up(run, "the handoff was a replay; the scenario needs a fresh baton"@)
        } else {
            to_step(
                run,
                SeedStep::Claim,
                SeedActionView::Claim(opened.0.id, HANDOFF_CLAIMED_AT_MS),
            )
        },
        (SeedStep::Claim, SeedEventView::Claimed(Ok(handoff))) => to_step(
            run,
            SeedStep::Finish,
            SeedActionView::Finish(handoff.id, HANDOFF_FINISHED_AT_MS),
        ),
        (SeedStep::Finish, SeedEventView::Finished(Ok(handoff))) => after_finish(run, handoff),
        (SeedStep::Later, SeedEventView::Opened(Ok(opened))) => to_step(
            with_baton(run, opened.0),
            SeedStep::Early,
            SeedActionView::Open(
                "an early baton"@,
                "every stage is before the window"@,
                HANDOFF_EARLY_AT_MS,
            ),
        ),
        (SeedStep::Early, SeedEventView::Opened(Ok(opened))) => {
            let done = with_baton(run, opened.0);
            (
                SeedRunView {
                    report: SeedView {
                        commits: Seq::empty(),
                        sessions: Seq::empty(),
                        handoffs: Seq::empty(),
                    },
                    step: SeedStep::Over,
                },
                SeedActionView::Done(Ok(done.report)),
            )
        },
        (_, SeedEventView::Committed(Err(why))) => gave_up(run, why),
        (_, SeedEventView::Deleted(Err(why))) => gave_up(run, why),
        (_, SeedEventView::Ingested(Err(why))) => gave_up(run, why),
        (_, SeedEventView::Opened(Err(why))) => gave_up(run, why),
        (_, SeedEventView::Claimed(Err(why))) => gave_up(run, why),
        (_, SeedEventView::Finished(Err(why))) => gave_up(run, why),
        _ => gave_up(run, Seq::empty()),
    }
}

/// How many commits, sessions and handoffs are reported when a step begins.
pub open spec fn progress(step: SeedStep) -> (nat, nat, nat) {
    match step {
        SeedStep::Alpha => (0, 0, 0),
        SeedStep::Beta => (1, 0, 0),
        SeedStep::Delete => (2, 0, 0),
        SeedStep::First => (3, 0, 0),
        SeedStep::Second => (3, 0, 0),
        SeedStep::Older => (3, 1, 0),
        SeedStep::Open => (3, 2, 0),
        SeedStep::Claim => (3, 2, 0),
        SeedStep::Finish => (3, 2, 0),
        SeedStep::Later => (3, 2, 1),
        SeedStep::Early => (3, 2, 2),
        SeedStep::Over => (3, 2, 3),
    }
}

/// Whether as much is reported as the step says.
pub open spec fn on_course(run: SeedRunView) -> bool {
    run.step != SeedStep::Over ==> (
        run.report.commits.len(),
        run.report.sessions.len(),
        run.report.handoffs.len(),
    ) == progress(run.step)
}

/// The commit of a page.
fn commit_of(path: &'static str, at_ms: i64) -> (request: CommitPageRequest)
    ensures
        request@ == page_of(path@, at_ms),
{
    let mut body: String = "body of ".to_owned();
    body.append(path);
    CommitPageRequest {
        workspace_id: WORKSPACE.to_owned(),
        project_id: PROJECT.to_owned(),
        path: path.to_owned(),
        title: path.to_owned(),
        body,
        writer_id: WRITER.to_owned(),
        now_ms: at_ms,
    }
}

/// A handoff as it was left.
fn baton_of(handoff: &Handoff) -> (baton: Baton)
    ensures
        baton@ == left(handoff@),
{
    Baton {
        id: handoff.id.clone(),
        created_at_ms: handoff.created_at_ms,
        claimed_at_ms: handoff.claimed_at_ms,
        finished_at_ms: handoff.finished_at_ms,
    }
}

/// How an optional time is spelled.
fn spell_time(at: Option<i64>) -> (text: String)
    ensures
        text@ == spelled_time(at),
{
    match at {
        Some(ms) => {
            let mut text: String = "Some(".to_owned();
            text.append(signed_text(ms).as_str());
            text.append(")");
            text
        },
        None => "None".to_owned(),
    }
}

impl SeedRun {
    /// Whether the event is one that the step waits for.
    pub open spec fn awaits(&self, event: SeedEvent) -> bool {
        match self.step {
            SeedStep::Alpha => event is Committed,
            SeedStep::Beta => event is Committed,
            SeedStep::Delete => event is Deleted,
            SeedStep::First => event is Ingested,
            SeedStep::Second => event is Ingested,
            SeedStep::Older => event is Ingested,
            SeedStep::Open => event is Opened,
            SeedStep::Claim => event is Claimed,
            SeedStep::Finish => event is Finished,
            SeedStep::Later => event is Opened,
            SeedStep::Early => event is Opened,
            SeedStep::Over => false,
        }
    }

    /// The start: the first thing to do is to commit the page that stays.
    pub fn start() -> (next: (SeedRun, SeedAction))
        ensures
            on_course(next.0@),
            next.0@ == (SeedRunView {
                report: SeedView {
                    commits: Seq::empty(),
                    sessions: Seq::empty(),
                    handoffs: Seq::empty(),
                },
                step: SeedStep::Alpha,
            }),
            next.1@ == SeedActionView::Commit(page_of(ALPHA@, ALPHA_AT_MS)),
    {
        let report: SeedReport = Self::nothing();
        (
            SeedRun { report, step: SeedStep::Alpha },
            SeedAction::Commit(commit_of(ALPHA, ALPHA_AT_MS)),
        )
    }

    /// Nothing was written.
    fn nothing() -> (report: SeedReport)
        ensures
            report@ == (SeedView {
                commits: Seq::empty(),
                sessions: Seq::empty(),
                handoffs: Seq::empty(),
            }),
    {
        let report = SeedReport {
            commits: Vec::new(),
            sessions: Vec::new(),
            handoffs: Vec::new(),
        };
        assert(report@.commits =~= Seq::empty());
        assert(report@.sessions =~= Seq::empty());
        assert(report@.handoffs =~= Seq::empty());
        report
    }

    /// Gives up.
    fn give_up(self, why: String) -> (next: (SeedRun, SeedAction))
        ensures
            (next.0@, next.1@) == gave_up(self@, why@),
            on_course(next.0@),
    {
        let mut run: SeedRun = self;
        run.step = SeedStep::Over;
        (run, SeedAction::Done(Err(why)))
    }

    /// Notes a commit.
    fn note_commit(&mut self, seq: u64, at_ms: i64, kind: &str, path: &str)
        ensures
            final(self)@ == with_commit(old(self)@, seq, at_ms, kind@, path@),
    {
        let ghost before = self@;
        let record = CommitRecord {
            seq,
            at_ms,
            kind: kind.to_owned(),
            path: path.to_owned(),
        };
        self.report.commits.push(record);
        assert(self@.report.commits =~= before.report.commits.push(commit_view(record)));
        assert(self@.report.sessions =~= before.report.sessions);
        assert(self@.report.handoffs =~= before.report.handoffs);
    }

    /// Notes a session.
    fn note_session(&mut self, id: &str, count: u64, at_ms: i64)
        ensures
            final(self)@ == with_session(old(self)@, id@, count, at_ms),
    {
        let ghost before = self@;
        let session = SessionSummary {
            session_id: id.to_owned(),
            observations: count,
            last_seen_ms: at_ms,
        };
        self.report.sessions.push(session);
        assert(self@.report.sessions =~= before.report.sessions.push(session_view(session)));
        assert(self@.report.commits =~= before.report.commits);
        assert(self@.report.handoffs =~= before.report.handoffs);
    }

    /// Notes a handoff.
    fn note_baton(&mut self, handoff: &Handoff)
        ensures
            final(self)@ == with_baton(old(self)@, handoff@),
    {
        let ghost before = self@;
        let baton: Baton = baton_of(handoff);
        self.report.handoffs.push(baton);
        assert(self@.report.handoffs =~= before.report.handoffs.push(baton@));
        assert(self@.report.commits =~= before.report.commits);
        assert(self@.report.sessions =~= before.report.sessions);
    }

    /// Says that a batch was not taken in whole.
    fn short(self, id: &str, accepted: usize, expected: u64) -> (next: (SeedRun, SeedAction))
        ensures
            (next.0@, next.1@) == gave_up(
                self@,
                short_batch(id@, accepted as nat, expected as nat),
            ),
            on_course(next.0@),
    {
        let mut why: String = "session ".to_owned();
        why.append(id);
        why.append(" committed ");
        why.append(decimal_text(accepted as u64).as_str());
        why.append(" of ");
        why.append(decimal_text(expected).as_str());
        why.append(" observations");
        self.give_up(why)
    }

    /// Takes in a commit.
    fn take_commit(self, seq: u64) -> (next: (SeedRun, SeedAction))
        requires
            on_course(self@),
            self.step == SeedStep::Alpha || self.step == SeedStep::Beta,
        ensures
            (next.0@, next.1@) == seed_on(self@, SeedEventView::Committed(Ok(seq))),
            on_course(next.0@),
    {
        let mut run: SeedRun = self;
        if run.step == SeedStep::Alpha {
            run.note_commit(seq, ALPHA_AT_MS, "page_written", ALPHA);
            run.step = SeedStep::Beta;
            (run, SeedAction::Commit(commit_of(BETA, BETA_AT_MS)))
        } else {
            run.note_commit(seq, BETA_AT_MS, "page_written", BETA);
            run.step = SeedStep::Delete;
            (run, SeedAction::Delete(BETA, BETA_DELETED_AT_MS))
        }
    }

    /// Takes in the deletion. One that removed nothing would make the rest pointless.
    fn take_delete(self, done: (u64, bool, bool)) -> (next: (SeedRun, SeedAction))
        requires
            on_course(self@),
            self.step == SeedStep::Delete,
        ensures
            (next.0@, next.1@) == seed_on(self@, SeedEventView::Deleted(Ok(done))),
            on_course(next.0@),
    {
        let mut run: SeedRun = self;
        if done.1 || !done.2 {
            let mut why: String = "the delete was a no-op; there was no live page at ".to_owned();
            why.append(BETA);
            why.append(" to remove");
            return run.give_up(why);
        }
        run.note_commit(done.0, BETA_DELETED_AT_MS, "page_deleted", BETA);
        run.step = SeedStep::First;
        let mut list: Vec<&'static str> = Vec::new();
        list.push("wrote the digest probe");
        let action = SeedAction::Ingest("probe-sess-new", SESSION_FIRST_AT_MS, list);
        assert(literals(list@) =~= seq!["wrote the digest probe"@]);
        assert(action@ == first_batch());
        (run, action)
    }

    /// Takes in a batch.
    fn take_batch(self, done: (usize, u64)) -> (next: (SeedRun, SeedAction))
        requires
            on_course(self@),
            self.step == SeedStep::First || self.step == SeedStep::Second || self.step
                == SeedStep::Older,
        ensures
            (next.0@, next.1@) == seed_on(self@, SeedEventView::Ingested(Ok(done))),
            on_course(next.0@),
    {
        let mut run: SeedRun = self;
        let mut list: Vec<&'static str> = Vec::new();
        if run.step == SeedStep::First {
            if done.0 != 1 {
                return run.short("probe-sess-new", done.0, 1);
            }
            list.push("checked ordering");
            list.push("kept the deletion");
            run.step = SeedStep::Second;
            let action = SeedAction::Ingest("probe-sess-new", SESSION_HEAD_AT_MS, list);
            assert(literals(list@) =~= seq!["checked ordering"@, "kept the deletion"@]);
            assert(action@ == second_batch());
            (run, action)
        } else if run.step == SeedStep::Second {
            if done.0 != 2 {
                return run.short("probe-sess-new", done.0, 2);
            }
            run.note_session("probe-sess-new", done.1, SESSION_HEAD_AT_MS);
            list.push("an older session");
            run.step = SeedStep::Older;
            let action = SeedAction::Ingest("probe-sess-old", SESSION_OLD_AT_MS, list);
            assert(literals(list@) =~= seq!["an older session"@]);
            assert(action@ == older_batch());
            (run, action)
        } else {
            if done.0 != 1 {
                return run.short("probe-sess-old", done.0, 1);
            }
            run.note_session("probe-sess-old", done.1, SESSION_OLD_AT_MS);
            run.step = SeedStep::Open;
            (
                run,
                SeedAction::Open(
                    "carry the digest work",
                    "the S3 stub leg still needs a reader",
                    HANDOFF_CREATED_AT_MS,
                ),
            )
        }
    }

    /// Takes in an opened handoff.
    fn take_open(self, handoff: Handoff, new: bool) -> (next: (SeedRun, SeedAction))
        requires
            on_course(self@),
            self.step == SeedStep::Open || self.step == SeedStep::Later || self.step
                == SeedStep::Early,
        ensures
            (next.0@, next.1@) == seed_on(self@, SeedEventView::Opened(Ok((handoff@, new)))),
            on_course(next.0@),
    {
        let mut run: SeedRun = self;
        if run.step == SeedStep::Open {
            if !new {
                return run.give_up(
                    "the handoff was a replay; the scenario needs a fresh baton".to_owned(),
                );
            }
            run.step = SeedStep::Claim;
            (run, SeedAction::Claim(handoff.id, HANDOFF_CLAIMED_AT_MS))
        } else if run.step == SeedStep::Later {
            run.note_baton(&handoff);
            run.step = SeedStep::Early;
            (
                run,
                SeedAction::Open(
                    "an early baton",
                    "every stage is before the window",
                    HANDOFF_EARLY_AT_MS,
                ),
            )
        } else {
            run.note_baton(&handoff);
            let report: SeedReport = run.report;
            (
                SeedRun { report: Self::nothing(), step: SeedStep::Over },
                SeedAction::Done(Ok(report)),
            )
        }
    }

    /// Takes in the finished handoff.
    fn take_finish(self, handoff: Handoff) -> (next: (SeedRun, SeedAction))
        requires
            on_course(self@),
            self.step == SeedStep::Finish,
        ensures
            (next.0@, next.1@) == after_finish(self@, handoff@),
            on_course(next.0@),
    {
        let mut run: SeedRun = self;
        let recorded: bool = match handoff.finished_at_ms {
            Some(ms) => ms == HANDOFF_FINISHED_AT_MS,
            None => false,
        };
        if !recorded {
            let mut why: String = "finish_handoff recorded ".to_owned();
            why.append(spell_time(handoff.finished_at_ms).as_str());
            why.append(", not ");
            why.append(signed_text(HANDOFF_FINISHED_AT_MS).as_str());
            return run.give_up(why);
        }
        if handoff_activity_ms(&handoff) != HANDOFF_FINISHED_AT_MS {
            return run.give_up(
                "the finished baton's activity is not its finish time".to_owned(),
            );
        }
        run.note_baton(&handoff);
        run.step = SeedStep::Later;
        (
            run,
            SeedAction::Open("a later baton", "opened inside the window", HANDOFF_LATER_AT_MS),
        )
    }

    /// Takes in what happened and says what to do next.
    pub fn next(self, event: SeedEvent) -> (next: (SeedRun, SeedAction))
        requires
            on_course(self@),
            self.awaits(event),
        ensures
            (next.0@, next.1@) == seed_on(self@, event@),
            on_course(next.0@),
    {
        match event {
            SeedEvent::Committed(Ok(seq)) => self.take_commit(seq),
            SeedEvent::Committed(Err(why)) => self.give_up(why),
            SeedEvent::Deleted(Ok(done)) => self.take_delete(done),
            SeedEvent::Deleted(Err(why)) => self.give_up(why),
            SeedEvent::Ingested(Ok(done)) => self.take_batch(done),
            SeedEvent::Ingested(Err(why)) => self.give_up(why),
            SeedEvent::Opened(Ok(opened)) => self.take_open(opened.0, opened.1),
            SeedEvent::Opened(Err(why)) => self.give_up(why),
            SeedEvent::Claimed(Ok(handoff)) => {
                let mut run: SeedRun = self;
                run.step = SeedStep::Finish;
                (run, SeedAction::Finish(handoff.id, HANDOFF_FINISHED_AT_MS))
            },
            SeedEvent::Claimed(Err(why)) => self.give_up(why),
            SeedEvent::Finished(Ok(handoff)) => self.take_finish(handoff),
            SeedEvent::Finished(Err(why)) => self.give_up(why),
        }
    }
}

/// The observations of a batch, given their ids: one for each text, a millisecond apart.
pub open spec fn batch(
    schema: u32,
    session: Seq<char>,
    list: Seq<Seq<char>>,
    ids: Seq<Seq<char>>,
    at_ms: int,
) -> Seq<ObservationView> {
    Seq::new(
        list.len(),
        |i: int|
            ObservationView {
                schema,
                observation_id: ids[i],
                session_id: session,
                actor: "probe"@,
                kind: "tool_use"@,
                text: list[i],
                created_at_ms: (at_ms + i) as i64,
            },
    )
}

/// The observations of a batch, given their ids.
pub fn observations(
    schema: u32,
    session: &str,
    list: &Vec<&'static str>,
    ids: &Vec<String>,
    at_ms: i64,
) -> (made: Vec<Observation>)
    requires
        ids@.len() == list@.len(),
        list@.len() <= i64::MAX,
        at_ms + list@.len() <= i64::MAX,
    ensures
        observations_view(made@) == batch(
            schema,
            session@,
            literals(list@),
            texts(ids@),
            at_ms as int,
        ),
{
    let ghost owed = batch(schema, session@, literals(list@), texts(ids@), at_ms as int);
    let mut made: Vec<Observation> = Vec::new();
    let mut i: usize = 0;
    while i < list.len()
        invariant
            ids@.len() == list@.len(),
            list@.len() <= i64::MAX,
            at_ms + list@.len() <= i64::MAX,
            owed == batch(schema, session@, literals(list@), texts(ids@), at_ms as int),
            i <= list@.len(),
            made@.len() == i,
            forall|j: int| 0 <= j < i ==> (#[trigger] made@[j])@ == owed[j],
        decreases list@.len() - i,
    {
        let one = Observation {
            schema,
            observation_id: ids[i].clone(),
            session_id: session.to_owned(),
            actor: "probe".to_owned(),
            kind: "tool_use".to_owned(),
            text: list[i].to_owned(),
            created_at_ms: at_ms + i as i64,
        };
        assert(one@ == owed[i as int]);
        made.push(one);
        i += 1;
    }
    assert(observations_view(made@) =~= owed);
    made
}

/// What is reported in the end is complete: three commits, two sessions and three handoffs.
pub proof fn law_a_report_is_complete(run: SeedRunView, event: SeedEventView)
    requires
        on_course(run),
        seed_on(run, event).1 matches SeedActionView::Done(Ok(_)),
    ensures
        ({
            let report = seed_on(run, event).1->Done_0->Ok_0;
            &&& report.commits.len() == 3
            &&& report.sessions.len() == 2
            &&& report.handoffs.len() == 3
        }),
{
}

} // verus!
