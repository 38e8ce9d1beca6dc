//! Compiling a session's observations into a page.
//!
//! It runs under a lease, so two machines do not compile one session at once. It is a
//! function of the chain's fingerprint, not of the body, so a model that words the page
//! otherwise every time does not make a version every time. And a configured model that
//! fails falls back to the rules: losing the page is worse than losing polish. Asking for
//! a model where none is configured is no such fallback but an error.

use vstd::prelude::*;

use crate::search::compile::{
    blank, chain_material, fingerprint_in, fingerprint_of, is_blank,
    law_a_page_gives_back_its_fingerprint, marked_page, material, rule_body, with_fingerprint,
    OpenAiCompatCompiler, RuleCompiler, FINGERPRINT_PREFIX,
};
use crate::store::commit::{CommitPageRequest, CommitRequestView};
use crate::store::records::{observations_view, Observation, ObservationView};
use crate::store::version::{error_message, ErrorView, StoreError};
use crate::text::{has_part, opt_text, same_text, stands_at};
use crate::trim::{is_space, trimmed, CharClass};

verus! {

/// What a consolidation did.
#[derive(Debug)]
pub struct ConsolidateOutcome {
    /// Another machine held the lease, or there was nothing to compile.
    pub skipped: bool,
    /// Another machine held the lease.
    pub lease_held: bool,
    /// The session had no observations.
    pub nothing_to_compile: bool,
    /// The page was already compiled from this chain.
    pub already_up_to_date: bool,
    /// Page version that was committed or found up to date.
    pub page_id: Option<String>,
    /// Observations of the chain.
    pub observations: usize,
    /// Segments of the chain.
    pub segments: usize,
    /// Number of the last commit afterwards.
    pub manifest_seq: u64,
    /// Which compiler made the body.
    pub compiler: &'static str,
    /// The configured compiler failed, and the rules were used.
    pub used_fallback: bool,
}

/// What a `ConsolidateOutcome` says.
pub struct ConsolidateView {
    pub skipped: bool,
    pub lease_held: bool,
    pub nothing_to_compile: bool,
    pub already_up_to_date: bool,
    pub page_id: Option<Seq<char>>,
    pub observations: nat,
    pub segments: nat,
    pub manifest_seq: nat,
    pub compiler: Seq<char>,
    pub used_fallback: bool,
}

impl View for ConsolidateOutcome {
    type V = ConsolidateView;

    open spec fn view(&self) -> ConsolidateView {
        ConsolidateView {
            skipped: self.skipped,
            lease_held: self.lease_held,
            nothing_to_compile: self.nothing_to_compile,
            already_up_to_date: self.already_up_to_date,
            page_id: opt_text(self.page_id),
            observations: self.observations as nat,
            segments: self.segments as nat,
            manifest_seq: self.manifest_seq as nat,
            compiler: self.compiler@,
            used_fallback: self.used_fallback,
        }
    }
}

/// Which compiler to use.
#[derive(Debug, Clone, Copy, PartialEq, Eq, Structural)]
pub enum CompilerChoice {
    /// The deterministic renderer.
    Rules,
    /// A language model, with the rules to fall back to.
    Llm,
}

/// What is said when a model is asked for and none is configured.
pub open spec fn no_provider() -> Seq<char> {
    "the LLM compiler was requested but no provider is configured: set QM_LLM_BASE_URL, QM_LLM_API_KEY and QM_LLM_MODEL (or ask for rules/auto, which uses the rule renderer when no provider is configured)"@
}

/// The model that a consolidation runs with: none for the rules, and the configured one
/// where a model is asked for. This is settled before anything is touched, so that a wrong
/// configuration leaves no lease behind.
pub fn resolve_compiler(
    choice: CompilerChoice,
    configured: Result<Option<OpenAiCompatCompiler>, String>,
) -> (resolved: Result<Option<OpenAiCompatCompiler>, String>)
    ensures
        match choice {
            CompilerChoice::Rules => resolved matches Ok(model) && model is None,
            CompilerChoice::Llm => match configured {
                Ok(Some(model)) => resolved == Ok::<Option<OpenAiCompatCompiler>, String>(
                    Some(model),
                ),
                Ok(None) => resolved matches Err(why) && why@ == no_provider(),
                Err(why) => resolved matches Err(said) && said@ == why@,
            },
        },
{
    match choice {
        CompilerChoice::Rules => Ok(None),
        CompilerChoice::Llm => match configured {
            Ok(Some(model)) => Ok(Some(model)),
            Ok(None) => Err(
                "the LLM compiler was requested but no provider is configured: set QM_LLM_BASE_URL, QM_LLM_API_KEY and QM_LLM_MODEL (or ask for rules/auto, which uses the rule renderer when no provider is configured)".to_owned(),
            ),
            Err(why) => Err(why),
        },
    }
}

/// One consolidation target.
#[derive(Debug)]
pub struct ConsolidationRequest {
    /// Workspace.
    pub workspace_id: String,
    /// Project.
    pub project_id: String,
    /// Session to compile.
    pub session_id: String,
    /// Machine that does the work.
    pub consolidator: String,
    /// Time that is recorded on the commit.
    pub now_ms: i64,
    /// How long the lease stays valid.
    pub lease_ttl_ms: i64,
}

/// What a `ConsolidationRequest` says.
pub struct ConsolidationRequestView {
    pub workspace_id: Seq<char>,
    pub project_id: Seq<char>,
    pub session_id: Seq<char>,
    pub consolidator: Seq<char>,
    pub now_ms: i64,
    pub lease_ttl_ms: i64,
}

impl View for ConsolidationRequest {
    type V = ConsolidationRequestView;

    open spec fn view(&self) -> ConsolidationRequestView {
        ConsolidationRequestView {
            workspace_id: self.workspace_id@,
            project_id: self.project_id@,
            session_id: self.session_id@,
            consolidator: self.consolidator@,
            now_ms: self.now_ms,
            lease_ttl_ms: self.lease_ttl_ms,
        }
    }
}

/// How far a consolidation is.
#[derive(Debug)]
pub enum Stage {
    /// The lease is being taken.
    Leasing,
    /// The chain is being read.
    ReadingChain,
    /// The observations are being read.
    ReadingObservations,
    /// The manifest is being read.
    Loading,
    /// The path of the page is being checked.
    CheckingPath,
    /// The fingerprint is being taken.
    Hashing,
    /// The current page is being read.
    ReadingPage,
    /// The model is at work.
    Compiling,
    /// The page is being committed; what made it, and whether as a fallback.
    Committing(&'static str, bool),
    /// The lease is being given back; this is what is reported afterwards.
    Releasing(ConsolidateOutcome),
    /// It is over.
    Finished,
}

/// What a `Stage` says.
pub enum StageView {
    Leasing,
    ReadingChain,
    ReadingObservations,
    Loading,
    CheckingPath,
    Hashing,
    ReadingPage,
    Compiling,
    Committing(Seq<char>, bool),
    Releasing(ConsolidateView),
    Finished,
}

impl View for Stage {
    type V = StageView;

    open spec fn view(&self) -> StageView {
        match *self {
            Stage::Leasing => StageView::Leasing,
            Stage::ReadingChain => StageView::ReadingChain,
            Stage::ReadingObservations => StageView::ReadingObservations,
            Stage::Loading => StageView::Loading,
            Stage::CheckingPath => StageView::CheckingPath,
            Stage::Hashing => StageView::Hashing,
            Stage::ReadingPage => StageView::ReadingPage,
            Stage::Compiling => StageView::Compiling,
            Stage::Committing(compiler, fallback) => StageView::Committing(compiler@, fallback),
            Stage::Releasing(outcome) => StageView::Releasing(outcome@),
            Stage::Finished => StageView::Finished,
        }
    }
}

/// A consolidation that is under way, and what it has read so far.
#[derive(Debug)]
pub struct ConsolidateRun {
    /// What is asked for.
    pub request: ConsolidationRequest,
    /// Whether a model compiles.
    pub with_model: bool,
    /// Segments of the chain.
    pub segments: usize,
    /// Observations of the chain.
    pub observations: Vec<Observation>,
    /// Number of the last commit.
    pub manifest_seq: u64,
    /// Fingerprint of the chain.
    pub fingerprint: String,
    /// How far it is.
    pub stage: Stage,
}

/// What a `ConsolidateRun` says.
pub struct ConsolidateRunView {
    pub request: ConsolidationRequestView,
    pub with_model: bool,
    pub segments: nat,
    pub observations: Seq<ObservationView>,
    pub manifest_seq: nat,
    pub fingerprint: Seq<char>,
    pub stage: StageView,
}

impl View for ConsolidateRun {
    type V = ConsolidateRunView;

    open spec fn view(&self) -> ConsolidateRunView {
        ConsolidateRunView {
            request: self.request@,
            with_model: self.with_model,
            segments: self.segments as nat,
            observations: observations_view(self.observations@),
            manifest_seq: self.manifest_seq as nat,
            fingerprint: self.fingerprint@,
            stage: self.stage@,
        }
    }
}

/// What happened.
#[derive(Debug)]
pub enum ConsolidateEvent {
    /// The lease was taken, or not because another machine holds it.
    Leased(Result<bool, StoreError>),
    /// The chain was read: so many segments.
    Chain(Result<usize, StoreError>),
    /// The observations were read.
    Observed(Result<Vec<Observation>, StoreError>),
    /// The manifest was read: the number of its last commit.
    Loaded(Result<u64, StoreError>),
    /// The path was checked.
    PathChecked(Result<(), String>),
    /// The fingerprint was taken.
    Hashed(String),
    /// The current page was read: its version and its body, where there is one.
    Page(Result<Option<(String, String)>, StoreError>),
    /// The model answered or failed.
    Compiled(Result<String, String>),
    /// The page was committed: its version, and the number of the commit.
    Committed(Result<(String, u64), StoreError>),
    /// The lease was given back.
    Released(Result<(), StoreError>),
}

/// What a `ConsolidateEvent` says.
pub enum ConsolidateEventView {
    Leased(Result<bool, ErrorView>),
    Chain(Result<nat, ErrorView>),
    Observed(Result<Seq<ObservationView>, ErrorView>),
    Loaded(Result<nat, ErrorView>),
    PathChecked(Result<(), Seq<char>>),
    Hashed(Seq<char>),
    Page(Result<Option<(Seq<char>, Seq<char>)>, ErrorView>),
    Compiled(Result<Seq<char>, Seq<char>>),
    Committed(Result<(Seq<char>, nat), ErrorView>),
    Released(Result<(), ErrorView>),
}

impl View for ConsolidateEvent {
    type V = ConsolidateEventView;

    open spec fn view(&self) -> ConsolidateEventView {
        match *self {
            ConsolidateEvent::Leased(Ok(taken)) => ConsolidateEventView::Leased(Ok(taken)),
            ConsolidateEvent::Leased(Err(e)) => ConsolidateEventView::Leased(Err(e@)),
            ConsolidateEvent::Chain(Ok(n)) => ConsolidateEventView::Chain(Ok(n as nat)),
            ConsolidateEvent::Chain(Err(e)) => ConsolidateEventView::Chain(Err(e@)),
            ConsolidateEvent::Observed(Ok(list)) => ConsolidateEventView::Observed(
                Ok(observations_view(list@)),
            ),
            ConsolidateEvent::Observed(Err(e)) => ConsolidateEventView::Observed(Err(e@)),
            ConsolidateEvent::Loaded(Ok(n)) => ConsolidateEventView::Loaded(Ok(n as nat)),
            ConsolidateEvent::Loaded(Err(e)) => ConsolidateEventView::Loaded(Err(e@)),
            ConsolidateEvent::PathChecked(Ok(_)) => ConsolidateEventView::PathChecked(Ok(())),
            ConsolidateEvent::PathChecked(Err(why)) => ConsolidateEventView::PathChecked(
                Err(why@),
            ),
            ConsolidateEvent::Hashed(hash) => ConsolidateEventView::Hashed(hash@),
            ConsolidateEvent::Page(Ok(Some(page))) => ConsolidateEventView::Page(
                Ok(Some((page.0@, page.1@))),
            ),
            ConsolidateEvent::Page(Ok(None)) => ConsolidateEventView::Page(Ok(None)),
            ConsolidateEvent::Page(Err(e)) => ConsolidateEventView::Page(Err(e@)),
            ConsolidateEvent::Compiled(Ok(body)) => ConsolidateEventView::Compiled(Ok(body@)),
            ConsolidateEvent::Compiled(Err(why)) => ConsolidateEventView::Compiled(Err(why@)),
            ConsolidateEvent::Committed(Ok(made)) => ConsolidateEventView::Committed(
                Ok((made.0@, made.1 as nat)),
            ),
            ConsolidateEvent::Committed(Err(e)) => ConsolidateEventView::Committed(Err(e@)),
            ConsolidateEvent::Released(Ok(_)) => ConsolidateEventView::Released(Ok(())),
            ConsolidateEvent::Released(Err(e)) => ConsolidateEventView::Released(Err(e@)),
        }
    }
}

/// What to do next.
#[derive(Debug)]
pub enum ConsolidateAction {
    /// Take the lease on this scope.
    TakeLease(String),
    /// Read the chain of the session.
    ReadChain,
    /// Read the observations of the session.
    ReadObservations,
    /// Read the manifest.
    LoadManifest,
    /// Check that this is the path of a page.
    CheckPath(String),
    /// Take the hash of this.
    Hash(String),
    /// Read the page under this path.
    ReadPage(String),
    /// Ask the model for the page.
    AskModel,
    /// Commit this page.
    Commit(CommitPageRequest),
    /// Give the lease back.
    Release,
    /// It is over.
    Finish(Result<ConsolidateOutcome, String>),
}

/// What a `ConsolidateAction` says.
pub enum ConsolidateActionView {
    TakeLease(Seq<char>),
    ReadChain,
    ReadObservations,
    LoadManifest,
    CheckPath(Seq<char>),
    Hash(Seq<char>),
    ReadPage(Seq<char>),
    AskModel,
    Commit(CommitRequestView),
    Release,
    Finish(Result<ConsolidateView, Seq<char>>),
}

impl View for ConsolidateAction {
    type V = ConsolidateActionView;

    open spec fn view(&self) -> ConsolidateActionView {
        match *self {
            ConsolidateAction::TakeLease(scope) => ConsolidateActionView::TakeLease(scope@),
            ConsolidateAction::ReadChain => ConsolidateActionView::ReadChain,
            ConsolidateAction::ReadObservations => ConsolidateActionView::ReadObservations,
            ConsolidateAction::LoadManifest => ConsolidateActionView::LoadManifest,
            ConsolidateAction::CheckPath(path) => ConsolidateActionView::CheckPath(path@),
            ConsolidateAction::Hash(text) => ConsolidateActionView::Hash(text@),
            ConsolidateAction::ReadPage(path) => ConsolidateActionView::ReadPage(path@),
            ConsolidateAction::AskModel => ConsolidateActionView::AskModel,
            ConsolidateAction::Commit(request) => ConsolidateActionView::Commit(request@),
            ConsolidateAction::Release => ConsolidateActionView::Release,
            ConsolidateAction::Finish(Ok(outcome)) => ConsolidateActionView::Finish(Ok(outcome@)),
            ConsolidateAction::Finish(Err(why)) => ConsolidateActionView::Finish(Err(why@)),
        }
    }
}

// ---- How it goes -------------------------------------------------------------------------------

/// The scope of the lease.
pub open spec fn lease_scope(request: ConsolidationRequestView) -> Seq<char> {
    "consolidate/"@ + request.workspace_id + "/"@ + request.project_id + "/"@ + request.session_id
}

/// The path of the page.
pub open spec fn session_path(session: Seq<char>) -> Seq<char> {
    "sessions/"@ + session + ".md"@
}

/// What is reported when nothing was compiled.
pub open spec fn skipped(
    segments: nat,
    manifest_seq: nat,
    lease_held: bool,
    nothing_to_compile: bool,
) -> ConsolidateView {
    ConsolidateView {
        skipped: true,
        lease_held,
        nothing_to_compile,
        already_up_to_date: false,
        page_id: None,
        observations: 0,
        segments,
        manifest_seq,
        compiler: "none"@,
        used_fallback: false,
    }
}

/// What is reported when the page already stands for the chain.
pub open spec fn unchanged(run: ConsolidateRunView, page_id: Seq<char>) -> ConsolidateView {
    ConsolidateView {
        skipped: false,
        lease_held: false,
        nothing_to_compile: false,
        already_up_to_date: true,
        page_id: Some(page_id),
        observations: run.observations.len(),
        segments: run.segments,
        manifest_seq: run.manifest_seq,
        compiler: "unchanged"@,
        used_fallback: false,
    }
}

/// What is reported when a page was committed.
pub open spec fn compiled(
    run: ConsolidateRunView,
    page_id: Seq<char>,
    seq: nat,
    compiler: Seq<char>,
    used_fallback: bool,
) -> ConsolidateView {
    ConsolidateView {
        skipped: false,
        lease_held: false,
        nothing_to_compile: false,
        already_up_to_date: false,
        page_id: Some(page_id),
        observations: run.observations.len(),
        segments: run.segments,
        manifest_seq: seq,
        compiler,
        used_fallback,
    }
}

/// The commit of a compiled body.
pub open spec fn page_commit(run: ConsolidateRunView, body: Seq<char>) -> CommitRequestView {
    CommitRequestView {
        workspace_id: run.request.workspace_id,
        project_id: run.request.project_id,
        path: session_path(run.request.session_id),
        title: "Session "@ + run.request.session_id,
        body: marked_page(run.request.session_id, run.fingerprint, body),
        writer_id: run.request.consolidator,
        now_ms: run.request.now_ms,
    }
}

/// The consolidation goes on to a stage.
pub open spec fn to_stage(
    run: ConsolidateRunView,
    stage: StageView,
    action: ConsolidateActionView,
) -> (ConsolidateRunView, ConsolidateActionView) {
    (ConsolidateRunView { stage, ..run }, action)
}

/// The consolidation ends.
pub open spec fn ended(run: ConsolidateRunView, result: Result<ConsolidateView, Seq<char>>) -> (
    ConsolidateRunView,
    ConsolidateActionView,
) {
    to_stage(run, StageView::Finished, ConsolidateActionView::Finish(result))
}

/// The consolidation fails.
pub open spec fn failed(run: ConsolidateRunView, error: ErrorView) -> (
    ConsolidateRunView,
    ConsolidateActionView,
) {
    ended(run, Err(error_message(error)))
}

/// The lease is given back before the outcome is reported.
pub open spec fn released(run: ConsolidateRunView, outcome: ConsolidateView) -> (
    ConsolidateRunView,
    ConsolidateActionView,
) {
    to_stage(run, StageView::Releasing(outcome), ConsolidateActionView::Release)
}

/// A body is committed.
pub open spec fn to_commit(
    run: ConsolidateRunView,
    body: Seq<char>,
    compiler: Seq<char>,
    fallback: bool,
) -> (ConsolidateRunView, ConsolidateActionView) {
    to_stage(
        run,
        StageView::Committing(compiler, fallback),
        ConsolidateActionView::Commit(page_commit(run, body)),
    )
}

/// The chain is compiled: by the model where there is one, else by the rules.
pub open spec fn to_compile(run: ConsolidateRunView) -> (
    ConsolidateRunView,
    ConsolidateActionView,
) {
    if run.with_model {
        to_stage(run, StageView::Compiling, ConsolidateActionView::AskModel)
    } else {
        to_commit(run, rule_body(run.observations), "rules"@, false)
    }
}

/// The current page decides whether there is anything to compile.
pub open spec fn after_page(run: ConsolidateRunView, page: Option<(Seq<char>, Seq<char>)>) -> (
    ConsolidateRunView,
    ConsolidateActionView,
) {
    match page {
        Some(current) => if fingerprint_in(current.1) == Some(run.fingerprint) {
            released(run, unchanged(run, current.0))
        } else {
            to_compile(run)
        },
        None => to_compile(run),
    }
}

/// How a consolidation goes on.
pub open spec fn consolidate_on(run: ConsolidateRunView, event: ConsolidateEventView) -> (
    ConsolidateRunView,
    ConsolidateActionView,
) {
    match (run.stage, event) {
        (StageView::Leasing, ConsolidateEventView::Leased(Ok(taken))) => if taken {
            to_stage(run, StageView::ReadingChain, ConsolidateActionView::ReadChain)
        } else {
            ended(run, Ok(skipped(0, 0, true, false)))
        },
        (StageView::Leasing, ConsolidateEventView::Leased(Err(e))) => failed(run, e),
        (StageView::ReadingChain, ConsolidateEventView::Chain(Ok(n))) => to_stage(
            ConsolidateRunView { segments: n, ..run },
            StageView::ReadingObservations,
            ConsolidateActionView::ReadObservations,
        ),
        (StageView::ReadingChain, ConsolidateEventView::Chain(Err(e))) => failed(run, e),
        (StageView::ReadingObservations, ConsolidateEventView::Observed(Ok(list))) => to_stage(
            ConsolidateRunView { observations: list, ..run },
            StageView::Loading,
            ConsolidateActionView::LoadManifest,
        ),
        (StageView::ReadingObservations, ConsolidateEventView::Observed(Err(e))) => failed(run, e),
        (StageView::Loading, ConsolidateEventView::Loaded(Ok(seq))) => {
            let next = ConsolidateRunView { manifest_seq: seq, ..run };
            if run.observations.len() == 0 {
                released(next, skipped(run.segments, seq, false, true))
            } else {
                to_stage(
                    next,
                    StageView::CheckingPath,
                    ConsolidateActionView::CheckPath(session_path(run.request.session_id)),
                )
            }
        },
        (StageView::Loading, ConsolidateEventView::Loaded(Err(e))) => failed(run, e),
        (StageView::CheckingPath, ConsolidateEventView::PathChecked(Ok(_))) => to_stage(
            run,
            StageView::Hashing,
            ConsolidateActionView::Hash(material(run.observations)),
        ),
        (StageView::CheckingPath, ConsolidateEventView::PathChecked(Err(why))) => ended(
            run,
            Err(why),
        ),
        (StageView::Hashing, ConsolidateEventView::Hashed(hash)) => to_stage(
            ConsolidateRunView { fingerprint: hash, ..run },
            StageView::ReadingPage,
            ConsolidateActionView::ReadPage(session_path(run.request.session_id)),
        ),
        (StageView::ReadingPage, ConsolidateEventView::Page(Ok(page))) => after_page(run, page),
        (StageView::ReadingPage, ConsolidateEventView::Page(Err(e))) => failed(run, e),
        (StageView::Compiling, ConsolidateEventView::Compiled(Ok(body))) => if blank(body) {
            to_commit(run, rule_body(run.observations), "rules"@, true)
        } else {
            to_commit(run, body, "llm"@, false)
        },
        (StageView::Compiling, ConsolidateEventView::Compiled(Err(_))) => to_commit(
            run,
            rule_body(run.observations),
            "rules"@,
            true,
        ),
        (
            StageView::Committing(compiler, fallback),
            ConsolidateEventView::Committed(Ok(made)),
        ) => released(run, compiled(run, made.0, made.1, compiler, fallback)),
        (StageView::Committing(_, _), ConsolidateEventView::Committed(Err(e))) => failed(run, e),
        (StageView::Releasing(outcome), ConsolidateEventView::Released(Ok(_))) => ended(
            run,
            Ok(outcome),
        ),
        (StageView::Releasing(_), ConsolidateEventView::Released(Err(e))) => failed(run, e),
        _ => (run, ConsolidateActionView::Finish(Err(Seq::empty()))),
    }
}

/// Whether a text is written without white space, as every hash is.
pub open spec fn unspaced(text: Seq<char>) -> bool {
    forall|i: int| 0 <= i < text.len() ==> !is_space(#[trigger] text[i])
}

impl ConsolidateRun {
    /// The fingerprint is that of a chain, or not taken yet.
    pub open spec fn wf(&self) -> bool {
        unspaced(self.fingerprint@)
    }

    /// Whether the event is one that the stage waits for: a fingerprint is a hash, and is
    /// written without white space.
    pub open spec fn awaits(&self, event: ConsolidateEvent) -> bool {
        match self.stage {
            Stage::Leasing => event is Leased,
            Stage::ReadingChain => event is Chain,
            Stage::ReadingObservations => event is Observed,
            Stage::Loading => event is Loaded,
            Stage::CheckingPath => event is PathChecked,
            Stage::Hashing => event matches ConsolidateEvent::Hashed(hash) && unspaced(hash@),
            Stage::ReadingPage => event is Page,
            Stage::Compiling => event is Compiled,
            Stage::Committing(_, _) => event is Committed,
            Stage::Releasing(_) => event is Released,
            Stage::Finished => false,
        }
    }

    /// The start of a consolidation: the first thing to do is to take the lease.
    pub fn start(request: ConsolidationRequest, with_model: bool) -> (next: (
        ConsolidateRun,
        ConsolidateAction,
    ))
        ensures
            next.0.wf(),
            next.0@ == (ConsolidateRunView {
                request: request@,
                with_model,
                segments: 0,
                observations: Seq::empty(),
                manifest_seq: 0,
                fingerprint: Seq::empty(),
                stage: StageView::Leasing,
            }),
            next.1@ == ConsolidateActionView::TakeLease(lease_scope(request@)),
    {
        let mut scope: String = "consolidate/".to_owned();
        scope.append(request.workspace_id.as_str());
        scope.append("/");
        scope.append(request.project_id.as_str());
        scope.append("/");
        scope.append(request.session_id.as_str());
        let run = ConsolidateRun {
            request,
            with_model,
            segments: 0,
            observations: Vec::new(),
            manifest_seq: 0,
            fingerprint: String::new(),
            stage: Stage::Leasing,
        };
        assert(run@.observations =~= Seq::empty());
        assert(run@.fingerprint =~= Seq::empty());
        (run, ConsolidateAction::TakeLease(scope))
    }

    /// The path of the page.
    fn path(&self) -> (path: String)
        ensures
            path@ == session_path(self.request.session_id@),
    {
        let mut path: String = "sessions/".to_owned();
        path.append(self.request.session_id.as_str());
        path.append(".md");
        path
    }

    /// Ends with a failure.
    fn fail(self, why: String) -> (next: (ConsolidateRun, ConsolidateAction))
        ensures
            (next.0@, next.1@) == ended(self@, Err(why@)),
    {
        let mut run: ConsolidateRun = self;
        run.stage = Stage::Finished;
        (run, ConsolidateAction::Finish(Err(why)))
    }

    /// Gives the lease back before the outcome is reported.
    fn release(self, outcome: ConsolidateOutcome) -> (next: (ConsolidateRun, ConsolidateAction))
        ensures
            (next.0@, next.1@) == released(self@, outcome@),
    {
        let mut run: ConsolidateRun = self;
        run.stage = Stage::Releasing(outcome);
        (run, ConsolidateAction::Release)
    }

    /// Commits a body.
    fn commit(self, body: &str, compiler: &'static str, fallback: bool) -> (next: (
        ConsolidateRun,
        ConsolidateAction,
    ))
        ensures
            (next.0@, next.1@) == to_commit(self@, body@, compiler@, fallback),
    {
        let mut run: ConsolidateRun = self;
        let mut title: String = "Session ".to_owned();
        title.append(run.request.session_id.as_str());
        let request = CommitPageRequest {
            workspace_id: run.request.workspace_id.clone(),
            project_id: run.request.project_id.clone(),
            path: run.path(),
            title,
            body: with_fingerprint(
                run.request.session_id.as_str(),
                run.fingerprint.as_str(),
                body,
            ),
            writer_id: run.request.consolidator.clone(),
            now_ms: run.request.now_ms,
        };
        run.stage = Stage::Committing(compiler, fallback);
        (run, ConsolidateAction::Commit(request))
    }

    /// Takes in the current page.
    fn take_page(self, page: Option<(String, String)>) -> (next: (
        ConsolidateRun,
        ConsolidateAction,
    ))
        ensures
            (next.0@, next.1@) == after_page(
                self@,
                match page {
                    Some(p) => Some((p.0@, p.1@)),
                    None => None,
                },
            ),
    {
        if let Some(current) = page {
            let same: bool = match fingerprint_of(current.1.as_str()) {
                Some(found) => same_text(found.as_str(), self.fingerprint.as_str()),
                None => false,
            };
            if same {
                let outcome = ConsolidateOutcome {
                    skipped: false,
                    lease_held: false,
                    nothing_to_compile: false,
                    already_up_to_date: true,
                    page_id: Some(current.0),
                    observations: self.observations.len(),
                    segments: self.segments,
                    manifest_seq: self.manifest_seq,
                    compiler: "unchanged",
                    used_fallback: false,
                };
                return self.release(outcome);
            }
        }
        if self.with_model {
            let mut run: ConsolidateRun = self;
            run.stage = Stage::Compiling;
            return (run, ConsolidateAction::AskModel);
        }
        let rules = RuleCompiler;
        let body: String = rules.compile(&self.observations);
        let name: &'static str = rules.name();
        self.commit(body.as_str(), name, false)
    }

    /// Takes in what the model answered.
    fn take_body(self, answer: Result<String, String>) -> (next: (
        ConsolidateRun,
        ConsolidateAction,
    ))
        ensures
            (next.0@, next.1@) == (match answer {
                Ok(body) => if blank(body@) {
                    to_commit(self@, rule_body(self@.observations), "rules"@, true)
                } else {
                    to_commit(self@, body@, "llm"@, false)
                },
                Err(_) => to_commit(self@, rule_body(self@.observations), "rules"@, true),
            }),
    {
        if let Ok(body) = &answer {
            if !is_blank(body.as_str()) {
                return self.commit(body.as_str(), "llm", false);
            }
        }
        let rules = RuleCompiler;
        let body: String = rules.compile(&self.observations);
        let name: &'static str = rules.name();
        self.commit(body.as_str(), name, true)
    }

    /// What is reported when nothing was compiled.
    fn skipped_outcome(
        segments: usize,
        manifest_seq: u64,
        lease_held: bool,
        nothing_to_compile: bool,
    ) -> (outcome: ConsolidateOutcome)
        ensures
            outcome@ == skipped(
                segments as nat,
                manifest_seq as nat,
                lease_held,
                nothing_to_compile,
            ),
    {
        ConsolidateOutcome {
            skipped: true,
            lease_held,
            nothing_to_compile,
            already_up_to_date: false,
            page_id: None,
            observations: 0,
            segments,
            manifest_seq,
            compiler: "none",
            used_fallback: false,
        }
    }

    /// Takes in what happened and says what to do next.
    pub fn next(self, event: ConsolidateEvent) -> (next: (ConsolidateRun, ConsolidateAction))
        requires
            self.wf(),
            self.awaits(event),
        ensures
            next.0.wf(),
            (next.0@, next.1@) == consolidate_on(self@, event@),
    {
        let mut run: ConsolidateRun = self;
        match event {
            ConsolidateEvent::Leased(Ok(taken)) => {
                if taken {
                    run.stage = Stage::ReadingChain;
                    (run, ConsolidateAction::ReadChain)
                } else {
                    run.stage = Stage::Finished;
                    (
                        run,
                        ConsolidateAction::Finish(Ok(Self::skipped_outcome(0, 0, true, false))),
                    )
                }
            },
            ConsolidateEvent::Leased(Err(e)) => run.fail(e.message()),
            ConsolidateEvent::Chain(Ok(n)) => {
                run.segments = n;
                run.stage = Stage::ReadingObservations;
                (run, ConsolidateAction::ReadObservations)
            },
            ConsolidateEvent::Chain(Err(e)) => run.fail(e.message()),
            ConsolidateEvent::Observed(Ok(list)) => {
                run.observations = list;
                run.stage = Stage::Loading;
                (run, ConsolidateAction::LoadManifest)
            },
            ConsolidateEvent::Observed(Err(e)) => run.fail(e.message()),
            ConsolidateEvent::Loaded(Ok(seq)) => {
                run.manifest_seq = seq;
                if run.observations.len() == 0 {
                    let outcome = Self::skipped_outcome(run.segments, seq, false, true);
                    run.release(outcome)
                } else {
                    let path: String = run.path();
                    run.stage = Stage::CheckingPath;
                    (run, ConsolidateAction::CheckPath(path))
                }
            },
            ConsolidateEvent::Loaded(Err(e)) => run.fail(e.message()),
            ConsolidateEvent::PathChecked(Ok(_)) => {
                let text: String = chain_material(&run.observations);
                run.stage = Stage::Hashing;
                (run, ConsolidateAction::Hash(text))
            },
            ConsolidateEvent::PathChecked(Err(why)) => run.fail(why),
            ConsolidateEvent::Hashed(hash) => {
                run.fingerprint = hash;
                let path: String = run.path();
                run.stage = Stage::ReadingPage;
                (run, ConsolidateAction::ReadPage(path))
            },
            ConsolidateEvent::Page(Ok(page)) => run.take_page(page),
            ConsolidateEvent::Page(Err(e)) => run.fail(e.message()),
            ConsolidateEvent::Compiled(answer) => run.take_body(answer),
            ConsolidateEvent::Committed(Ok(made)) => {
                let (compiler, fallback): (&'static str, bool) = match &run.stage {
                    Stage::Committing(compiler, fallback) => (compiler, *fallback),
                    _ => ("none", false),
                };
                let outcome = ConsolidateOutcome {
                    skipped: false,
                    lease_held: false,
                    nothing_to_compile: false,
                    already_up_to_date: false,
                    page_id: Some(made.0),
                    observations: run.observations.len(),
                    segments: run.segments,
                    manifest_seq: made.1,
                    compiler,
                    used_fallback: fallback,
                };
                run.release(outcome)
            },
            ConsolidateEvent::Committed(Err(e)) => run.fail(e.message()),
            ConsolidateEvent::Released(Ok(_)) => {
                let ConsolidateRun {
                    request,
                    with_model,
                    segments,
                    observations,
                    manifest_seq,
                    fingerprint,
                    stage,
                } = run;
                let done = ConsolidateRun {
                    request,
                    with_model,
                    segments,
                    observations,
                    manifest_seq,
                    fingerprint,
                    stage: Stage::Finished,
                };
                match stage {
                    Stage::Releasing(outcome) => (done, ConsolidateAction::Finish(Ok(outcome))),
                    _ => (done, ConsolidateAction::Finish(Err(String::new()))),
                }
            },
            ConsolidateEvent::Released(Err(e)) => run.fail(e.message()),
        }
    }
}

// ---- Laws --------------------------------------------------------------------------------------

/// A page that carries the fingerprint of the chain is left alone, whatever compiler would
/// run: the lease is given back and nothing is written.
pub proof fn law_an_unchanged_chain_writes_nothing(
    run: ConsolidateRunView,
    page_id: Seq<char>,
    body: Seq<char>,
)
    requires
        run.stage is ReadingPage,
        fingerprint_in(body) == Some(run.fingerprint),
    ensures
        consolidate_on(run, ConsolidateEventView::Page(Ok(Some((page_id, body))))) == released(
            run,
            unchanged(run, page_id),
        ),
{
}

/// A text without white space is not shortened by a trim, and closes no mark.
proof fn lemma_unspaced(text: Seq<char>)
    requires
        unspaced(text),
    ensures
        trimmed(text, CharClass::Space) == text,
        !has_part(text, " -->"@),
{
    reveal_strlit(" -->");
    let close = " -->"@;
    if text.len() > 0 {
        assert(!is_space(text[0]));
        assert(!is_space(text[text.len() - 1]));
    }
    if has_part(text, close) {
        let at = choose|at: int| #[trigger] stands_at(text, close, at);
        assert(text.subrange(at, at + close.len())[0] == close[0]);
        assert(text[at] == ' ');
        assert(is_space(' '));
    }
}

/// The page that a consolidation commits, whatever made its body, is up to date for the
/// next one with the same fingerprint.
pub proof fn law_a_committed_page_is_up_to_date(
    run: ConsolidateRunView,
    event: ConsolidateEventView,
    later: ConsolidateRunView,
    page_id: Seq<char>,
)
    requires
        consolidate_on(run, event).1 is Commit,
        unspaced(run.fingerprint),
        !has_part(run.request.session_id, FINGERPRINT_PREFIX@),
        later.stage is ReadingPage,
        later.fingerprint == run.fingerprint,
    ensures
        ({
            let committed = consolidate_on(run, event).1->Commit_0;
            consolidate_on(
                later,
                ConsolidateEventView::Page(Ok(Some((page_id, committed.body)))),
            ) == released(later, unchanged(later, page_id))
        }),
{
    let rules = rule_body(run.observations);
    lemma_unspaced(run.fingerprint);
    law_a_page_gives_back_its_fingerprint(run.request.session_id, run.fingerprint, rules);
    if let ConsolidateEventView::Compiled(Ok(body)) = event {
        law_a_page_gives_back_its_fingerprint(run.request.session_id, run.fingerprint, body);
    }
}

/// A consolidation that reads these things in turn, up to the page.
pub open spec fn read_up_to_page(
    run: ConsolidateRunView,
    segments: nat,
    observations: Seq<ObservationView>,
    manifest_seq: nat,
    hash: Seq<char>,
) -> ConsolidateRunView {
    let leased = consolidate_on(run, ConsolidateEventView::Leased(Ok(true))).0;
    let chained = consolidate_on(leased, ConsolidateEventView::Chain(Ok(segments))).0;
    let observed = consolidate_on(chained, ConsolidateEventView::Observed(Ok(observations))).0;
    let loaded = consolidate_on(observed, ConsolidateEventView::Loaded(Ok(manifest_seq))).0;
    let checked = consolidate_on(loaded, ConsolidateEventView::PathChecked(Ok(()))).0;
    consolidate_on(checked, ConsolidateEventView::Hashed(hash)).0
}

/// Compiling the same chain again changes nothing: a second consolidation of the session,
/// whatever would compile it, that takes the lease, reads the same chain and finds the page
/// that the first one committed, gives the lease back without a commit and reports that page
/// as up to date, with the number of the manifest that it found.
pub proof fn law_consolidation_is_idempotent(
    run: ConsolidateRunView,
    event: ConsolidateEventView,
    again: ConsolidateRunView,
    segments: nat,
    manifest_seq: nat,
    page_id: Seq<char>,
)
    requires
        consolidate_on(run, event).1 is Commit,
        unspaced(run.fingerprint),
        !has_part(run.request.session_id, FINGERPRINT_PREFIX@),
        run.observations.len() > 0,
        again.stage is Leasing,
    ensures
        ({
            let body = consolidate_on(run, event).1->Commit_0.body;
            let ready = read_up_to_page(
                again,
                segments,
                run.observations,
                manifest_seq,
                run.fingerprint,
            );
            let found = consolidate_on(
                ready,
                ConsolidateEventView::Page(Ok(Some((page_id, body)))),
            );
            &&& found.1 is Release
            &&& consolidate_on(found.0, ConsolidateEventView::Released(Ok(()))).1
                matches ConsolidateActionView::Finish(Ok(outcome)) && {
                &&& outcome.already_up_to_date
                &&& !outcome.skipped
                &&& outcome.page_id == Some(page_id)
                &&& !outcome.used_fallback
                &&& outcome.manifest_seq == manifest_seq
            }
        }),
{
    let ready = read_up_to_page(again, segments, run.observations, manifest_seq, run.fingerprint);
    law_a_committed_page_is_up_to_date(run, event, ready, page_id);
}

/// A configured model that fails, or answers with nothing, is replaced by the rules, and
/// the outcome says so.
pub proof fn law_a_failed_model_falls_back_to_the_rules(
    run: ConsolidateRunView,
    answer: Result<Seq<char>, Seq<char>>,
)
    requires
        run.stage is Compiling,
        answer matches Ok(body) ==> blank(body),
    ensures
        consolidate_on(run, ConsolidateEventView::Compiled(answer)) == to_commit(
            run,
            rule_body(run.observations),
            "rules"@,
            true,
        ),
{
}

/// A consolidation that took the lease reports an outcome only after giving it back.
pub proof fn law_the_lease_is_given_back(run: ConsolidateRunView, event: ConsolidateEventView)
    requires
        consolidate_on(run, event).1 matches ConsolidateActionView::Finish(Ok(_)),
    ensures
        consolidate_on(run, event).1 matches ConsolidateActionView::Finish(Ok(outcome)) && {
            ||| run.stage is Leasing && outcome.lease_held
            ||| run.stage == StageView::Releasing(outcome) && (event matches
                ConsolidateEventView::Released(Ok(_)))
        },
{
}

} // verus!
