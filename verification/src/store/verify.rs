//! The integrity check of one project: what is wrong with what the manifest and the
//! catalog name. Every inconsistency is reported, not only the first; a backend that
//! fails to answer is no inconsistency, and ends the check.

use vstd::prelude::*;

use crate::numbers::{decimal, decimal_text};
use crate::store::version::{error_message, ErrorView, StoreError};
use crate::text::{opt_text, same_text};

verus! {

/// One thing that is wrong.
#[derive(Debug)]
pub struct Problem {
    /// What kind of check failed.
    pub kind: String,
    /// Key or path that the problem concerns.
    pub subject: String,
    /// Human-readable detail.
    pub detail: String,
}

/// What a `Problem` says.
pub struct ProblemView {
    pub kind: Seq<char>,
    pub subject: Seq<char>,
    pub detail: Seq<char>,
}

impl View for Problem {
    type V = ProblemView;

    open spec fn view(&self) -> ProblemView {
        ProblemView { kind: self.kind@, subject: self.subject@, detail: self.detail@ }
    }
}

/// What a list of problems says.
pub open spec fn problems_view(list: Seq<Problem>) -> Seq<ProblemView> {
    Seq::new(list.len(), |i: int| list[i]@)
}

/// A problem.
pub open spec fn problem(kind: Seq<char>, subject: Seq<char>, detail: Seq<char>) -> ProblemView {
    ProblemView { kind, subject, detail }
}

/// Result of one integrity pass.
#[derive(Debug)]
pub struct VerifyReport {
    /// Manifest number observed.
    pub manifest_seq: u64,
    /// Live pages checked.
    pub pages: usize,
    /// Sessions checked.
    pub sessions: usize,
    /// Splits that the catalog names.
    pub splits: usize,
    /// Shards that the manifest names; none for the whole-object form.
    pub shards: usize,
    /// Everything that is inconsistent.
    pub problems: Vec<Problem>,
}

impl VerifyReport {
    /// Whether the project is consistent.
    pub fn ok(&self) -> (fine: bool)
        ensures
            fine == (self.problems@.len() == 0),
    {
        self.problems.len() == 0
    }
}

// ---- What was found -------------------------------------------------------------------

/// A shard that the manifest names.
#[derive(Debug)]
pub struct ShardFact {
    /// Number of the shard.
    pub shard: u16,
    /// Key it is filed under.
    pub key: String,
    /// Key that its content hash gives it.
    pub canonical: String,
}

/// The archived manifest that the manifest names as its predecessor.
#[derive(Debug)]
pub struct PredecessorFact {
    /// Key it is filed under.
    pub key: String,
    /// Number of its last commit.
    pub seq: u64,
    /// Hash that the manifest records.
    pub content_hash: String,
    /// Hash of what is there.
    pub actual: Result<String, StoreError>,
}

/// What was found behind a live page.
#[derive(Debug)]
pub enum PageFinding {
    /// The path is none; this is what was told about it.
    BadPath(String),
    /// What the walk along its versions ended at, and the id that the content of the
    /// current version gives it.
    Walked(Result<Option<String>, StoreError>, Result<String, StoreError>),
}

/// A live page.
#[derive(Debug)]
pub struct PageFact {
    /// Path.
    pub path: String,
    /// Current version.
    pub page_id: String,
    /// What was found behind it.
    pub finding: PageFinding,
}

/// A session.
#[derive(Debug)]
pub struct SessionFact {
    /// Id.
    pub session: String,
    /// Whether its chain could be read.
    pub chain: Result<(), StoreError>,
}

/// A split that the catalog names.
#[derive(Debug)]
pub struct SplitFact {
    /// Prefix of its files.
    pub prefix: String,
    /// How many objects stand there.
    pub objects: Result<usize, StoreError>,
}

/// What was found in a project whose manifest could be read.
#[derive(Debug)]
pub struct ProjectFacts {
    /// Number of the last commit.
    pub seq: u64,
    /// Shards, in the order the manifest names them.
    pub shards: Vec<ShardFact>,
    /// Predecessor, if the manifest names one.
    pub predecessor: Option<PredecessorFact>,
    /// Live pages, by path.
    pub pages: Vec<PageFact>,
    /// Prefix of the sessions.
    pub session_prefix: String,
    /// Sessions, or why they could not be listed.
    pub sessions: Result<Vec<SessionFact>, StoreError>,
    /// Key of the catalog head.
    pub catalog_head_key: String,
    /// Splits of the catalog, or why it could not be read.
    pub splits: Result<Vec<SplitFact>, StoreError>,
}

// ---- What is wrong with it --------------------------------------------------------------

/// What is wrong with a shard.
pub open spec fn shard_problem(fact: ShardFact) -> Option<ProblemView> {
    if fact.key@ == fact.canonical@ {
        None
    } else {
        Some(
            problem(
                "manifest_shard_key"@,
                fact.key@,
                "shard "@ + decimal(fact.shard as nat)
                    + " is filed under a key that is not its content hash (expected "@
                    + fact.canonical@ + ")"@,
            ),
        )
    }
}

/// What is wrong with the predecessor.
pub open spec fn predecessor_problem(fact: PredecessorFact) -> Option<ProblemView> {
    match fact.actual {
        Ok(actual) => if actual@ == fact.content_hash@ {
            None
        } else {
            Some(
                problem(
                    "manifest_predecessor"@,
                    fact.key@,
                    "the archived whole manifest hashes to "@ + actual@
                        + ", but the root records "@ + fact.content_hash@,
                ),
            )
        },
        Err(error) => Some(
            problem(
                "manifest_predecessor"@,
                fact.key@,
                "the root names a predecessor at seq "@ + decimal(fact.seq as nat)
                    + " that cannot be read: "@ + error_message(error@),
            ),
        ),
    }
}

/// What is wrong with the chain of a page.
pub open spec fn chain_problem(
    path: Seq<char>,
    page_id: Seq<char>,
    end: Result<Option<String>, StoreError>,
) -> Option<ProblemView> {
    match end {
        Ok(last) => if opt_text(last) == Some(page_id) {
            None
        } else {
            Some(problem("page_chain"@, path, "the chain does not end at the manifest head"@))
        },
        Err(error) => Some(problem("page_chain"@, path, error_message(error@))),
    }
}

/// What is wrong with the current version of a page: it cannot be read, or its content
/// gives it another id than the one it stands under.
pub open spec fn version_problem(
    path: Seq<char>,
    page_id: Seq<char>,
    read: Result<String, StoreError>,
) -> Option<ProblemView> {
    match read {
        Ok(derived) => if derived@ == page_id {
            None
        } else {
            Some(
                problem(
                    "page_version"@,
                    path + " ("@ + page_id + ")"@,
                    "the content hashes to "@ + derived@,
                ),
            )
        },
        Err(error) => Some(
            problem("page_version"@, path + " ("@ + page_id + ")"@, error_message(error@)),
        ),
    }
}

/// A list with one more problem, when there is one.
pub open spec fn with_problem(list: Seq<ProblemView>, found: Option<ProblemView>) -> Seq<
    ProblemView,
> {
    match found {
        Some(p) => list.push(p),
        None => list,
    }
}

/// A list with what is wrong with a page.
pub open spec fn with_page(list: Seq<ProblemView>, fact: PageFact) -> Seq<ProblemView> {
    match fact.finding {
        PageFinding::BadPath(what) => list.push(problem("page_path"@, fact.path@, what@)),
        PageFinding::Walked(end, read) => with_problem(
            with_problem(list, chain_problem(fact.path@, fact.page_id@, end)),
            version_problem(fact.path@, fact.page_id@, read),
        ),
    }
}

/// What is wrong with a session.
pub open spec fn session_problem(fact: SessionFact) -> Option<ProblemView> {
    match fact.chain {
        Ok(_) => None,
        Err(error) => Some(problem("session_chain"@, fact.session@, error_message(error@))),
    }
}

/// What is wrong with a split.
pub open spec fn split_problem(fact: SplitFact) -> Option<ProblemView> {
    match fact.objects {
        Ok(n) => if n == 0 {
            Some(
                problem(
                    "split_missing"@,
                    fact.prefix@,
                    "the catalog references a split with no objects"@,
                ),
            )
        } else {
            None
        },
        Err(error) => Some(problem("split_unreadable"@, fact.prefix@, error_message(error@))),
    }
}

/// A list with what is wrong with the shards.
pub open spec fn with_shards(list: Seq<ProblemView>, facts: Seq<ShardFact>) -> Seq<ProblemView>
    decreases facts.len(),
{
    if facts.len() == 0 {
        list
    } else {
        with_problem(with_shards(list, facts.drop_last()), shard_problem(facts.last()))
    }
}

/// A list with what is wrong with the pages.
pub open spec fn with_pages(list: Seq<ProblemView>, facts: Seq<PageFact>) -> Seq<ProblemView>
    decreases facts.len(),
{
    if facts.len() == 0 {
        list
    } else {
        with_page(with_pages(list, facts.drop_last()), facts.last())
    }
}

/// A list with what is wrong with the sessions.
pub open spec fn with_sessions(list: Seq<ProblemView>, facts: Seq<SessionFact>) -> Seq<ProblemView>
    decreases facts.len(),
{
    if facts.len() == 0 {
        list
    } else {
        with_problem(with_sessions(list, facts.drop_last()), session_problem(facts.last()))
    }
}

/// A list with what is wrong with the splits.
pub open spec fn with_splits(list: Seq<ProblemView>, facts: Seq<SplitFact>) -> Seq<ProblemView>
    decreases facts.len(),
{
    if facts.len() == 0 {
        list
    } else {
        with_problem(with_splits(list, facts.drop_last()), split_problem(facts.last()))
    }
}

/// What is wrong with the manifest itself: shards first, then the predecessor.
pub open spec fn root_problems(facts: ProjectFacts) -> Seq<ProblemView> {
    let shards = with_shards(Seq::empty(), facts.shards@);
    match facts.predecessor {
        Some(fact) => with_problem(shards, predecessor_problem(fact)),
        None => shards,
    }
}

/// A list with what is wrong with the sessions, or that they could not be listed.
pub open spec fn with_session_facts(list: Seq<ProblemView>, facts: ProjectFacts) -> Seq<
    ProblemView,
> {
    match facts.sessions {
        Ok(found) => with_sessions(list, found@),
        Err(error) => list.push(
            problem("sessions"@, facts.session_prefix@, error_message(error@)),
        ),
    }
}

/// A list with what is wrong with the splits, or that the catalog could not be read.
pub open spec fn with_catalog_facts(list: Seq<ProblemView>, facts: ProjectFacts) -> Seq<
    ProblemView,
> {
    match facts.splits {
        Ok(found) => with_splits(list, found@),
        Err(error) => list.push(
            problem("catalog"@, facts.catalog_head_key@, error_message(error@)),
        ),
    }
}

/// Everything that is wrong with a project, in the order it is checked: the
/// manifest, the pages, the sessions, the catalog.
pub open spec fn project_problems(facts: ProjectFacts) -> Seq<ProblemView> {
    with_catalog_facts(
        with_session_facts(with_pages(root_problems(facts), facts.pages@), facts),
        facts,
    )
}

// ---- The check --------------------------------------------------------------------------

/// Adds a problem.
fn report_problem(list: &mut Vec<Problem>, kind: &str, subject: &str, detail: String)
    ensures
        problems_view(final(list)@) == problems_view(old(list)@).push(
            problem(kind@, subject@, detail@),
        ),
{
    let ghost before = list@;
    list.push(Problem { kind: kind.to_owned(), subject: subject.to_owned(), detail });
    assert(problems_view(list@) =~= problems_view(before).push(problem(kind@, subject@, detail@)));
}

fn check_shards(list: &mut Vec<Problem>, facts: &Vec<ShardFact>)
    ensures
        problems_view(final(list)@) == with_shards(problems_view(old(list)@), facts@),
{
    let ghost start = problems_view(list@);
    let mut i: usize = 0;
    assert(facts@.take(0) =~= Seq::empty());
    while i < facts.len()
        invariant
            i <= facts@.len(),
            problems_view(list@) == with_shards(start, facts@.take(i as int)),
        decreases facts@.len() - i,
    {
        let fact: &ShardFact = &facts[i];
        proof {
            assert(facts@.take(i + 1).drop_last() =~= facts@.take(i as int));
        }
        if !same_text(fact.key.as_str(), fact.canonical.as_str()) {
            let mut detail: String = "shard ".to_owned();
            detail.append(decimal_text(fact.shard as u64).as_str());
            detail.append(" is filed under a key that is not its content hash (expected ");
            detail.append(fact.canonical.as_str());
            detail.append(")");
            report_problem(list, "manifest_shard_key", fact.key.as_str(), detail);
        }
        i += 1;
    }
    assert(facts@.take(i as int) =~= facts@);
}

fn check_predecessor(list: &mut Vec<Problem>, fact: &PredecessorFact)
    ensures
        problems_view(final(list)@) == with_problem(
            problems_view(old(list)@),
            predecessor_problem(*fact),
        ),
{
    match &fact.actual {
        Ok(actual) => {
            if !same_text(actual.as_str(), fact.content_hash.as_str()) {
                let mut detail: String = "the archived whole manifest hashes to ".to_owned();
                detail.append(actual.as_str());
                detail.append(", but the root records ");
                detail.append(fact.content_hash.as_str());
                report_problem(list, "manifest_predecessor", fact.key.as_str(), detail);
            }
        },
        Err(error) => {
            let mut detail: String = "the root names a predecessor at seq ".to_owned();
            detail.append(decimal_text(fact.seq).as_str());
            detail.append(" that cannot be read: ");
            detail.append(error.message().as_str());
            report_problem(list, "manifest_predecessor", fact.key.as_str(), detail);
        },
    }
}

fn check_page(list: &mut Vec<Problem>, fact: &PageFact)
    ensures
        problems_view(final(list)@) == with_page(problems_view(old(list)@), *fact),
{
    match &fact.finding {
        PageFinding::BadPath(what) => {
            report_problem(list, "page_path", fact.path.as_str(), what.clone());
        },
        PageFinding::Walked(end, read) => {
            match end {
                Ok(last) => {
                    let ends_there: bool = match last {
                        Some(id) => same_text(id.as_str(), fact.page_id.as_str()),
                        None => false,
                    };
                    if !ends_there {
                        report_problem(
                            list,
                            "page_chain",
                            fact.path.as_str(),
                            "the chain does not end at the manifest head".to_owned(),
                        );
                    }
                },
                Err(error) => {
                    report_problem(list, "page_chain", fact.path.as_str(), error.message());
                },
            }
            let mut subject: String = fact.path.clone();
            subject.append(" (");
            subject.append(fact.page_id.as_str());
            subject.append(")");
            match read {
                Ok(derived) => {
                    if !same_text(derived.as_str(), fact.page_id.as_str()) {
                        let mut detail: String = "the content hashes to ".to_owned();
                        detail.append(derived.as_str());
                        report_problem(list, "page_version", subject.as_str(), detail);
                    }
                },
                Err(error) => {
                    report_problem(list, "page_version", subject.as_str(), error.message());
                },
            }
        },
    }
}

fn check_pages(list: &mut Vec<Problem>, facts: &Vec<PageFact>)
    ensures
        problems_view(final(list)@) == with_pages(problems_view(old(list)@), facts@),
{
    let ghost start = problems_view(list@);
    let mut i: usize = 0;
    assert(facts@.take(0) =~= Seq::empty());
    while i < facts.len()
        invariant
            i <= facts@.len(),
            problems_view(list@) == with_pages(start, facts@.take(i as int)),
        decreases facts@.len() - i,
    {
        proof {
            assert(facts@.take(i + 1).drop_last() =~= facts@.take(i as int));
        }
        check_page(list, &facts[i]);
        i += 1;
    }
    assert(facts@.take(i as int) =~= facts@);
}

fn check_sessions(list: &mut Vec<Problem>, facts: &Vec<SessionFact>)
    ensures
        problems_view(final(list)@) == with_sessions(problems_view(old(list)@), facts@),
{
    let ghost start = problems_view(list@);
    let mut i: usize = 0;
    assert(facts@.take(0) =~= Seq::empty());
    while i < facts.len()
        invariant
            i <= facts@.len(),
            problems_view(list@) == with_sessions(start, facts@.take(i as int)),
        decreases facts@.len() - i,
    {
        proof {
            assert(facts@.take(i + 1).drop_last() =~= facts@.take(i as int));
        }
        match &facts[i].chain {
            Ok(_) => {},
            Err(error) => {
                report_problem(list, "session_chain", facts[i].session.as_str(), error.message());
            },
        }
        i += 1;
    }
    assert(facts@.take(i as int) =~= facts@);
}

fn check_splits(list: &mut Vec<Problem>, facts: &Vec<SplitFact>)
    ensures
        problems_view(final(list)@) == with_splits(problems_view(old(list)@), facts@),
{
    let ghost start = problems_view(list@);
    let mut i: usize = 0;
    assert(facts@.take(0) =~= Seq::empty());
    while i < facts.len()
        invariant
            i <= facts@.len(),
            problems_view(list@) == with_splits(start, facts@.take(i as int)),
        decreases facts@.len() - i,
    {
        proof {
            assert(facts@.take(i + 1).drop_last() =~= facts@.take(i as int));
        }
        match &facts[i].objects {
            Ok(n) => {
                if *n == 0 {
                    report_problem(
                        list,
                        "split_missing",
                        facts[i].prefix.as_str(),
                        "the catalog references a split with no objects".to_owned(),
                    );
                }
            },
            Err(error) => {
                report_problem(list, "split_unreadable", facts[i].prefix.as_str(), error.message());
            },
        }
        i += 1;
    }
    assert(facts@.take(i as int) =~= facts@);
}

// ---- Failures of the backend --------------------------------------------------------------

/// A failure that says nothing about what is stored: the backend did not answer.
pub open spec fn backend_failure(error: ErrorView) -> Option<ErrorView> {
    if error is Backend {
        Some(error)
    } else {
        None
    }
}

/// The failure of the backend behind a reply.
pub open spec fn failed_reply<T>(reply: Result<T, StoreError>) -> Option<ErrorView> {
    match reply {
        Ok(_) => None,
        Err(error) => backend_failure(error@),
    }
}

/// The earlier of two failures.
pub open spec fn earlier(
    first: Option<ErrorView>,
    second: Option<ErrorView>,
) -> Option<ErrorView> {
    if first is Some {
        first
    } else {
        second
    }
}

/// The first failure of the backend behind a page.
pub open spec fn page_failure(fact: PageFact) -> Option<ErrorView> {
    match fact.finding {
        PageFinding::BadPath(_) => None,
        PageFinding::Walked(end, read) => earlier(failed_reply(end), failed_reply(read)),
    }
}

/// The first failure of the backend behind the pages.
pub open spec fn pages_failure(facts: Seq<PageFact>) -> Option<ErrorView>
    decreases facts.len(),
{
    if facts.len() == 0 {
        None
    } else {
        earlier(pages_failure(facts.drop_last()), page_failure(facts.last()))
    }
}

/// The first failure of the backend behind the sessions.
pub open spec fn sessions_failure(facts: Seq<SessionFact>) -> Option<ErrorView>
    decreases facts.len(),
{
    if facts.len() == 0 {
        None
    } else {
        earlier(sessions_failure(facts.drop_last()), failed_reply(facts.last().chain))
    }
}

/// The first failure of the backend behind the splits.
pub open spec fn splits_failure(facts: Seq<SplitFact>) -> Option<ErrorView>
    decreases facts.len(),
{
    if facts.len() == 0 {
        None
    } else {
        earlier(splits_failure(facts.drop_last()), failed_reply(facts.last().objects))
    }
}

/// The first failure of the backend in a project, in the order of the check.
pub open spec fn project_failure(facts: ProjectFacts) -> Option<ErrorView> {
    let root = match facts.predecessor {
        Some(fact) => failed_reply(fact.actual),
        None => None,
    };
    let sessions = match facts.sessions {
        Ok(found) => sessions_failure(found@),
        Err(error) => backend_failure(error@),
    };
    let splits = match facts.splits {
        Ok(found) => splits_failure(found@),
        Err(error) => backend_failure(error@),
    };
    earlier(earlier(earlier(root, pages_failure(facts.pages@)), sessions), splits)
}

/// What a failure that was found says.
pub open spec fn failure_said(found: Option<StoreError>) -> Option<ErrorView> {
    match found {
        Some(error) => Some(error@),
        None => None,
    }
}

/// The failure behind a reply, when it is the backend's.
pub(crate) fn failure_of<T>(reply: &Result<T, StoreError>) -> (found: Option<StoreError>)
    ensures
        failure_said(found) == failed_reply(*reply),
{
    match reply {
        Err(StoreError::Backend(what)) => Some(StoreError::Backend(what.clone())),
        _ => None,
    }
}

fn failure_of_page(fact: &PageFact) -> (found: Option<StoreError>)
    ensures
        failure_said(found) == page_failure(*fact),
{
    match &fact.finding {
        PageFinding::BadPath(_) => None,
        PageFinding::Walked(end, read) => match failure_of(end) {
            Some(error) => Some(error),
            None => failure_of(read),
        },
    }
}

/// Once a failure is found, what follows does not matter.
proof fn lemma_first_page(facts: Seq<PageFact>, n: int)
    requires
        0 <= n <= facts.len(),
        pages_failure(facts.take(n)) is Some,
    ensures
        pages_failure(facts) == pages_failure(facts.take(n)),
    decreases facts.len() - n,
{
    if n == facts.len() {
        assert(facts.take(n) =~= facts);
    } else {
        assert(facts.take(n + 1).drop_last() =~= facts.take(n));
        lemma_first_page(facts, n + 1);
    }
}

fn failure_of_pages(facts: &Vec<PageFact>) -> (found: Option<StoreError>)
    ensures
        failure_said(found) == pages_failure(facts@),
{
    let mut i: usize = 0;
    assert(facts@.take(0) =~= Seq::empty());
    while i < facts.len()
        invariant
            i <= facts@.len(),
            pages_failure(facts@.take(i as int)) is None,
        decreases facts@.len() - i,
    {
        assert(facts@.take(i + 1).drop_last() =~= facts@.take(i as int));
        if let Some(error) = failure_of_page(&facts[i]) {
            proof {
                lemma_first_page(facts@, i + 1);
            }
            return Some(error);
        }
        i += 1;
    }
    assert(facts@.take(i as int) =~= facts@);
    None
}

/// Once a failure is found, what follows does not matter.
proof fn lemma_first_session(facts: Seq<SessionFact>, n: int)
    requires
        0 <= n <= facts.len(),
        sessions_failure(facts.take(n)) is Some,
    ensures
        sessions_failure(facts) == sessions_failure(facts.take(n)),
    decreases facts.len() - n,
{
    if n == facts.len() {
        assert(facts.take(n) =~= facts);
    } else {
        assert(facts.take(n + 1).drop_last() =~= facts.take(n));
        lemma_first_session(facts, n + 1);
    }
}

fn failure_of_sessions(facts: &Vec<SessionFact>) -> (found: Option<StoreError>)
    ensures
        failure_said(found) == sessions_failure(facts@),
{
    let mut i: usize = 0;
    assert(facts@.take(0) =~= Seq::empty());
    while i < facts.len()
        invariant
            i <= facts@.len(),
            sessions_failure(facts@.take(i as int)) is None,
        decreases facts@.len() - i,
    {
        assert(facts@.take(i + 1).drop_last() =~= facts@.take(i as int));
        if let Some(error) = failure_of(&facts[i].chain) {
            proof {
                lemma_first_session(facts@, i + 1);
            }
            return Some(error);
        }
        i += 1;
    }
    assert(facts@.take(i as int) =~= facts@);
    None
}

/// Once a failure is found, what follows does not matter.
proof fn lemma_first_split(facts: Seq<SplitFact>, n: int)
    requires
        0 <= n <= facts.len(),
        splits_failure(facts.take(n)) is Some,
    ensures
        splits_failure(facts) == splits_failure(facts.take(n)),
    decreases facts.len() - n,
{
    if n == facts.len() {
        assert(facts.take(n) =~= facts);
    } else {
        assert(facts.take(n + 1).drop_last() =~= facts.take(n));
        lemma_first_split(facts, n + 1);
    }
}

fn failure_of_splits(facts: &Vec<SplitFact>) -> (found: Option<StoreError>)
    ensures
        failure_said(found) == splits_failure(facts@),
{
    let mut i: usize = 0;
    assert(facts@.take(0) =~= Seq::empty());
    while i < facts.len()
        invariant
            i <= facts@.len(),
            splits_failure(facts@.take(i as int)) is None,
        decreases facts@.len() - i,
    {
        assert(facts@.take(i + 1).drop_last() =~= facts@.take(i as int));
        if let Some(error) = failure_of(&facts[i].objects) {
            proof {
                lemma_first_split(facts@, i + 1);
            }
            return Some(error);
        }
        i += 1;
    }
    assert(facts@.take(i as int) =~= facts@);
    None
}

/// The first failure of the backend in a project.
fn failure_of_project(facts: &ProjectFacts) -> (found: Option<StoreError>)
    ensures
        failure_said(found) == project_failure(*facts),
{
    if let Some(fact) = &facts.predecessor {
        if let Some(error) = failure_of(&fact.actual) {
            return Some(error);
        }
    }
    if let Some(error) = failure_of_pages(&facts.pages) {
        return Some(error);
    }
    let sessions: Option<StoreError> = match &facts.sessions {
        Ok(found) => failure_of_sessions(found),
        Err(_) => failure_of(&facts.sessions),
    };
    if let Some(error) = sessions {
        return Some(error);
    }
    match &facts.splits {
        Ok(found) => failure_of_splits(found),
        Err(_) => failure_of(&facts.splits),
    }
}

/// The report on a project whose manifest could not be read. A failure of the backend is
/// given back: it says nothing about the project.
pub fn unreadable_project(manifest_key: &str, error: StoreError) -> (checked: Result<
    VerifyReport,
    StoreError,
>)
    ensures
        match checked {
            Err(failure) => error@ is Backend && failure == error,
            Ok(report) => {
                &&& !(error@ is Backend)
                &&& report.manifest_seq == 0
                &&& report.pages == 0
                &&& report.sessions == 0
                &&& report.splits == 0
                &&& report.shards == 0
                &&& problems_view(report.problems@) == seq![
                    problem("manifest"@, manifest_key@, error_message(error@)),
                ]
            },
        },
{
    if let StoreError::Backend(_) = &error {
        return Err(error);
    }
    let mut problems: Vec<Problem> = Vec::new();
    assert(problems_view(problems@) =~= Seq::empty());
    report_problem(&mut problems, "manifest", manifest_key, error.message());
    assert(problems_view(problems@) =~= seq![
        problem("manifest"@, manifest_key@, error_message(error@)),
    ]);
    Ok(VerifyReport { manifest_seq: 0, pages: 0, sessions: 0, splits: 0, shards: 0, problems })
}

/// Whether this is the report on a project in which all this was found; or the first
/// failure of the backend, where it did not answer.
pub open spec fn reported(
    checked: Result<VerifyReport, StoreError>,
    facts: ProjectFacts,
) -> bool {
    match checked {
        Err(failure) => project_failure(facts) == Some(failure@),
        Ok(report) => {
            &&& project_failure(facts) is None
            &&& report.manifest_seq == facts.seq
            &&& report.pages == facts.pages@.len()
            &&& report.shards == facts.shards@.len()
            &&& report.sessions == (match facts.sessions {
                Ok(found) => found@.len(),
                Err(_) => 0,
            })
            &&& report.splits == (match facts.splits {
                Ok(found) => found@.len(),
                Err(_) => 0,
            })
            &&& problems_view(report.problems@) == project_problems(facts)
        },
    }
}

/// The report on a project, from what was found in it; or the first failure of the
/// backend, where it did not answer.
pub fn verify_project(facts: &ProjectFacts) -> (checked: Result<VerifyReport, StoreError>)
    ensures
        reported(checked, *facts),
{
    if let Some(failure) = failure_of_project(facts) {
        return Err(failure);
    }
    let mut problems: Vec<Problem> = Vec::new();
    assert(problems_view(problems@) =~= Seq::empty());
    check_shards(&mut problems, &facts.shards);
    if let Some(fact) = &facts.predecessor {
        check_predecessor(&mut problems, fact);
    }
    check_pages(&mut problems, &facts.pages);
    let sessions: usize = match &facts.sessions {
        Ok(found) => {
            check_sessions(&mut problems, found);
            found.len()
        },
        Err(error) => {
            report_problem(&mut problems, "sessions", facts.session_prefix.as_str(), error.message());
            0
        },
    };
    let splits: usize = match &facts.splits {
        Ok(found) => {
            check_splits(&mut problems, found);
            found.len()
        },
        Err(error) => {
            report_problem(&mut problems, "catalog", facts.catalog_head_key.as_str(), error.message());
            0
        },
    };
    Ok(
        VerifyReport {
            manifest_seq: facts.seq,
            pages: facts.pages.len(),
            sessions,
            splits,
            shards: facts.shards.len(),
            problems,
        },
    )
}

// ---- What a clean report means ------------------------------------------------------------

/// Whether nothing is wrong with a page.
pub open spec fn sound_page(fact: PageFact) -> bool {
    fact.finding matches PageFinding::Walked(end, read) && (read matches Ok(derived) && derived@
        == fact.page_id@) && (end matches Ok(last) && opt_text(last) == Some(fact.page_id@))
}

/// Whether everything that the manifest and the catalog name is there and agrees
/// with itself.
pub open spec fn sound_project(facts: ProjectFacts) -> bool {
    &&& forall|i: int|
        0 <= i < facts.shards@.len() ==> (#[trigger] facts.shards@[i]).key@
            == facts.shards@[i].canonical@
    &&& facts.predecessor matches Some(fact) ==> (fact.actual matches Ok(actual) && actual@
        == fact.content_hash@)
    &&& forall|i: int| 0 <= i < facts.pages@.len() ==> sound_page(#[trigger] facts.pages@[i])
    &&& facts.sessions matches Ok(found) && forall|i: int|
        0 <= i < found@.len() ==> (#[trigger] found@[i]).chain is Ok
    &&& facts.splits matches Ok(found) && forall|i: int|
        0 <= i < found@.len() ==> ((#[trigger] found@[i]).objects matches Ok(n) && n > 0)
}

proof fn lemma_shards(list: Seq<ProblemView>, facts: Seq<ShardFact>)
    ensures
        with_shards(list, facts).len() == 0 <==> list.len() == 0 && forall|i: int|
            0 <= i < facts.len() ==> (#[trigger] facts[i]).key@ == facts[i].canonical@,
    decreases facts.len(),
{
    if facts.len() > 0 {
        lemma_shards(list, facts.drop_last());
        assert forall|i: int| 0 <= i < facts.drop_last().len() implies facts.drop_last()[i]
            == facts[i] by {}
        assert(facts.last() == facts[facts.len() - 1]);
        if with_shards(list, facts).len() == 0 {
            assert forall|i: int| 0 <= i < facts.len() implies (#[trigger] facts[i]).key@
                == facts[i].canonical@ by {
                if i < facts.len() - 1 {
                    assert(facts.drop_last()[i].key@ == facts.drop_last()[i].canonical@);
                }
            }
        }
    }
}

proof fn lemma_pages(list: Seq<ProblemView>, facts: Seq<PageFact>)
    ensures
        with_pages(list, facts).len() == 0 <==> list.len() == 0 && forall|i: int|
            0 <= i < facts.len() ==> sound_page(#[trigger] facts[i]),
    decreases facts.len(),
{
    if facts.len() > 0 {
        lemma_pages(list, facts.drop_last());
        assert(facts.last() == facts[facts.len() - 1]);
        if with_pages(list, facts).len() == 0 {
            assert forall|i: int| 0 <= i < facts.len() implies sound_page(#[trigger] facts[i]) by {
                if i < facts.len() - 1 {
                    assert(sound_page(facts.drop_last()[i]));
                }
            }
        } else if list.len() == 0 && (forall|i: int|
            0 <= i < facts.len() ==> sound_page(#[trigger] facts[i])) {
            assert(sound_page(facts[facts.len() - 1]));
            assert forall|i: int| 0 <= i < facts.drop_last().len() implies sound_page(
                #[trigger] facts.drop_last()[i],
            ) by {
                assert(sound_page(facts[i]));
            }
        }
    }
}

proof fn lemma_sessions(list: Seq<ProblemView>, facts: Seq<SessionFact>)
    ensures
        with_sessions(list, facts).len() == 0 <==> list.len() == 0 && forall|i: int|
            0 <= i < facts.len() ==> (#[trigger] facts[i]).chain is Ok,
    decreases facts.len(),
{
    if facts.len() > 0 {
        lemma_sessions(list, facts.drop_last());
        assert(facts.last() == facts[facts.len() - 1]);
        if with_sessions(list, facts).len() == 0 {
            assert forall|i: int| 0 <= i < facts.len() implies (#[trigger] facts[i]).chain is Ok by {
                if i < facts.len() - 1 {
                    assert(facts.drop_last()[i].chain is Ok);
                }
            }
        } else if list.len() == 0 && (forall|i: int|
            0 <= i < facts.len() ==> (#[trigger] facts[i]).chain is Ok) {
            assert(facts[facts.len() - 1].chain is Ok);
        }
    }
}

proof fn lemma_splits(list: Seq<ProblemView>, facts: Seq<SplitFact>)
    ensures
        with_splits(list, facts).len() == 0 <==> list.len() == 0 && forall|i: int|
            0 <= i < facts.len() ==> ((#[trigger] facts[i]).objects matches Ok(n) && n > 0),
    decreases facts.len(),
{
    if facts.len() > 0 {
        lemma_splits(list, facts.drop_last());
        assert(facts.last() == facts[facts.len() - 1]);
        if with_splits(list, facts).len() == 0 {
            assert forall|i: int| 0 <= i < facts.len() implies ((
            #[trigger] facts[i]).objects matches Ok(n) && n > 0) by {
                if i < facts.len() - 1 {
                    let f = facts.drop_last()[i];
                    assert(f.objects matches Ok(n) && n > 0);
                }
            }
        } else if list.len() == 0 && (forall|i: int|
            0 <= i < facts.len() ==> ((#[trigger] facts[i]).objects matches Ok(n) && n > 0)) {
            assert(facts[facts.len() - 1].objects matches Ok(n) && n > 0);
        }
    }
}

/// A report without problems means that everything the manifest and the catalog
/// name is there and agrees with itself, and only that is reported clean.
pub proof fn law_a_clean_report_means_a_sound_project(facts: ProjectFacts)
    ensures
        project_problems(facts).len() == 0 <==> sound_project(facts),
{
    lemma_shards(Seq::empty(), facts.shards@);
    let root = root_problems(facts);
    lemma_pages(root, facts.pages@);
    let pages = with_pages(root, facts.pages@);
    if let Ok(found) = facts.sessions {
        lemma_sessions(pages, found@);
    }
    let sessions = with_session_facts(pages, facts);
    if let Ok(found) = facts.splits {
        lemma_splits(sessions, found@);
    }
}

/// Whether a list of problems names a subject.
pub open spec fn names_subject(list: Seq<ProblemView>, subject: Seq<char>) -> bool {
    exists|i: int| 0 <= i < list.len() && (#[trigger] list[i]).subject == subject
}

proof fn lemma_problem_stays(
    list: Seq<ProblemView>,
    found: Option<ProblemView>,
    subject: Seq<char>,
)
    requires
        names_subject(list, subject),
    ensures
        names_subject(with_problem(list, found), subject),
{
    let k = choose|k: int| 0 <= k < list.len() && (#[trigger] list[k]).subject == subject;
    assert(with_problem(list, found)[k].subject == subject);
}

proof fn lemma_pages_stay(list: Seq<ProblemView>, facts: Seq<PageFact>, subject: Seq<char>)
    requires
        names_subject(list, subject),
    ensures
        names_subject(with_pages(list, facts), subject),
    decreases facts.len(),
{
    if facts.len() > 0 {
        let before = with_pages(list, facts.drop_last());
        lemma_pages_stay(list, facts.drop_last(), subject);
        match facts.last().finding {
            PageFinding::BadPath(what) => {
                lemma_problem_stays(
                    before,
                    Some(problem("page_path"@, facts.last().path@, what@)),
                    subject,
                );
            },
            PageFinding::Walked(end, read) => {
                let chain = chain_problem(facts.last().path@, facts.last().page_id@, end);
                let version = version_problem(facts.last().path@, facts.last().page_id@, read);
                lemma_problem_stays(before, chain, subject);
                lemma_problem_stays(with_problem(before, chain), version, subject);
            },
        }
    }
}

proof fn lemma_page_named(list: Seq<ProblemView>, facts: Seq<PageFact>, at: int)
    requires
        0 <= at < facts.len(),
        facts[at].finding matches PageFinding::Walked(_, Ok(derived)) && derived@
            != facts[at].page_id@,
    ensures
        names_subject(
            with_pages(list, facts),
            facts[at].path@ + " ("@ + facts[at].page_id@ + ")"@,
        ),
    decreases facts.len(),
{
    let fact = facts[at];
    let subject = fact.path@ + " ("@ + fact.page_id@ + ")"@;
    let upto = with_pages(list, facts.drop_last());
    if at == facts.len() - 1 {
        let last = with_pages(list, facts);
        assert(last[last.len() - 1].subject == subject);
    } else {
        assert(facts.drop_last()[at] == fact);
        lemma_page_named(list, facts.drop_last(), at);
        lemma_pages_stay(upto, seq![facts.last()], subject);
        assert(seq![facts.last()].drop_last() =~= Seq::empty());
        assert(with_pages(upto, seq![facts.last()].drop_last()) == upto);
    }
}

proof fn lemma_sessions_stay(list: Seq<ProblemView>, facts: Seq<SessionFact>, subject: Seq<char>)
    requires
        names_subject(list, subject),
    ensures
        names_subject(with_sessions(list, facts), subject),
    decreases facts.len(),
{
    if facts.len() > 0 {
        lemma_sessions_stay(list, facts.drop_last(), subject);
        lemma_problem_stays(
            with_sessions(list, facts.drop_last()),
            session_problem(facts.last()),
            subject,
        );
    }
}

proof fn lemma_splits_stay(list: Seq<ProblemView>, facts: Seq<SplitFact>, subject: Seq<char>)
    requires
        names_subject(list, subject),
    ensures
        names_subject(with_splits(list, facts), subject),
    decreases facts.len(),
{
    if facts.len() > 0 {
        lemma_splits_stay(list, facts.drop_last(), subject);
        lemma_problem_stays(
            with_splits(list, facts.drop_last()),
            split_problem(facts.last()),
            subject,
        );
    }
}

/// A live page whose content does not give it the id that the manifest names is
/// reported, with its path and that id.
pub proof fn law_altered_content_is_reported(facts: ProjectFacts, at: int)
    requires
        0 <= at < facts.pages@.len(),
        facts.pages@[at].finding matches PageFinding::Walked(_, Ok(derived)) && derived@
            != facts.pages@[at].page_id@,
    ensures
        names_subject(
            project_problems(facts),
            facts.pages@[at].path@ + " ("@ + facts.pages@[at].page_id@ + ")"@,
        ),
{
    let subject = facts.pages@[at].path@ + " ("@ + facts.pages@[at].page_id@ + ")"@;
    lemma_page_named(root_problems(facts), facts.pages@, at);
    let pages = with_pages(root_problems(facts), facts.pages@);
    match facts.sessions {
        Ok(found) => {
            lemma_sessions_stay(pages, found@, subject);
        },
        Err(error) => {
            lemma_problem_stays(
                pages,
                Some(problem("sessions"@, facts.session_prefix@, error_message(error@))),
                subject,
            );
        },
    }
    let sessions = with_session_facts(pages, facts);
    match facts.splits {
        Ok(found) => {
            lemma_splits_stay(sessions, found@, subject);
        },
        Err(error) => {
            lemma_problem_stays(
                sessions,
                Some(problem("catalog"@, facts.catalog_head_key@, error_message(error@))),
                subject,
            );
        },
    }
}

} // verus!
