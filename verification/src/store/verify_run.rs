//! An integrity check under way: which pages, sessions and splits are looked into, in
//! which order, and when it is over. What was found is gathered and reported at the end; a
//! backend that fails to answer ends the check at once.

use vstd::prelude::*;

use crate::store::records::Manifest;
use crate::store::verify::{
    failure_of, problems_view, project_failure, project_problems, reported,
    sound_page, verify_project, PageFact, PageFinding, PredecessorFact, ProjectFacts,
    SessionFact, ShardFact, SplitFact, VerifyReport,
};
use crate::store::version::StoreError;

verus! {

/// How far a check has come.
#[derive(Debug)]
pub enum VerifyStage {
    /// The path of the next page is being looked at.
    Path,
    /// The versions of that page are being walked.
    Walk,
    /// Its current version is being read; the walk ended at this one.
    Read(Result<Option<String>, StoreError>),
    /// The sessions are being listed.
    Sessions,
    /// The chain of the next session is being read.
    Session,
    /// The catalog is being read.
    Catalog,
    /// The objects of the next split are being listed.
    Split,
    /// Nothing more to do.
    Done,
}

/// A check under way.
#[derive(Debug)]
pub struct VerifyRun {
    /// Manifest that is checked.
    pub manifest: Manifest,
    /// Sessions that were listed.
    pub sessions: Vec<String>,
    /// Prefixes of the splits that the catalog names.
    pub splits: Vec<String>,
    /// What was found so far.
    pub facts: ProjectFacts,
    /// How far it has come.
    pub stage: VerifyStage,
}

/// What happened.
#[derive(Debug)]
pub enum VerifyEvent {
    /// Whether the path is one, or what was told about it.
    Path(Result<(), String>),
    /// The versions of the page were walked: their ids, the oldest first.
    Walked(Result<Vec<String>, StoreError>),
    /// The current version was read: the id that its content gives it.
    Read(Result<String, StoreError>),
    /// The sessions were listed.
    Sessions(Result<Vec<String>, StoreError>),
    /// The chain of a session was read.
    Session(Result<(), StoreError>),
    /// The catalog was read: the prefixes of its splits.
    Catalog(Result<Vec<String>, StoreError>),
    /// The objects of a split were counted.
    Split(Result<usize, StoreError>),
}

/// What to do next.
#[derive(Debug)]
pub enum VerifyAction {
    /// Look whether this is a path.
    CheckPath(String),
    /// Walk the versions of the page at this path, back from this one.
    Walk(String, String),
    /// Read this version of the page at this path.
    Read(String, String),
    /// List the sessions.
    ListSessions,
    /// Read the chain of this session.
    ReadSession(String),
    /// Read the catalog.
    LoadCatalog,
    /// Count the objects under this prefix.
    ListSplit(String),
    /// It is over.
    Finish(Result<VerifyReport, StoreError>),
}

/// The version that a walk ended at.
pub open spec fn end_of(walk: Result<Vec<String>, StoreError>) -> Result<
    Option<String>,
    StoreError,
> {
    match walk {
        Ok(ids) => if ids@.len() == 0 {
            Ok(None)
        } else {
            Ok(Some(ids@.last()))
        },
        Err(error) => Err(error),
    }
}

// ---- What a run holds -------------------------------------------------------------------

/// Whether the facts are about the first pages of the manifest, one for each.
pub open spec fn about_pages(run: VerifyRun) -> bool {
    &&& run.facts.pages@.len() <= run.manifest.pages.entries@.len()
    &&& forall|i: int|
        0 <= i < run.facts.pages@.len() ==> (#[trigger] run.facts.pages@[i]).path@
            == run.manifest.pages.entries@[i].0@ && run.facts.pages@[i].page_id@
            == run.manifest.pages.entries@[i].1.page_id@
}

/// Whether the facts are about the first sessions that were listed, one for each.
pub open spec fn about_sessions(found: Seq<SessionFact>, sessions: Seq<String>) -> bool {
    &&& found.len() <= sessions.len()
    &&& forall|i: int|
        0 <= i < found.len() ==> (#[trigger] found[i]).session@ == sessions[i]@
}

/// Whether the facts are about the first splits of the catalog, one for each.
pub open spec fn about_splits(found: Seq<SplitFact>, splits: Seq<String>) -> bool {
    &&& found.len() <= splits.len()
    &&& forall|i: int| 0 <= i < found.len() ==> (#[trigger] found[i]).prefix@ == splits[i]@
}

/// Whether nothing was found about the sessions yet.
pub open spec fn before_sessions(run: VerifyRun) -> bool {
    &&& run.sessions@.len() == 0
    &&& run.facts.sessions matches Ok(found) && found@.len() == 0
}

/// Whether nothing was found about the splits yet.
pub open spec fn before_splits(run: VerifyRun) -> bool {
    &&& run.splits@.len() == 0
    &&& run.facts.splits matches Ok(found) && found@.len() == 0
}

/// Whether there is a fact for every page of the manifest.
pub open spec fn all_pages(run: VerifyRun) -> bool {
    run.facts.pages@.len() == run.manifest.pages.entries@.len()
}

/// Whether there is a fact for every session, where they could be listed.
pub open spec fn all_sessions(run: VerifyRun) -> bool {
    run.facts.sessions matches Ok(found) ==> found@.len() == run.sessions@.len()
}

/// Whether there is a fact for every split, where the catalog could be read.
pub open spec fn all_splits(run: VerifyRun) -> bool {
    run.facts.splits matches Ok(found) ==> found@.len() == run.splits@.len()
}

impl VerifyRun {
    /// Whether what was found is about what is named, in its order.
    pub open spec fn gathered(&self) -> bool {
        &&& self.facts.seq == self.manifest.seq
        &&& about_pages(*self)
        &&& self.facts.sessions matches Ok(found) ==> about_sessions(found@, self.sessions@)
        &&& self.facts.splits matches Ok(found) ==> about_splits(found@, self.splits@)
    }

    /// Whether everything that is named was looked into.
    pub open spec fn complete(&self) -> bool {
        self.gathered() && all_pages(*self) && all_sessions(*self) && all_splits(*self)
    }

    /// Validity. A check that goes on has met no failure of the backend.
    pub open spec fn wf(&self) -> bool {
        &&& self.gathered()
        &&& !(self.stage is Done) ==> project_failure(self.facts) is None
        &&& match self.stage {
            VerifyStage::Path | VerifyStage::Walk | VerifyStage::Read(_) => !all_pages(*self)
                && before_sessions(*self) && before_splits(*self),
            VerifyStage::Sessions => all_pages(*self) && before_sessions(*self) && before_splits(
                *self,
            ),
            VerifyStage::Session => all_pages(*self) && self.facts.sessions is Ok
                && !all_sessions(*self) && before_splits(*self),
            VerifyStage::Catalog => all_pages(*self) && all_sessions(*self) && before_splits(
                *self,
            ),
            VerifyStage::Split => all_pages(*self) && all_sessions(*self)
                && self.facts.splits is Ok && !all_splits(*self),
            VerifyStage::Done => true,
        }
    }

    /// Whether the run waits for such an event.
    pub open spec fn awaits(&self, event: VerifyEvent) -> bool {
        match self.stage {
            VerifyStage::Path => event is Path,
            VerifyStage::Walk => event is Walked,
            VerifyStage::Read(_) => event is Read,
            VerifyStage::Sessions => event is Sessions,
            VerifyStage::Session => event is Session,
            VerifyStage::Catalog => event is Catalog,
            VerifyStage::Split => event is Split,
            VerifyStage::Done => false,
        }
    }
}

// ---- How it goes on ---------------------------------------------------------------------

/// What follows the pages found so far.
pub open spec fn page_turn(run: VerifyRun) -> VerifyStage {
    if project_failure(run.facts) is Some {
        VerifyStage::Done
    } else if all_pages(run) {
        VerifyStage::Sessions
    } else {
        VerifyStage::Path
    }
}

/// What follows the sessions found so far.
pub open spec fn session_turn(run: VerifyRun) -> VerifyStage {
    if project_failure(run.facts) is Some {
        VerifyStage::Done
    } else if all_sessions(run) {
        VerifyStage::Catalog
    } else {
        VerifyStage::Session
    }
}

/// What follows the splits found so far.
pub open spec fn split_turn(run: VerifyRun) -> VerifyStage {
    if project_failure(run.facts) is Some || all_splits(run) {
        VerifyStage::Done
    } else {
        VerifyStage::Split
    }
}

/// Whether a page was added to what was found.
pub open spec fn page_added(run: VerifyRun, finding: PageFinding, after: VerifyRun) -> bool {
    let n = run.facts.pages@.len() as int;
    &&& after == (VerifyRun { facts: after.facts, stage: page_turn(after), ..run })
    &&& after.facts == (ProjectFacts { pages: after.facts.pages, ..run.facts })
    &&& after.facts.pages@.len() == n + 1
    &&& after.facts.pages@.take(n) == run.facts.pages@
    &&& after.facts.pages@[n].path@ == run.manifest.pages.entries@[n].0@
    &&& after.facts.pages@[n].page_id@ == run.manifest.pages.entries@[n].1.page_id@
    &&& after.facts.pages@[n].finding == finding
}

/// Whether a session was added to what was found.
pub open spec fn session_added(
    run: VerifyRun,
    chain: Result<(), StoreError>,
    after: VerifyRun,
) -> bool {
    let before = run.facts.sessions->Ok_0@;
    &&& after == (VerifyRun { facts: after.facts, stage: session_turn(after), ..run })
    &&& after.facts == (ProjectFacts { sessions: after.facts.sessions, ..run.facts })
    &&& after.facts.sessions matches Ok(found) && {
        &&& found@.len() == before.len() + 1
        &&& found@.drop_last() == before
        &&& found@.last().session@ == run.sessions@[before.len() as int]@
        &&& found@.last().chain == chain
    }
}

/// Whether a split was added to what was found.
pub open spec fn split_added(
    run: VerifyRun,
    objects: Result<usize, StoreError>,
    after: VerifyRun,
) -> bool {
    let before = run.facts.splits->Ok_0@;
    &&& after == (VerifyRun { facts: after.facts, stage: split_turn(after), ..run })
    &&& after.facts == (ProjectFacts { splits: after.facts.splits, ..run.facts })
    &&& after.facts.splits matches Ok(found) && {
        &&& found@.len() == before.len() + 1
        &&& found@.drop_last() == before
        &&& found@.last().prefix@ == run.splits@[before.len() as int]@
        &&& found@.last().objects == objects
    }
}

/// How a check goes on. A path that is none is not walked; sessions that cannot be listed
/// and a catalog that cannot be read are what was found about them.
pub open spec fn verify_on(run: VerifyRun, event: VerifyEvent, after: VerifyRun) -> bool {
    match (run.stage, event) {
        (VerifyStage::Path, VerifyEvent::Path(Ok(_))) => after == (VerifyRun {
            stage: VerifyStage::Walk,
            ..run
        }),
        (VerifyStage::Path, VerifyEvent::Path(Err(why))) => page_added(
            run,
            PageFinding::BadPath(why),
            after,
        ),
        (VerifyStage::Walk, VerifyEvent::Walked(walk)) => after == (VerifyRun {
            stage: VerifyStage::Read(end_of(walk)),
            ..run
        }),
        (VerifyStage::Read(end), VerifyEvent::Read(read)) => page_added(
            run,
            PageFinding::Walked(end, read),
            after,
        ),
        (VerifyStage::Sessions, VerifyEvent::Sessions(Ok(names))) => after == (VerifyRun {
            sessions: names,
            stage: session_turn(after),
            ..run
        }),
        (VerifyStage::Sessions, VerifyEvent::Sessions(Err(error))) => after == (VerifyRun {
            facts: ProjectFacts { sessions: Err(error), ..run.facts },
            stage: session_turn(after),
            ..run
        }),
        (VerifyStage::Session, VerifyEvent::Session(chain)) => session_added(run, chain, after),
        (VerifyStage::Catalog, VerifyEvent::Catalog(Ok(prefixes))) => after == (VerifyRun {
            splits: prefixes,
            stage: split_turn(after),
            ..run
        }),
        (VerifyStage::Catalog, VerifyEvent::Catalog(Err(error))) => after == (VerifyRun {
            facts: ProjectFacts { splits: Err(error), ..run.facts },
            stage: split_turn(after),
            ..run
        }),
        (VerifyStage::Split, VerifyEvent::Split(objects)) => split_added(run, objects, after),
        _ => false,
    }
}

/// What a run asks for. A check that is over gives the report on what was found, and no
/// report but on everything that is named.
pub open spec fn verify_asks(run: VerifyRun, action: VerifyAction) -> bool {
    let n = run.facts.pages@.len() as int;
    match run.stage {
        VerifyStage::Path => action matches VerifyAction::CheckPath(path) && path@
            == run.manifest.pages.entries@[n].0@,
        VerifyStage::Walk => action matches VerifyAction::Walk(path, page_id) && path@
            == run.manifest.pages.entries@[n].0@ && page_id@
            == run.manifest.pages.entries@[n].1.page_id@,
        VerifyStage::Read(_) => action matches VerifyAction::Read(path, page_id) && path@
            == run.manifest.pages.entries@[n].0@ && page_id@
            == run.manifest.pages.entries@[n].1.page_id@,
        VerifyStage::Sessions => action is ListSessions,
        VerifyStage::Session => action matches VerifyAction::ReadSession(session) && session@
            == run.sessions@[run.facts.sessions->Ok_0@.len() as int]@,
        VerifyStage::Catalog => action is LoadCatalog,
        VerifyStage::Split => action matches VerifyAction::ListSplit(prefix) && prefix@
            == run.splits@[run.facts.splits->Ok_0@.len() as int]@,
        VerifyStage::Done => action matches VerifyAction::Finish(checked) && reported(
            checked,
            run.facts,
        ) && (checked is Ok ==> run.complete()),
    }
}

impl VerifyRun {
    /// The path and the current version of the page that is next.
    fn head(&self) -> (head: (String, String))
        requires
            about_pages(*self),
            !all_pages(*self),
        ensures
            head.0@ == self.manifest.pages.entries@[self.facts.pages@.len() as int].0@,
            head.1@ == self.manifest.pages.entries@[self.facts.pages@.len() as int].1.page_id@,
    {
        let entry = &self.manifest.pages.entries[self.facts.pages.len()];
        (entry.0.clone(), entry.1.page_id.clone())
    }

    /// The check is over.
    fn finish(self) -> (next: (VerifyRun, VerifyAction))
        requires
            self.gathered(),
            project_failure(self.facts) is Some || self.complete(),
        ensures
            next.0 == (VerifyRun { stage: VerifyStage::Done, ..self }),
            next.0.wf(),
            verify_asks(next.0, next.1),
    {
        let mut run: VerifyRun = self;
        let checked: Result<VerifyReport, StoreError> = verify_project(&run.facts);
        run.stage = VerifyStage::Done;
        (run, VerifyAction::Finish(checked))
    }

    /// Goes on after the pages found so far.
    fn turn_page(self, failed: bool) -> (next: (VerifyRun, VerifyAction))
        requires
            self.gathered(),
            before_sessions(self),
            before_splits(self),
            failed == (project_failure(self.facts) is Some),
        ensures
            next.0 == (VerifyRun { stage: page_turn(self), ..self }),
            next.0.wf(),
            verify_asks(next.0, next.1),
    {
        if failed {
            return self.finish();
        }
        let mut run: VerifyRun = self;
        if run.facts.pages.len() == run.manifest.pages.entries.len() {
            run.stage = VerifyStage::Sessions;
            (run, VerifyAction::ListSessions)
        } else {
            let head: (String, String) = run.head();
            run.stage = VerifyStage::Path;
            (run, VerifyAction::CheckPath(head.0))
        }
    }

    /// Goes on after the sessions found so far.
    fn turn_session(self, failed: bool) -> (next: (VerifyRun, VerifyAction))
        requires
            self.gathered(),
            all_pages(self),
            before_splits(self),
            failed == (project_failure(self.facts) is Some),
        ensures
            next.0 == (VerifyRun { stage: session_turn(self), ..self }),
            next.0.wf(),
            verify_asks(next.0, next.1),
    {
        if failed {
            return self.finish();
        }
        let mut run: VerifyRun = self;
        if let Ok(found) = &run.facts.sessions {
            if found.len() < run.sessions.len() {
                let session: String = run.sessions[found.len()].clone();
                run.stage = VerifyStage::Session;
                return (run, VerifyAction::ReadSession(session));
            }
        }
        run.stage = VerifyStage::Catalog;
        (run, VerifyAction::LoadCatalog)
    }

    /// Goes on after the splits found so far.
    fn turn_split(self, failed: bool) -> (next: (VerifyRun, VerifyAction))
        requires
            self.gathered(),
            all_pages(self),
            all_sessions(self),
            failed == (project_failure(self.facts) is Some),
        ensures
            next.0 == (VerifyRun { stage: split_turn(self), ..self }),
            next.0.wf(),
            verify_asks(next.0, next.1),
    {
        if failed {
            return self.finish();
        }
        let mut run: VerifyRun = self;
        if let Ok(found) = &run.facts.splits {
            if found.len() < run.splits.len() {
                let prefix: String = run.splits[found.len()].clone();
                run.stage = VerifyStage::Split;
                return (run, VerifyAction::ListSplit(prefix));
            }
        }
        run.finish()
    }

    /// Adds what was found behind the page that is next.
    fn add_page(self, finding: PageFinding) -> (next: (VerifyRun, VerifyAction))
        requires
            self.gathered(),
            !all_pages(self),
            before_sessions(self),
            before_splits(self),
            project_failure(self.facts) is None,
        ensures
            page_added(self, finding, next.0),
            next.0.wf(),
            verify_asks(next.0, next.1),
    {
        let failed: bool = match &finding {
            PageFinding::BadPath(_) => false,
            PageFinding::Walked(end, read) => failure_of(end).is_some() || failure_of(
                read,
            ).is_some(),
        };
        let mut run: VerifyRun = self;
        let head: (String, String) = run.head();
        let ghost before = run.facts.pages@;
        run.facts.pages.push(PageFact { path: head.0, page_id: head.1, finding });
        proof {
            assert(run.facts.pages@.drop_last() =~= before);
            assert(run.facts.pages@.take(before.len() as int) =~= before);
        }
        run.turn_page(failed)
    }

    /// Adds what was found behind the session that is next.
    fn add_session(self, chain: Result<(), StoreError>) -> (next: (VerifyRun, VerifyAction))
        requires
            self.gathered(),
            all_pages(self),
            self.facts.sessions is Ok,
            !all_sessions(self),
            before_splits(self),
            project_failure(self.facts) is None,
        ensures
            session_added(self, chain, next.0),
            next.0.wf(),
            verify_asks(next.0, next.1),
    {
        let failed: bool = failure_of(&chain).is_some();
        let VerifyRun { manifest, sessions, splits, facts, stage } = self;
        let ProjectFacts {
            seq,
            shards,
            predecessor,
            pages,
            session_prefix,
            sessions: gathered,
            catalog_head_key,
            splits: gathered_splits,
        } = facts;
        let mut found: Vec<SessionFact> = match gathered {
            Ok(found) => found,
            Err(_) => Vec::new(),
        };
        let ghost before = found@;
        let session: String = sessions[found.len()].clone();
        found.push(SessionFact { session, chain });
        assert(found@.drop_last() =~= before);
        let run = VerifyRun {
            manifest,
            sessions,
            splits,
            facts: ProjectFacts {
                seq,
                shards,
                predecessor,
                pages,
                session_prefix,
                sessions: Ok(found),
                catalog_head_key,
                splits: gathered_splits,
            },
            stage,
        };
        run.turn_session(failed)
    }

    /// Adds what was found behind the split that is next.
    fn add_split(self, objects: Result<usize, StoreError>) -> (next: (VerifyRun, VerifyAction))
        requires
            self.gathered(),
            all_pages(self),
            all_sessions(self),
            self.facts.splits is Ok,
            !all_splits(self),
            project_failure(self.facts) is None,
        ensures
            split_added(self, objects, next.0),
            next.0.wf(),
            verify_asks(next.0, next.1),
    {
        let failed: bool = failure_of(&objects).is_some();
        let VerifyRun { manifest, sessions, splits, facts, stage } = self;
        let ProjectFacts {
            seq,
            shards,
            predecessor,
            pages,
            session_prefix,
            sessions: gathered_sessions,
            catalog_head_key,
            splits: gathered,
        } = facts;
        let mut found: Vec<SplitFact> = match gathered {
            Ok(found) => found,
            Err(_) => Vec::new(),
        };
        let ghost before = found@;
        let prefix: String = splits[found.len()].clone();
        found.push(SplitFact { prefix, objects });
        assert(found@.drop_last() =~= before);
        let run = VerifyRun {
            manifest,
            sessions,
            splits,
            facts: ProjectFacts {
                seq,
                shards,
                predecessor,
                pages,
                session_prefix,
                sessions: gathered_sessions,
                catalog_head_key,
                splits: Ok(found),
            },
            stage,
        };
        run.turn_split(failed)
    }

    /// A check of the project with this manifest begins. `shards` and `predecessor` are
    /// what was found behind the manifest itself.
    pub fn start(
        manifest: Manifest,
        shards: Vec<ShardFact>,
        predecessor: Option<PredecessorFact>,
        session_prefix: String,
        catalog_head_key: String,
    ) -> (next: (VerifyRun, VerifyAction))
        ensures
            next.0.manifest == manifest,
            next.0.facts.shards == shards,
            next.0.facts.predecessor == predecessor,
            next.0.facts.session_prefix == session_prefix,
            next.0.facts.catalog_head_key == catalog_head_key,
            next.0.facts.pages@.len() == 0,
            before_sessions(next.0),
            before_splits(next.0),
            next.0.stage == page_turn(next.0),
            next.0.wf(),
            verify_asks(next.0, next.1),
    {
        let failed: bool = match &predecessor {
            Some(fact) => failure_of(&fact.actual).is_some(),
            None => false,
        };
        let seq: u64 = manifest.seq;
        let run = VerifyRun {
            manifest,
            sessions: Vec::new(),
            splits: Vec::new(),
            facts: ProjectFacts {
                seq,
                shards,
                predecessor,
                pages: Vec::new(),
                session_prefix,
                sessions: Ok(Vec::new()),
                catalog_head_key,
                splits: Ok(Vec::new()),
            },
            stage: VerifyStage::Path,
        };
        run.turn_page(failed)
    }

    /// The check goes on.
    pub fn next(self, event: VerifyEvent) -> (next: (VerifyRun, VerifyAction))
        requires
            self.wf(),
            self.awaits(event),
        ensures
            verify_on(self, event, next.0),
            next.0.wf(),
            verify_asks(next.0, next.1),
    {
        match event {
            VerifyEvent::Path(Ok(_)) => {
                let mut run: VerifyRun = self;
                let head: (String, String) = run.head();
                run.stage = VerifyStage::Walk;
                (run, VerifyAction::Walk(head.0, head.1))
            },
            VerifyEvent::Path(Err(why)) => self.add_page(PageFinding::BadPath(why)),
            VerifyEvent::Walked(walk) => {
                let end: Result<Option<String>, StoreError> = match walk {
                    Ok(ids) => {
                        let mut left: Vec<String> = ids;
                        Ok(left.pop())
                    },
                    Err(error) => Err(error),
                };
                let mut run: VerifyRun = self;
                let head: (String, String) = run.head();
                run.stage = VerifyStage::Read(end);
                (run, VerifyAction::Read(head.0, head.1))
            },
            VerifyEvent::Read(read) => {
                let VerifyRun { manifest, sessions, splits, facts, stage } = self;
                let end: Result<Option<String>, StoreError> = match stage {
                    VerifyStage::Read(end) => end,
                    _ => Ok(None),
                };
                let run = VerifyRun {
                    manifest,
                    sessions,
                    splits,
                    facts,
                    stage: VerifyStage::Path,
                };
                run.add_page(PageFinding::Walked(end, read))
            },
            VerifyEvent::Sessions(Ok(names)) => {
                let mut run: VerifyRun = self;
                run.sessions = names;
                run.turn_session(false)
            },
            VerifyEvent::Sessions(Err(error)) => {
                let mut run: VerifyRun = self;
                run.facts.sessions = Err(error);
                let failed: bool = failure_of(&run.facts.sessions).is_some();
                run.turn_session(failed)
            },
            VerifyEvent::Session(chain) => self.add_session(chain),
            VerifyEvent::Catalog(Ok(prefixes)) => {
                let mut run: VerifyRun = self;
                run.splits = prefixes;
                run.turn_split(false)
            },
            VerifyEvent::Catalog(Err(error)) => {
                let mut run: VerifyRun = self;
                run.facts.splits = Err(error);
                let failed: bool = failure_of(&run.facts.splits).is_some();
                run.turn_split(failed)
            },
            VerifyEvent::Split(objects) => self.add_split(objects),
        }
    }
}

// ---- What a clean check means -----------------------------------------------------------

/// A check that ends in a report without problems has looked into every live page of the
/// manifest, every session and every split of the catalog: the versions of each page walk
/// to the current one, its content gives it its id, every chain can be read, and every
/// split has objects.
pub proof fn law_a_clean_check_leaves_nothing_out(run: VerifyRun, report: VerifyReport)
    requires
        run.stage is Done,
        verify_asks(run, VerifyAction::Finish(Ok(report))),
        report.problems@.len() == 0,
    ensures
        report.pages == run.manifest.pages.entries@.len(),
        forall|i: int|
            0 <= i < run.manifest.pages.entries@.len() ==> {
                &&& (#[trigger] run.facts.pages@[i]).path@ == run.manifest.pages.entries@[i].0@
                &&& run.facts.pages@[i].page_id@ == run.manifest.pages.entries@[i].1.page_id@
                &&& sound_page(run.facts.pages@[i])
            },
        report.sessions == run.sessions@.len(),
        run.facts.sessions matches Ok(found) && forall|i: int|
            0 <= i < run.sessions@.len() ==> (#[trigger] found@[i]).session@ == run.sessions@[i]@
                && found@[i].chain is Ok,
        report.splits == run.splits@.len(),
        run.facts.splits matches Ok(found) && forall|i: int|
            0 <= i < run.splits@.len() ==> (#[trigger] found@[i]).prefix@ == run.splits@[i]@
                && (found@[i].objects matches Ok(n) && n > 0),
{
    assert(problems_view(report.problems@).len() == 0);
    assert(project_problems(run.facts).len() == 0);
    crate::store::verify::law_a_clean_report_means_a_sound_project(run.facts);
}

} // verus!
