//! Rebuilding the index of a project from its pages.
//!
//! It holds a lease, rebuilds one split from the pages that the manifest still names, and
//! swaps the catalog in one step. No search needs it to have run: it shrinks the set of
//! splits and drops what was superseded or deleted.

use vstd::prelude::*;

use crate::search::documents::{
    attach_vectors, doc_of, docs_view, embedding_text, opt_identity, split_entry, with_vectors,
    DocView, EmbeddingIdentity, IdentityView, PageDoc,
};
use crate::search::vector::{check_vectors, odd_one};
use crate::numbers::decimal;
use crate::store::records::{PageVersion, PageVersionView, SplitEntry, SplitEntryView};
use crate::text::{lemma_texts_push, texts};

verus! {

/// What a compaction did.
#[derive(Debug, Clone, Copy, PartialEq, Eq, Structural)]
pub struct CompactOutcome {
    /// Another machine held the lease, and nothing was done.
    pub skipped: bool,
    /// Page versions in the new index.
    pub pages: usize,
    /// Splits in the catalog before.
    pub splits_before: usize,
    /// Splits in the catalog afterwards.
    pub splits_after: usize,
    /// Generation of the catalog afterwards.
    pub generation: u64,
}

/// A page that the manifest names.
#[derive(Debug)]
pub struct LivePage {
    /// Path.
    pub path: String,
    /// Version.
    pub page_id: String,
    /// When that was committed.
    pub created_at_ms: i64,
}

/// What a `LivePage` says.
pub struct LivePageView {
    pub path: Seq<char>,
    pub page_id: Seq<char>,
    pub created_at_ms: i64,
}

impl View for LivePage {
    type V = LivePageView;

    open spec fn view(&self) -> LivePageView {
        LivePageView {
            path: self.path@,
            page_id: self.page_id@,
            created_at_ms: self.created_at_ms,
        }
    }
}

/// What a list of live pages says.
pub open spec fn live_view(pages: Seq<LivePage>) -> Seq<LivePageView> {
    Seq::new(pages.len(), |i: int| pages[i]@)
}

/// What a list of page versions says.
pub open spec fn versions_view(pages: Seq<PageVersion>) -> Seq<PageVersionView> {
    Seq::new(pages.len(), |i: int| pages[i]@)
}

/// How far a compaction is.
#[derive(Debug, Clone, Copy, PartialEq, Eq, Structural)]
pub enum CompactStage {
    /// The lease is being taken.
    Leasing,
    /// Another machine holds the lease; the catalog is being read for the report.
    Skipping,
    /// The manifest is being read.
    Loading,
    /// The catalog is being read.
    Counting,
    /// The pages are being read.
    Reading,
    /// The pages are being embedded.
    Embedding,
    /// The split is being built, uploaded and hashed.
    Building,
    /// The catalog is being replaced.
    Replacing,
    /// The lease is being given back; this is what is reported afterwards.
    Releasing(CompactOutcome),
    /// It is over.
    Finished,
}

/// A compaction that is under way.
#[derive(Debug)]
pub struct CompactRun {
    /// Workspace.
    pub workspace_id: String,
    /// Project.
    pub project_id: String,
    /// Machine that does it.
    pub compactor: String,
    /// The embedder, where there is one.
    pub embedder: Option<EmbeddingIdentity>,
    /// Number of the last commit.
    pub seq: u64,
    /// Pages that the manifest names.
    pub pages: Vec<LivePage>,
    /// Splits in the catalog before.
    pub splits_before: usize,
    /// Documents of the new index.
    pub docs: Vec<PageDoc>,
    /// How far it is.
    pub stage: CompactStage,
}

/// What a `CompactRun` says.
#[verifier::ext_equal]
pub struct CompactView {
    pub workspace_id: Seq<char>,
    pub project_id: Seq<char>,
    pub compactor: Seq<char>,
    pub embedder: Option<IdentityView>,
    pub seq: u64,
    pub pages: Seq<LivePageView>,
    pub splits_before: usize,
    pub docs: Seq<DocView>,
    pub stage: CompactStage,
}

impl View for CompactRun {
    type V = CompactView;

    open spec fn view(&self) -> CompactView {
        CompactView {
            workspace_id: self.workspace_id@,
            project_id: self.project_id@,
            compactor: self.compactor@,
            embedder: opt_identity(self.embedder),
            seq: self.seq,
            pages: live_view(self.pages@),
            splits_before: self.splits_before,
            docs: docs_view(self.docs@),
            stage: self.stage,
        }
    }
}

/// What happened.
#[derive(Debug)]
pub enum CompactEvent {
    /// The lease was taken, or not because another machine holds it.
    Leased(Result<bool, String>),
    /// The manifest was read: the number of its last commit, and the pages it names.
    Loaded(Result<(u64, Vec<LivePage>), String>),
    /// The catalog was read: its splits and its generation.
    Catalog(Result<(usize, u64), String>),
    /// The pages were read.
    Pages(Result<Vec<PageVersion>, String>),
    /// The pages were embedded.
    Embedded(Result<Vec<Vec<u32>>, String>),
    /// The split was built and uploaded: its prefix and its hash.
    Built(Result<(String, String), String>),
    /// The catalog was replaced: its splits and its generation.
    Replaced(Result<(usize, u64), String>),
    /// The lease was given back.
    Released(Result<(), String>),
}

/// What a `CompactEvent` says.
pub enum CompactEventView {
    Leased(Result<bool, Seq<char>>),
    Loaded(Result<(u64, Seq<LivePageView>), Seq<char>>),
    Catalog(Result<(usize, u64), Seq<char>>),
    Pages(Result<Seq<PageVersionView>, Seq<char>>),
    Embedded(Result<Seq<Vec<u32>>, Seq<char>>),
    Built(Result<(Seq<char>, Seq<char>), Seq<char>>),
    Replaced(Result<(usize, u64), Seq<char>>),
    Released(Result<(), Seq<char>>),
}

impl View for CompactEvent {
    type V = CompactEventView;

    open spec fn view(&self) -> CompactEventView {
        match *self {
            CompactEvent::Leased(Ok(taken)) => CompactEventView::Leased(Ok(taken)),
            CompactEvent::Leased(Err(why)) => CompactEventView::Leased(Err(why@)),
            CompactEvent::Loaded(Ok(found)) => CompactEventView::Loaded(
                Ok((found.0, live_view(found.1@))),
            ),
            CompactEvent::Loaded(Err(why)) => CompactEventView::Loaded(Err(why@)),
            CompactEvent::Catalog(Ok(found)) => CompactEventView::Catalog(Ok(found)),
            CompactEvent::Catalog(Err(why)) => CompactEventView::Catalog(Err(why@)),
            CompactEvent::Pages(Ok(pages)) => CompactEventView::Pages(Ok(versions_view(pages@))),
            CompactEvent::Pages(Err(why)) => CompactEventView::Pages(Err(why@)),
            CompactEvent::Embedded(Ok(vectors)) => CompactEventView::Embedded(Ok(vectors@)),
            CompactEvent::Embedded(Err(why)) => CompactEventView::Embedded(Err(why@)),
            CompactEvent::Built(Ok(built)) => CompactEventView::Built(Ok((built.0@, built.1@))),
            CompactEvent::Built(Err(why)) => CompactEventView::Built(Err(why@)),
            CompactEvent::Replaced(Ok(made)) => CompactEventView::Replaced(Ok(made)),
            CompactEvent::Replaced(Err(why)) => CompactEventView::Replaced(Err(why@)),
            CompactEvent::Released(Ok(_)) => CompactEventView::Released(Ok(())),
            CompactEvent::Released(Err(why)) => CompactEventView::Released(Err(why@)),
        }
    }
}

/// What to do next.
#[derive(Debug)]
pub enum CompactAction {
    /// Take the lease on this scope.
    TakeLease(String),
    /// Read the manifest.
    Load,
    /// Read the catalog.
    LoadCatalog,
    /// Read the pages that the manifest names.
    ReadPages,
    /// Embed these texts, in one call.
    Embed(Vec<String>),
    /// Build a split of the documents under this number, upload it and hash it.
    Build(u64),
    /// Replace the catalog by one that names only this split.
    Replace(SplitEntry),
    /// Give the lease back.
    Release,
    /// It is over.
    Finish(Result<CompactOutcome, String>),
}

/// What a `CompactAction` says.
pub enum CompactActionView {
    TakeLease(Seq<char>),
    Load,
    LoadCatalog,
    ReadPages,
    Embed(Seq<Seq<char>>),
    Build(u64),
    Replace(SplitEntryView),
    Release,
    Finish(Result<CompactOutcome, Seq<char>>),
}

impl View for CompactAction {
    type V = CompactActionView;

    open spec fn view(&self) -> CompactActionView {
        match *self {
            CompactAction::TakeLease(scope) => CompactActionView::TakeLease(scope@),
            CompactAction::Load => CompactActionView::Load,
            CompactAction::LoadCatalog => CompactActionView::LoadCatalog,
            CompactAction::ReadPages => CompactActionView::ReadPages,
            CompactAction::Embed(list) => CompactActionView::Embed(texts(list@)),
            CompactAction::Build(seq) => CompactActionView::Build(seq),
            CompactAction::Replace(entry) => CompactActionView::Replace(entry@),
            CompactAction::Release => CompactActionView::Release,
            CompactAction::Finish(Ok(outcome)) => CompactActionView::Finish(Ok(outcome)),
            CompactAction::Finish(Err(why)) => CompactActionView::Finish(Err(why@)),
        }
    }
}

// ---- How it goes ---------------------------------------------------------------------------------

/// The documents of the pages that a manifest names. What was superseded or deleted is not
/// among them.
pub open spec fn docs_of(
    workspace_id: Seq<char>,
    project_id: Seq<char>,
    pages: Seq<LivePageView>,
    versions: Seq<PageVersionView>,
) -> Seq<DocView> {
    Seq::new(
        pages.len(),
        |i: int| doc_of(workspace_id, project_id, versions[i], pages[i].created_at_ms),
    )
}

/// The texts that documents are embedded from.
pub open spec fn embedded_texts(docs: Seq<DocView>) -> Seq<Seq<char>> {
    Seq::new(docs.len(), |i: int| docs[i].title + "\n\n"@ + docs[i].body)
}

/// The widths of vectors.
pub open spec fn widths_of(vectors: Seq<Vec<u32>>) -> Seq<usize> {
    Seq::new(vectors.len(), |i: int| vectors[i]@.len() as usize)
}

/// What a provider did wrong, if anything.
pub open spec fn breach(vectors: Seq<Vec<u32>>, inputs: nat, dim: nat) -> Option<Seq<char>> {
    let widths = widths_of(vectors);
    let at = odd_one(widths, dim as usize, 0);
    if vectors.len() != inputs {
        Some(
            "the embedding provider returned "@ + decimal(vectors.len()) + " vector(s) for "@
                + decimal(inputs) + " input(s)"@,
        )
    } else if at < vectors.len() {
        Some(
            "the embedding provider returned a "@ + decimal(widths[at] as nat)
                + "-wide vector at position "@ + decimal(at as nat)
                + ", but its configured width is "@ + decimal(dim),
        )
    } else {
        None
    }
}

/// The compaction goes on to a stage.
pub open spec fn to_stage(run: CompactView, stage: CompactStage, action: CompactActionView) -> (
    CompactView,
    CompactActionView,
) {
    (CompactView { stage, ..run }, action)
}

/// The compaction ends.
pub open spec fn ended(run: CompactView, result: Result<CompactOutcome, Seq<char>>) -> (
    CompactView,
    CompactActionView,
) {
    to_stage(run, CompactStage::Finished, CompactActionView::Finish(result))
}

/// The split is built.
pub open spec fn to_build(run: CompactView) -> (CompactView, CompactActionView) {
    to_stage(run, CompactStage::Building, CompactActionView::Build((run.seq + 1) as u64))
}

/// How a compaction goes on.
pub open spec fn compact_on(run: CompactView, event: CompactEventView) -> (
    CompactView,
    CompactActionView,
) {
    match (run.stage, event) {
        (CompactStage::Leasing, CompactEventView::Leased(Ok(taken))) => if taken {
            to_stage(run, CompactStage::Loading, CompactActionView::Load)
        } else {
            to_stage(run, CompactStage::Skipping, CompactActionView::LoadCatalog)
        },
        (CompactStage::Leasing, CompactEventView::Leased(Err(why))) => ended(run, Err(why)),
        (CompactStage::Skipping, CompactEventView::Catalog(Ok(found))) => ended(
            run,
            Ok(
                CompactOutcome {
                    skipped: true,
                    pages: 0,
                    splits_before: found.0,
                    splits_after: found.0,
                    generation: found.1,
                },
            ),
        ),
        (CompactStage::Skipping, CompactEventView::Catalog(Err(why))) => ended(run, Err(why)),
        (CompactStage::Loading, CompactEventView::Loaded(Ok(found))) => to_stage(
            CompactView { seq: found.0, pages: found.1, ..run },
            CompactStage::Counting,
            CompactActionView::LoadCatalog,
        ),
        (CompactStage::Loading, CompactEventView::Loaded(Err(why))) => ended(run, Err(why)),
        (CompactStage::Counting, CompactEventView::Catalog(Ok(found))) => to_stage(
            CompactView { splits_before: found.0, ..run },
            CompactStage::Reading,
            CompactActionView::ReadPages,
        ),
        (CompactStage::Counting, CompactEventView::Catalog(Err(why))) => ended(run, Err(why)),
        (CompactStage::Reading, CompactEventView::Pages(Ok(versions))) => {
            let docs = docs_of(run.workspace_id, run.project_id, run.pages, versions);
            let next = CompactView { docs, ..run };
            if run.embedder is Some {
                to_stage(
                    next,
                    CompactStage::Embedding,
                    CompactActionView::Embed(embedded_texts(docs)),
                )
            } else {
                to_build(next)
            }
        },
        (CompactStage::Reading, CompactEventView::Pages(Err(why))) => ended(run, Err(why)),
        (CompactStage::Embedding, CompactEventView::Embedded(Ok(vectors))) => match breach(
            vectors,
            run.docs.len(),
            run.embedder->0.dim,
        ) {
            Some(why) => ended(CompactView { docs: Seq::empty(), ..run }, Err(why)),
            None => to_build(
                CompactView { docs: with_vectors(run.docs, vectors, run.embedder->0), ..run },
            ),
        },
        (CompactStage::Embedding, CompactEventView::Embedded(Err(why))) => ended(run, Err(why)),
        (CompactStage::Building, CompactEventView::Built(Ok(built))) => to_stage(
            run,
            CompactStage::Replacing,
            CompactActionView::Replace(
                SplitEntryView {
                    writer_id: run.compactor,
                    seq: (run.seq + 1) as u64,
                    prefix: built.0,
                    doc_count: run.docs.len() as u64,
                    content_hash: built.1,
                },
            ),
        ),
        (CompactStage::Building, CompactEventView::Built(Err(why))) => ended(run, Err(why)),
        (CompactStage::Replacing, CompactEventView::Replaced(Ok(made))) => to_stage(
            run,
            CompactStage::Releasing(
                CompactOutcome {
                    skipped: false,
                    pages: run.docs.len() as usize,
                    splits_before: run.splits_before,
                    splits_after: made.0,
                    generation: made.1,
                },
            ),
            CompactActionView::Release,
        ),
        (CompactStage::Replacing, CompactEventView::Replaced(Err(why))) => ended(run, Err(why)),
        (CompactStage::Releasing(outcome), CompactEventView::Released(Ok(_))) => ended(
            run,
            Ok(outcome),
        ),
        (CompactStage::Releasing(_), CompactEventView::Released(Err(why))) => ended(run, Err(why)),
        _ => (run, CompactActionView::Load),
    }
}

/// The documents of pages.
fn make_docs(
    workspace_id: &str,
    project_id: &str,
    pages: &Vec<LivePage>,
    versions: &Vec<PageVersion>,
) -> (docs: Vec<PageDoc>)
    requires
        pages@.len() == versions@.len(),
    ensures
        docs_view(docs@) == docs_of(
            workspace_id@,
            project_id@,
            live_view(pages@),
            versions_view(versions@),
        ),
{
    let ghost owed = docs_of(
        workspace_id@,
        project_id@,
        live_view(pages@),
        versions_view(versions@),
    );
    let mut docs: Vec<PageDoc> = Vec::new();
    let mut i: usize = 0;
    while i < pages.len()
        invariant
            pages@.len() == versions@.len(),
            owed == docs_of(
                workspace_id@,
                project_id@,
                live_view(pages@),
                versions_view(versions@),
            ),
            i <= pages@.len(),
            docs@.len() == i,
            forall|j: int| 0 <= j < i ==> (#[trigger] docs@[j])@ == owed[j],
        decreases pages@.len() - i,
    {
        let doc: PageDoc = PageDoc::from_version(
            workspace_id,
            project_id,
            &versions[i],
            pages[i].created_at_ms,
        );
        assert(doc@ == owed[i as int]);
        docs.push(doc);
        i += 1;
    }
    assert(docs_view(docs@) =~= owed);
    docs
}

/// The texts that documents are embedded from.
fn texts_to_embed(docs: &Vec<PageDoc>) -> (list: Vec<String>)
    ensures
        texts(list@) == embedded_texts(docs_view(docs@)),
{
    let ghost owed = embedded_texts(docs_view(docs@));
    let mut list: Vec<String> = Vec::new();
    let mut i: usize = 0;
    assert(texts(list@) =~= owed.take(0));
    while i < docs.len()
        invariant
            owed == embedded_texts(docs_view(docs@)),
            i <= docs@.len(),
            texts(list@) == owed.take(i as int),
        decreases docs@.len() - i,
    {
        let ghost before = list@;
        let text: String = embedding_text(&docs[i]);
        list.push(text);
        proof {
            lemma_texts_push(before, text);
            assert(owed.take(i + 1) =~= owed.take(i as int).push(text@));
        }
        i += 1;
    }
    assert(owed.take(i as int) =~= owed);
    list
}

/// The widths of vectors.
fn vector_widths(vectors: &Vec<Vec<u32>>) -> (widths: Vec<usize>)
    ensures
        widths@ == widths_of(vectors@),
{
    let ghost owed = widths_of(vectors@);
    let mut widths: Vec<usize> = Vec::new();
    let mut i: usize = 0;
    while i < vectors.len()
        invariant
            owed == widths_of(vectors@),
            i <= vectors@.len(),
            widths@ == owed.take(i as int),
        decreases vectors@.len() - i,
    {
        widths.push(vectors[i].len());
        assert(owed.take(i + 1) =~= owed.take(i as int).push(owed[i as int]));
        i += 1;
    }
    assert(owed.take(i as int) =~= owed);
    widths
}

impl CompactRun {
    /// A number for the new split is left, and the embedder is there while it is used.
    pub open spec fn wf(&self) -> bool {
        &&& self.seq < u64::MAX
        &&& self.stage == CompactStage::Embedding ==> self.embedder is Some
    }

    /// Whether the event is one that the stage waits for: as many pages as were asked for.
    pub open spec fn awaits(&self, event: CompactEvent) -> bool {
        match self.stage {
            CompactStage::Leasing => event is Leased,
            CompactStage::Skipping => event is Catalog,
            CompactStage::Loading => event matches CompactEvent::Loaded(reply) && (
            reply matches Ok(found) ==> found.0 < u64::MAX),
            CompactStage::Counting => event is Catalog,
            CompactStage::Reading => event matches CompactEvent::Pages(reply) && (
            reply matches Ok(versions) ==> versions@.len() == self.pages@.len()),
            CompactStage::Embedding => event is Embedded,
            CompactStage::Building => event is Built,
            CompactStage::Replacing => event is Replaced,
            CompactStage::Releasing(_) => event is Released,
            CompactStage::Finished => false,
        }
    }

    /// The start of a compaction: the first thing to do is to take the lease.
    pub fn start(
        workspace_id: String,
        project_id: String,
        compactor: String,
        embedder: Option<EmbeddingIdentity>,
    ) -> (next: (CompactRun, CompactAction))
        ensures
            next.0.wf(),
            next.0@ == (CompactView {
                workspace_id: workspace_id@,
                project_id: project_id@,
                compactor: compactor@,
                embedder: opt_identity(embedder),
                seq: 0,
                pages: Seq::empty(),
                splits_before: 0,
                docs: Seq::empty(),
                stage: CompactStage::Leasing,
            }),
            next.1@ == CompactActionView::TakeLease(
                "compact/"@ + workspace_id@ + "/"@ + project_id@,
            ),
    {
        let mut scope: String = "compact/".to_owned();
        scope.append(workspace_id.as_str());
        scope.append("/");
        scope.append(project_id.as_str());
        let run = CompactRun {
            workspace_id,
            project_id,
            compactor,
            embedder,
            seq: 0,
            pages: Vec::new(),
            splits_before: 0,
            docs: Vec::new(),
            stage: CompactStage::Leasing,
        };
        assert(run@.pages =~= Seq::empty());
        assert(run@.docs =~= Seq::empty());
        (run, CompactAction::TakeLease(scope))
    }

    /// Ends.
    fn end(self, result: Result<CompactOutcome, String>) -> (next: (CompactRun, CompactAction))
        requires
            self.seq < u64::MAX,
        ensures
            next.0.wf(),
            (next.0@, next.1@) == ended(
                self@,
                match result {
                    Ok(outcome) => Ok(outcome),
                    Err(why) => Err(why@),
                },
            ),
    {
        let mut run: CompactRun = self;
        run.stage = CompactStage::Finished;
        (run, CompactAction::Finish(result))
    }

    /// Has the split built.
    fn build(self) -> (next: (CompactRun, CompactAction))
        requires
            self.seq < u64::MAX,
        ensures
            next.0.wf(),
            (next.0@, next.1@) == to_build(self@),
    {
        let mut run: CompactRun = self;
        run.stage = CompactStage::Building;
        let seq: u64 = run.seq + 1;
        (run, CompactAction::Build(seq))
    }

    /// Takes in the vectors.
    fn take_vectors(self, vectors: Vec<Vec<u32>>) -> (next: (CompactRun, CompactAction))
        requires
            self.wf(),
            self.stage == CompactStage::Embedding,
        ensures
            next.0.wf(),
            (next.0@, next.1@) == compact_on(self@, CompactEventView::Embedded(Ok(vectors@))),
    {
        let CompactRun {
            workspace_id,
            project_id,
            compactor,
            embedder,
            seq,
            pages,
            splits_before,
            docs,
            stage,
        } = self;
        let mut attached: Vec<PageDoc> = Vec::new();
        let mut failure: Option<String> = None;
        if let Some(identity) = &embedder {
            let widths: Vec<usize> = vector_widths(&vectors);
            match check_vectors(&widths, docs.len(), identity.dim) {
                Ok(_) => {
                    attached = attach_vectors(docs, vectors, identity);
                },
                Err(why) => {
                    assert(docs_view(attached@) =~= Seq::empty());
                    failure = Some(why);
                },
            }
        }
        let run = CompactRun {
            workspace_id,
            project_id,
            compactor,
            embedder,
            seq,
            pages,
            splits_before,
            docs: attached,
            stage,
        };
        match failure {
            Some(why) => run.end(Err(why)),
            None => run.build(),
        }
    }

    /// Takes in what happened and says what to do next.
    pub fn next(self, event: CompactEvent) -> (next: (CompactRun, CompactAction))
        requires
            self.wf(),
            self.awaits(event),
        ensures
            next.0.wf(),
            (next.0@, next.1@) == compact_on(self@, event@),
    {
        let mut run: CompactRun = self;
        match event {
            CompactEvent::Leased(Ok(taken)) => {
                if taken {
                    run.stage = CompactStage::Loading;
                    (run, CompactAction::Load)
                } else {
                    run.stage = CompactStage::Skipping;
                    (run, CompactAction::LoadCatalog)
                }
            },
            CompactEvent::Leased(Err(why)) => run.end(Err(why)),
            CompactEvent::Loaded(Ok(found)) => {
                run.seq = found.0;
                run.pages = found.1;
                run.stage = CompactStage::Counting;
                (run, CompactAction::LoadCatalog)
            },
            CompactEvent::Loaded(Err(why)) => run.end(Err(why)),
            CompactEvent::Catalog(Ok(found)) => {
                if run.stage == CompactStage::Skipping {
                    let outcome = CompactOutcome {
                        skipped: true,
                        pages: 0,
                        splits_before: found.0,
                        splits_after: found.0,
                        generation: found.1,
                    };
                    run.end(Ok(outcome))
                } else {
                    run.splits_before = found.0;
                    run.stage = CompactStage::Reading;
                    (run, CompactAction::ReadPages)
                }
            },
            CompactEvent::Catalog(Err(why)) => run.end(Err(why)),
            CompactEvent::Pages(Ok(versions)) => {
                let docs: Vec<PageDoc> = make_docs(
                    run.workspace_id.as_str(),
                    run.project_id.as_str(),
                    &run.pages,
                    &versions,
                );
                let list: Vec<String> = texts_to_embed(&docs);
                run.docs = docs;
                if run.embedder.is_some() {
                    run.stage = CompactStage::Embedding;
                    (run, CompactAction::Embed(list))
                } else {
                    run.build()
                }
            },
            CompactEvent::Pages(Err(why)) => run.end(Err(why)),
            CompactEvent::Embedded(Ok(vectors)) => run.take_vectors(vectors),
            CompactEvent::Embedded(Err(why)) => run.end(Err(why)),
            CompactEvent::Built(Ok(built)) => {
                let entry: SplitEntry = split_entry(
                    run.compactor.as_str(),
                    run.seq + 1,
                    built.0.as_str(),
                    run.docs.len(),
                    built.1.as_str(),
                );
                run.stage = CompactStage::Replacing;
                (run, CompactAction::Replace(entry))
            },
            CompactEvent::Built(Err(why)) => run.end(Err(why)),
            CompactEvent::Replaced(Ok(made)) => {
                let outcome = CompactOutcome {
                    skipped: false,
                    pages: run.docs.len(),
                    splits_before: run.splits_before,
                    splits_after: made.0,
                    generation: made.1,
                };
                run.stage = CompactStage::Releasing(outcome);
                (run, CompactAction::Release)
            },
            CompactEvent::Replaced(Err(why)) => run.end(Err(why)),
            CompactEvent::Released(Ok(_)) => {
                let outcome: Option<CompactOutcome> = match run.stage {
                    CompactStage::Releasing(outcome) => Some(outcome),
                    _ => None,
                };
                match outcome {
                    Some(outcome) => run.end(Ok(outcome)),
                    None => run.end(Err(String::new())),
                }
            },
            CompactEvent::Released(Err(why)) => run.end(Err(why)),
        }
    }
}

// ---- Laws ----------------------------------------------------------------------------------------

/// A machine that does not get the lease changes nothing: it reads the catalog and reports
/// it as it is.
pub proof fn law_without_the_lease_nothing_changes(run: CompactView, splits: usize, generation: u64)
    requires
        run.stage is Leasing,
    ensures
        ({
            let (next, action) = compact_on(run, CompactEventView::Leased(Ok(false)));
            &&& action == CompactActionView::LoadCatalog
            &&& compact_on(next, CompactEventView::Catalog(Ok((splits, generation)))).1
                == CompactActionView::Finish(
                Ok(
                    CompactOutcome {
                        skipped: true,
                        pages: 0,
                        splits_before: splits,
                        splits_after: splits,
                        generation,
                    },
                ),
            )
        }),
{
}

/// A rebuild holds a document for every page that the manifest names and for no other, each
/// with the time of its commit, and with a vector where there is an embedder.
pub proof fn law_a_rebuild_holds_what_the_manifest_names(
    run: CompactView,
    versions: Seq<PageVersionView>,
)
    requires
        run.stage is Reading,
        versions.len() == run.pages.len(),
    ensures
        ({
            let next = compact_on(run, CompactEventView::Pages(Ok(versions))).0;
            &&& next.docs.len() == run.pages.len()
            &&& forall|i: int|
                0 <= i < next.docs.len() ==> {
                    &&& (#[trigger] next.docs[i]).path == versions[i].path
                    &&& next.docs[i].page_id == versions[i].page_id
                    &&& next.docs[i].updated_at_ms == run.pages[i].created_at_ms
                }
        }),
{
}

} // verus!
