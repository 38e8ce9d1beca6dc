//! What consolidation and compaction do from their start to their end.

use vstd::prelude::*;

use crate::search::compact::{
    breach, compact_on, CompactActionView, CompactEventView, CompactOutcome, CompactStage,
    CompactView, LivePageView,
};
use crate::search::compile::{blank, fingerprint_in, material, rule_body};
use crate::search::consolidate::{
    consolidate_on, lease_scope, no_provider, session_path, ConsolidateActionView,
    ConsolidateEventView, ConsolidateRunView, ConsolidateView, ConsolidationRequestView, StageView,
};
use crate::search::documents::{with_vectors, DocView, IdentityView};
use crate::search::entities::extraction;
use crate::store::commit::CommitRequestView;
use crate::store::records::{ObservationView, PageVersionView, SplitEntryView};
use crate::store::version::{error_message, ErrorView};
use crate::trim::{trimmed, CharClass};

verus! {

// ---- Consolidation ------------------------------------------------------------------------

/// Where consolidations take their lease, and where the page of a session stands.
pub proof fn law_the_places_of_a_session(request: ConsolidationRequestView)
    ensures
        lease_scope(request) == "consolidate/"@ + request.workspace_id + "/"@ + request.project_id
            + "/"@ + request.session_id,
        session_path(request.session_id) == "sessions/"@ + request.session_id + ".md"@,
{
}

/// Whether a request to commit is the page of a session: under its path, with its title, by
/// its consolidator and at its time, with the heading, the mark and the text.
pub open spec fn commits_page(
    made: CommitRequestView,
    request: ConsolidationRequestView,
    fingerprint: Seq<char>,
    text: Seq<char>,
) -> bool {
    &&& made.workspace_id == request.workspace_id
    &&& made.project_id == request.project_id
    &&& made.path == "sessions/"@ + request.session_id + ".md"@
    &&& made.title == "Session "@ + request.session_id
    &&& made.body == "# Session "@ + request.session_id + "\n\n"@ + "<!-- qm:compiled "@
        + fingerprint + " -->\n\n"@ + trimmed(text, CharClass::Space) + "\n"@
    &&& made.writer_id == request.consolidator
    &&& made.now_ms == request.now_ms
}

/// Whether an outcome says that a page was compiled: what of, by what, and under which
/// number.
pub open spec fn says_compiled(
    outcome: ConsolidateView,
    page_id: Seq<char>,
    observations: nat,
    segments: nat,
    manifest_seq: nat,
    compiler: Seq<char>,
    used_fallback: bool,
) -> bool {
    &&& !outcome.skipped
    &&& !outcome.lease_held
    &&& !outcome.nothing_to_compile
    &&& !outcome.already_up_to_date
    &&& outcome.page_id == Some(page_id)
    &&& outcome.observations == observations
    &&& outcome.segments == segments
    &&& outcome.manifest_seq == manifest_seq
    &&& outcome.compiler == compiler
    &&& outcome.used_fallback == used_fallback
}

/// A consolidation by the rules reads the chain, its observations and the manifest, checks
/// the path, takes the fingerprint of the ids, reads the page, and where that is missing or
/// of another chain commits the lines of the observations; then it gives the lease back.
pub proof fn law_the_course_of_a_consolidation(
    start: ConsolidateRunView,
    segments: nat,
    observations: Seq<ObservationView>,
    seq: nat,
    hash: Seq<char>,
    page: Option<(Seq<char>, Seq<char>)>,
    made: (Seq<char>, nat),
)
    requires
        start.stage is Leasing,
        !start.with_model,
        observations.len() > 0,
        page matches Some(current) ==> fingerprint_in(current.1) != Some(hash),
    ensures
        ({
            let leased = consolidate_on(start, ConsolidateEventView::Leased(Ok(true)));
            let chain = consolidate_on(leased.0, ConsolidateEventView::Chain(Ok(segments)));
            let seen = consolidate_on(chain.0, ConsolidateEventView::Observed(Ok(observations)));
            let loaded = consolidate_on(seen.0, ConsolidateEventView::Loaded(Ok(seq)));
            let checked = consolidate_on(loaded.0, ConsolidateEventView::PathChecked(Ok(())));
            let hashed = consolidate_on(checked.0, ConsolidateEventView::Hashed(hash));
            let read = consolidate_on(hashed.0, ConsolidateEventView::Page(Ok(page)));
            let done = consolidate_on(read.0, ConsolidateEventView::Committed(Ok(made)));
            let ended = consolidate_on(done.0, ConsolidateEventView::Released(Ok(())));
            let path = "sessions/"@ + start.request.session_id + ".md"@;
            &&& leased.1 is ReadChain
            &&& chain.1 is ReadObservations
            &&& seen.1 is LoadManifest
            &&& loaded.1 == ConsolidateActionView::CheckPath(path)
            &&& checked.1 == ConsolidateActionView::Hash(material(observations))
            &&& hashed.1 == ConsolidateActionView::ReadPage(path)
            &&& read.1 matches ConsolidateActionView::Commit(asked)
            &&& commits_page(asked, start.request, hash, rule_body(observations))
            &&& done.1 is Release
            &&& ended.1 matches ConsolidateActionView::Finish(Ok(outcome))
            &&& says_compiled(
                outcome,
                made.0,
                observations.len(),
                segments,
                made.1,
                "rules"@,
                false,
            )
        }),
{
    let leased = consolidate_on(start, ConsolidateEventView::Leased(Ok(true)));
    let chain = consolidate_on(leased.0, ConsolidateEventView::Chain(Ok(segments)));
    let seen = consolidate_on(chain.0, ConsolidateEventView::Observed(Ok(observations)));
    let loaded = consolidate_on(seen.0, ConsolidateEventView::Loaded(Ok(seq)));
    let checked = consolidate_on(loaded.0, ConsolidateEventView::PathChecked(Ok(())));
    let hashed = consolidate_on(checked.0, ConsolidateEventView::Hashed(hash));
    let read = consolidate_on(hashed.0, ConsolidateEventView::Page(Ok(page)));
    assert(read.1 is Commit);
}

/// A model is asked only where the page has to be compiled; its text is committed as it is,
/// and where it fails or says nothing the rules stand in and the outcome says so.
pub proof fn law_the_course_of_a_consolidation_with_a_model(
    run: ConsolidateRunView,
    page: Option<(Seq<char>, Seq<char>)>,
    text: Seq<char>,
    why: Seq<char>,
    made: (Seq<char>, nat),
)
    requires
        run.stage is ReadingPage,
        run.with_model,
        page matches Some(current) ==> fingerprint_in(current.1) != Some(run.fingerprint),
    ensures
        ({
            let read = consolidate_on(run, ConsolidateEventView::Page(Ok(page)));
            let told = consolidate_on(read.0, ConsolidateEventView::Compiled(Ok(text)));
            let lost = consolidate_on(read.0, ConsolidateEventView::Compiled(Err(why)));
            let kept = consolidate_on(told.0, ConsolidateEventView::Committed(Ok(made)));
            let ended = consolidate_on(kept.0, ConsolidateEventView::Released(Ok(())));
            let fallen = consolidate_on(lost.0, ConsolidateEventView::Committed(Ok(made)));
            let over = consolidate_on(fallen.0, ConsolidateEventView::Released(Ok(())));
            &&& read.1 is AskModel
            &&& told.1 matches ConsolidateActionView::Commit(asked)
            &&& commits_page(
                asked,
                run.request,
                run.fingerprint,
                if blank(text) {
                    rule_body(run.observations)
                } else {
                    text
                },
            )
            &&& ended.1 matches ConsolidateActionView::Finish(Ok(outcome))
            &&& says_compiled(
                outcome,
                made.0,
                run.observations.len(),
                run.segments,
                made.1,
                if blank(text) {
                    "rules"@
                } else {
                    "llm"@
                },
                blank(text),
            )
            &&& lost.1 matches ConsolidateActionView::Commit(rules)
            &&& commits_page(rules, run.request, run.fingerprint, rule_body(run.observations))
            &&& over.1 matches ConsolidateActionView::Finish(Ok(fallback))
            &&& says_compiled(
                fallback,
                made.0,
                run.observations.len(),
                run.segments,
                made.1,
                "rules"@,
                true,
            )
        }),
{
    let read = consolidate_on(run, ConsolidateEventView::Page(Ok(page)));
    assert(read.1 is AskModel);
}

/// A page of the same chain is left as it is, a session without observations is not
/// compiled, and a lease that another holds ends the consolidation at once; each outcome says
/// so.
pub proof fn law_what_is_not_compiled_is_said(
    run: ConsolidateRunView,
    current: (Seq<char>, Seq<char>),
    seq: nat,
)
    ensures
        run.stage is Leasing ==> (consolidate_on(run, ConsolidateEventView::Leased(Ok(false))).1
            == ConsolidateActionView::Finish(
            Ok(
                ConsolidateView {
                    skipped: true,
                    lease_held: true,
                    nothing_to_compile: false,
                    already_up_to_date: false,
                    page_id: None,
                    observations: 0,
                    segments: 0,
                    manifest_seq: 0,
                    compiler: "none"@,
                    used_fallback: false,
                },
            ),
        )),
        run.stage is Loading && run.observations.len() == 0 ==> {
            let next = consolidate_on(run, ConsolidateEventView::Loaded(Ok(seq)));
            &&& next.1 is Release
            &&& consolidate_on(next.0, ConsolidateEventView::Released(Ok(()))).1
                == ConsolidateActionView::Finish(
                Ok(
                    ConsolidateView {
                        skipped: true,
                        lease_held: false,
                        nothing_to_compile: true,
                        already_up_to_date: false,
                        page_id: None,
                        observations: 0,
                        segments: run.segments,
                        manifest_seq: seq,
                        compiler: "none"@,
                        used_fallback: false,
                    },
                ),
            )
        },
        run.stage is ReadingPage && fingerprint_in(current.1) == Some(run.fingerprint) ==> {
            let next = consolidate_on(run, ConsolidateEventView::Page(Ok(Some(current))));
            &&& next.1 is Release
            &&& consolidate_on(next.0, ConsolidateEventView::Released(Ok(()))).1
                == ConsolidateActionView::Finish(
                Ok(
                    ConsolidateView {
                        skipped: false,
                        lease_held: false,
                        nothing_to_compile: false,
                        already_up_to_date: true,
                        page_id: Some(current.0),
                        observations: run.observations.len(),
                        segments: run.segments,
                        manifest_seq: run.manifest_seq,
                        compiler: "unchanged"@,
                        used_fallback: false,
                    },
                ),
            )
        },
{
}

/// A consolidation that fails says what the store said.
pub proof fn law_a_failed_consolidation_says_why(
    run: ConsolidateRunView,
    error: ErrorView,
    why: Seq<char>,
)
    ensures
        run.stage is Leasing ==> consolidate_on(run, ConsolidateEventView::Leased(Err(error))).1
            == ConsolidateActionView::Finish(Err(error_message(error))),
        run.stage is ReadingChain ==> consolidate_on(
            run,
            ConsolidateEventView::Chain(Err(error)),
        ).1 == ConsolidateActionView::Finish(Err(error_message(error))),
        run.stage is ReadingObservations ==> consolidate_on(
            run,
            ConsolidateEventView::Observed(Err(error)),
        ).1 == ConsolidateActionView::Finish(Err(error_message(error))),
        run.stage is Loading ==> consolidate_on(run, ConsolidateEventView::Loaded(Err(error))).1
            == ConsolidateActionView::Finish(Err(error_message(error))),
        run.stage is CheckingPath ==> consolidate_on(
            run,
            ConsolidateEventView::PathChecked(Err(why)),
        ).1 == ConsolidateActionView::Finish(Err(why)),
        run.stage is ReadingPage ==> consolidate_on(run, ConsolidateEventView::Page(Err(error))).1
            == ConsolidateActionView::Finish(Err(error_message(error))),
        run.stage is Committing ==> consolidate_on(
            run,
            ConsolidateEventView::Committed(Err(error)),
        ).1 == ConsolidateActionView::Finish(Err(error_message(error))),
        run.stage is Releasing ==> consolidate_on(
            run,
            ConsolidateEventView::Released(Err(error)),
        ).1 == ConsolidateActionView::Finish(Err(error_message(error))),
{
}

// ---- Compaction ---------------------------------------------------------------------------

/// Whether a document is what a live page is indexed as: everything of its version, the time
/// of its entry, and what its body mentions.
pub open spec fn indexes(
    doc: DocView,
    workspace_id: Seq<char>,
    project_id: Seq<char>,
    page: LivePageView,
    version: PageVersionView,
) -> bool {
    &&& doc.workspace_id == workspace_id
    &&& doc.project_id == project_id
    &&& doc.path == version.path
    &&& doc.page_id == version.page_id
    &&& doc.title == version.title
    &&& doc.body == version.body
    &&& doc.updated_at_ms == page.created_at_ms
    &&& doc.entities == extraction(version.body).entities
    &&& doc.links == extraction(version.body).links
}

/// A compaction without an embedder reads the manifest, counts the splits, reads every live
/// page, builds one split of all of them under the next number, puts it in the place of all
/// splits, and gives the lease back; its outcome counts what it did.
pub proof fn law_the_course_of_a_compaction(
    start: CompactView,
    seq: u64,
    pages: Seq<LivePageView>,
    found: (usize, u64),
    versions: Seq<PageVersionView>,
    built: (Seq<char>, Seq<char>),
    made: (usize, u64),
)
    requires
        start.stage is Leasing,
        start.embedder is None,
        seq < u64::MAX,
        versions.len() == pages.len() <= usize::MAX,
    ensures
        ({
            let leased = compact_on(start, CompactEventView::Leased(Ok(true)));
            let loaded = compact_on(leased.0, CompactEventView::Loaded(Ok((seq, pages))));
            let counted = compact_on(loaded.0, CompactEventView::Catalog(Ok(found)));
            let read = compact_on(counted.0, CompactEventView::Pages(Ok(versions)));
            let split = compact_on(read.0, CompactEventView::Built(Ok(built)));
            let placed = compact_on(split.0, CompactEventView::Replaced(Ok(made)));
            let ended = compact_on(placed.0, CompactEventView::Released(Ok(())));
            &&& leased.1 is Load
            &&& loaded.1 is LoadCatalog
            &&& counted.1 is ReadPages
            &&& read.1 == CompactActionView::Build((seq + 1) as u64)
            &&& read.0.docs.len() == pages.len()
            &&& forall|i: int|
                0 <= i < pages.len() ==> indexes(
                    #[trigger] read.0.docs[i],
                    start.workspace_id,
                    start.project_id,
                    pages[i],
                    versions[i],
                ) && read.0.docs[i].embedding is None
            &&& split.1 matches CompactActionView::Replace(entry)
            &&& entry.writer_id == start.compactor
            &&& entry.seq == seq + 1
            &&& entry.prefix == built.0
            &&& entry.doc_count == pages.len()
            &&& entry.content_hash == built.1
            &&& placed.1 is Release
            &&& ended.1 == CompactActionView::Finish(
                Ok(
                    CompactOutcome {
                        skipped: false,
                        pages: pages.len() as usize,
                        splits_before: found.0,
                        splits_after: made.0,
                        generation: made.1,
                    },
                ),
            )
        }),
{
}

/// With an embedder every page is embedded by its title and its body, and each document gets
/// the vector at its place and the name of the embedder; vectors that are too few, too many
/// or of another width end the compaction.
pub proof fn law_the_course_of_an_embedding(
    run: CompactView,
    identity: IdentityView,
    versions: Seq<PageVersionView>,
    vectors: Seq<Vec<u32>>,
)
    requires
        run.stage is Reading,
        run.embedder == Some(identity),
        versions.len() == run.pages.len(),
        identity.dim <= usize::MAX,
    ensures
        ({
            let read = compact_on(run, CompactEventView::Pages(Ok(versions)));
            let got = compact_on(read.0, CompactEventView::Embedded(Ok(vectors)));
            let fit = vectors.len() == versions.len() && forall|i: int|
                0 <= i < vectors.len() ==> (#[trigger] vectors[i])@.len() == identity.dim;
            &&& read.1 matches CompactActionView::Embed(texts)
            &&& texts.len() == versions.len()
            &&& forall|i: int|
                0 <= i < texts.len() ==> #[trigger] texts[i] == versions[i].title + "\n\n"@
                    + versions[i].body
            &&& fit ==> {
                &&& got.1 == CompactActionView::Build((run.seq + 1) as u64)
                &&& got.0.docs.len() == versions.len()
                &&& forall|i: int|
                    0 <= i < versions.len() ==> indexes(
                        #[trigger] got.0.docs[i],
                        run.workspace_id,
                        run.project_id,
                        run.pages[i],
                        versions[i],
                    ) && got.0.docs[i].embedding == Some(vectors[i]@)
                        && got.0.docs[i].embedding_identity == Some(identity)
            }
            &&& !fit ==> got.1 matches CompactActionView::Finish(Err(_))
        }),
{
    let read = compact_on(run, CompactEventView::Pages(Ok(versions)));
    let got = compact_on(read.0, CompactEventView::Embedded(Ok(vectors)));
    let widths = crate::search::compact::widths_of(vectors);
    lemma_odd_one(widths, identity.dim as usize, 0);
    let at = crate::search::vector::odd_one(widths, identity.dim as usize, 0);
    if vectors.len() == versions.len() {
        if at < vectors.len() {
            assert(widths[at] != identity.dim as usize);
            assert(vectors[at].len() == vectors[at]@.len());
            assert(vectors[at]@.len() != identity.dim);
        } else {
            assert forall|i: int| 0 <= i < vectors.len() implies (#[trigger] vectors[i])@.len()
                == identity.dim by {
                assert(widths[i] == identity.dim as usize);
                assert(vectors[i].len() == vectors[i]@.len());
            }
            assert(breach(vectors, versions.len(), identity.dim) is None);
        }
    }
}

proof fn lemma_odd_one(widths: Seq<usize>, dim: usize, from: int)
    requires
        0 <= from <= widths.len(),
    ensures
        from <= crate::search::vector::odd_one(widths, dim, from) <= widths.len(),
        forall|i: int|
            from <= i < crate::search::vector::odd_one(widths, dim, from) ==> #[trigger] widths[i]
                == dim,
        crate::search::vector::odd_one(widths, dim, from) < widths.len()
            ==> widths[crate::search::vector::odd_one(widths, dim, from)] != dim,
    decreases widths.len() - from,
{
    if from < widths.len() && widths[from] == dim {
        lemma_odd_one(widths, dim, from + 1);
    }
}

/// The vector that is named as the wrong one is the first that is not as wide as it should
/// be.
pub proof fn law_the_first_odd_vector_is_named(widths: Seq<usize>, dim: usize, at: int)
    requires
        0 <= at < widths.len(),
        widths[at] != dim,
        forall|i: int| 0 <= i < at ==> #[trigger] widths[i] == dim,
    ensures
        crate::search::vector::odd_one(widths, dim, 0) == at,
{
    lemma_odd_one(widths, dim, 0);
    let first = crate::search::vector::odd_one(widths, dim, 0);
    if first < at {
        assert(widths[first] == dim);
    }
}

/// A compaction whose lease another holds changes nothing and says what is there; one that
/// fails says why.
pub proof fn law_a_skipped_or_failed_compaction_says_so(
    run: CompactView,
    found: (usize, u64),
    why: Seq<char>,
)
    ensures
        run.stage is Leasing ==> compact_on(run, CompactEventView::Leased(Ok(false))).1
            is LoadCatalog && compact_on(
            compact_on(run, CompactEventView::Leased(Ok(false))).0,
            CompactEventView::Catalog(Ok(found)),
        ).1 == CompactActionView::Finish(
            Ok(
                CompactOutcome {
                    skipped: true,
                    pages: 0,
                    splits_before: found.0,
                    splits_after: found.0,
                    generation: found.1,
                },
            ),
        ),
        run.stage is Leasing ==> compact_on(run, CompactEventView::Leased(Err(why))).1
            == CompactActionView::Finish(Err(why)),
        run.stage is Loading ==> compact_on(run, CompactEventView::Loaded(Err(why))).1
            == CompactActionView::Finish(Err(why)),
        run.stage is Counting ==> compact_on(run, CompactEventView::Catalog(Err(why))).1
            == CompactActionView::Finish(Err(why)),
        run.stage is Reading ==> compact_on(run, CompactEventView::Pages(Err(why))).1
            == CompactActionView::Finish(Err(why)),
        run.stage is Embedding ==> compact_on(run, CompactEventView::Embedded(Err(why))).1
            == CompactActionView::Finish(Err(why)),
        run.stage is Building ==> compact_on(run, CompactEventView::Built(Err(why))).1
            == CompactActionView::Finish(Err(why)),
        run.stage is Replacing ==> compact_on(run, CompactEventView::Replaced(Err(why))).1
            == CompactActionView::Finish(Err(why)),
{
}

/// Where a model is asked for and none is configured, the settings that are missing are named.
pub proof fn law_missing_settings_are_named()
    ensures
        no_provider()
            == "the LLM compiler was requested but no provider is configured: set QM_LLM_BASE_URL, QM_LLM_API_KEY and QM_LLM_MODEL (or ask for rules/auto, which uses the rule renderer when no provider is configured)"@,
{
}

} // verus!
