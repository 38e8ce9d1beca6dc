use quick_memory::search::compact::{CompactAction, CompactEvent, CompactRun, LivePage};
use quick_memory::search::compile::OpenAiCompatCompiler;
use quick_memory::search::consolidate::{
    resolve_compiler, CompilerChoice, ConsolidateAction, ConsolidateEvent, ConsolidateOutcome,
    ConsolidateRun, ConsolidationRequest,
};
use quick_memory::search::documents::EmbeddingIdentity;
use quick_memory::search::hits::{found_hit, fuse, group_hits, key_of, key_of_hit, order_hits, Hit};
use quick_memory::search::project::{
    stream_fields, SearchAction, SearchEvent, SearchOutcome, SearchRun, StreamCounts,
    WorkspaceSearch,
};
use quick_memory::search::tuning::SearchTuning;
use quick_memory::store::records::{Observation, PageVersion};
use quick_memory::store::version::StoreError;

fn hit(path: &str, page_id: &str, score: f32, updated_at_ms: i64, stream: &str) -> Hit {
    found_hit(
        ("acme", "proj", path, page_id),
        path,
        "fallback",
        score.to_bits(),
        updated_at_ms,
        stream,
    )
}

/// Reciprocal-rank fusion at 60, as bits.
fn scores(places: &[Vec<(usize, usize)>], weights: &[u32]) -> Vec<u32> {
    places
        .iter()
        .map(|list| {
            let mut sum = 0.0f32;
            for (n, rank) in list {
                sum += f32::from_bits(weights[*n]) / (60.0 + *rank as f32 + 1.0);
            }
            sum.to_bits()
        })
        .collect()
}

fn paths(hits: &[Hit]) -> Vec<&str> {
    hits.iter().map(|h| h.path.as_str()).collect()
}

/// What a bucket with one split answers.
struct Index {
    direct: Vec<Vec<(&'static str, &'static str)>>,
    linked: Vec<(&'static str, &'static str)>,
    similar: Vec<(&'static str, &'static str)>,
    recorded: Option<EmbeddingIdentity>,
    heads: Vec<(&'static str, &'static str)>,
}

fn listed(found: &[(&str, &str)], stream: &str) -> Vec<Hit> {
    let committed = |path: &str| if path == "notes/prose.md" { 900 } else { 0 };
    found.iter().map(|(path, id)| hit(path, id, 1.0, committed(path), stream)).collect()
}

fn run(
    index: &Index,
    tuning: SearchTuning,
    limit: usize,
    embedder: Option<EmbeddingIdentity>,
) -> (Result<SearchOutcome, String>, Vec<String>) {
    let mut asked = Vec::new();
    let query = "raft consensus".to_string();
    let (mut run, mut action) = SearchRun::start(query.clone(), tuning, limit, embedder);
    loop {
        let event = match action {
            SearchAction::LoadCatalog => SearchEvent::Catalog(Ok(vec![(
                "splits/1".to_string(),
                "hash".to_string(),
            )])),
            SearchAction::Fetch => SearchEvent::Fetched(Ok(())),
            SearchAction::Search(wanted) => {
                assert_eq!(wanted, query);
                let lists = index.direct.iter().enumerate();
                SearchEvent::Found(Ok(lists
                    .map(|(n, found)| listed(found, stream_fields(n).0))
                    .collect()))
            }
            SearchAction::Score(places, weights) => SearchEvent::Scored(scores(&places, &weights)),
            SearchAction::FindLinks(seeds) => {
                asked.push(format!("links {}", seeds.join(",")));
                SearchEvent::Linked(Ok(vec![listed(&index.linked, "neighbors")]))
            }
            SearchAction::ReadIdentities => {
                asked.push("identities".to_string());
                SearchEvent::Identified(vec![Ok(index.recorded.clone())])
            }
            SearchAction::Compare(wanted) => {
                assert_eq!(wanted, query);
                SearchEvent::Compared(Ok(vec![listed(&index.similar, "vector")]))
            }
            SearchAction::LoadHeads(wanted) => SearchEvent::Heads(Ok(wanted
                .iter()
                .map(|path| {
                    index
                        .heads
                        .iter()
                        .find(|head| head.0 == path)
                        .map(|head| head.1.to_string())
                })
                .collect())),
            SearchAction::Boost(ages) => {
                asked.push(format!("boost {ages:?}"));
                let factor = |age: &Option<i64>| if age.is_some() { 1.5f32 } else { 1.0 };
                SearchEvent::Boosted(
                    ages.iter()
                        .zip(&run.hits)
                        .map(|(age, hit)| {
                            let boosted = f32::from_bits(hit.score) * factor(age);
                            (factor(age).to_bits(), boosted.to_bits())
                        })
                        .collect(),
                )
            }
            SearchAction::Finish(outcome) => return (outcome, asked),
        };
        let next = run.next(event);
        run = next.0;
        action = next.1;
    }
}

fn index() -> Index {
    Index {
        direct: vec![
            vec![("notes/prose.md", "p1"), ("notes/raft.md", "p2")],
            vec![("notes/raft.md", "p2")],
            vec![],
        ],
        linked: vec![("notes/neighbor.md", "p3")],
        similar: vec![("notes/similar.md", "p4")],
        recorded: Some(identity("m1")),
        heads: vec![
            ("notes/prose.md", "p1"),
            ("notes/raft.md", "p2"),
            ("notes/neighbor.md", "p3"),
            ("notes/similar.md", "p4"),
        ],
    }
}

fn identity(model: &str) -> EmbeddingIdentity {
    EmbeddingIdentity { provider: "test".to_string(), model: model.to_string(), dim: 3 }
}

fn keywords_only() -> SearchTuning {
    SearchTuning { neighbor_expansion: false, vector_search: false, ..SearchTuning::default() }
}

#[test]
fn declared_matches_outrank_prose_and_neighbors_come_last() {
    let (outcome, asked) = run(&index(), SearchTuning::default(), 10, None);
    let outcome = outcome.unwrap();
    assert_eq!(
        paths(&outcome.hits),
        vec!["notes/raft.md", "notes/prose.md", "notes/neighbor.md"]
    );
    assert_eq!(outcome.hits[0].streams, vec!["body", "entities"]);
    for hit in &outcome.hits {
        assert_eq!(hit.fused_score, hit.score);
        assert_eq!(hit.recency_multiplier, 1.0f32.to_bits());
    }
    assert_eq!(outcome.splits_searched, 1);
    assert_eq!(outcome.candidates, 3);
    assert_eq!(outcome.filtered_out, 0);
    assert_eq!(outcome.streams_active, vec!["body", "entities", "neighbors"]);
    assert_eq!(outcome.stream_candidates.entries().len(), 4);
    assert_eq!(asked, vec!["links notes/raft.md,notes/prose.md"]);
}

#[test]
fn superseded_hits_are_filtered_whatever_found_them() {
    let mut index = index();
    index.heads[3] = ("notes/similar.md", "p9");
    index.heads.remove(1);
    let (outcome, _) = run(&index, SearchTuning::default(), 10, Some(identity("m1")));
    let outcome = outcome.unwrap();
    assert_eq!(paths(&outcome.hits), vec!["notes/prose.md", "notes/neighbor.md"]);
    assert_eq!(outcome.filtered_out, 2);
    assert_eq!(outcome.stream_candidates.vector, 1);
}

#[test]
fn the_vector_stream_recalls_what_no_other_finds() {
    let (outcome, asked) = run(&index(), SearchTuning::default(), 10, Some(identity("m1")));
    let outcome = outcome.unwrap();
    assert!(paths(&outcome.hits).contains(&"notes/similar.md"));
    assert!(asked.contains(&"identities".to_string()));
    assert_eq!(outcome.streams_active, vec!["body", "entities", "neighbors", "vector"]);
}

#[test]
fn splits_are_judged_only_where_vectors_are_compared() {
    let other = Some(identity("m2"));
    let (refused, _) = run(&index(), SearchTuning::default(), 10, other);
    let why = refused.unwrap_err();
    assert!(why.contains("m1") && why.contains("m2") && why.contains("splits/1"), "{why}");

    let (kept, asked) = run(&index(), keywords_only(), 10, Some(identity("m2")));
    assert_eq!(paths(&kept.unwrap().hits), vec!["notes/raft.md", "notes/prose.md"]);
    assert!(asked.is_empty());
    let weightless = SearchTuning { vector_weight: 0, ..SearchTuning::default() };
    assert!(run(&index(), weightless, 10, Some(identity("m2"))).0.is_ok());
}

#[test]
fn a_split_without_an_identity_passes() {
    let mut index = index();
    index.recorded = None;
    assert!(run(&index, SearchTuning::default(), 10, Some(identity("m2"))).0.is_ok());
}

#[test]
fn a_search_is_cut_at_its_limit_and_fails_with_its_parts() {
    let (outcome, _) = run(&index(), keywords_only(), 1, None);
    assert_eq!(paths(&outcome.unwrap().hits), vec!["notes/raft.md"]);

    let (start, _) = SearchRun::start("q".to_string(), keywords_only(), 5, None);
    let (_, action) = start.next(SearchEvent::Catalog(Ok(Vec::new())));
    match action {
        SearchAction::Finish(Ok(outcome)) => {
            assert!(outcome.hits.is_empty() && outcome.streams_active.is_empty());
            assert!(outcome.stream_candidates.entries().is_empty());
        }
        other => panic!("{other:?}"),
    }
    let (start, _) = SearchRun::start("q".to_string(), keywords_only(), 5, None);
    let (_, action) = start.next(SearchEvent::Catalog(Err("down".to_string())));
    assert!(matches!(action, SearchAction::Finish(Err(why)) if why == "down"));
}

#[test]
fn recency_is_counted_in_after_the_manifest_was_asked() {
    let tuning = SearchTuning { now_ms: 1_000, ..keywords_only() };
    let mut index = index();
    index.direct = vec![vec![("notes/raft.md", "p2"), ("notes/prose.md", "p1")], vec![], vec![]];
    let (outcome, asked) = run(&index, tuning, 10, None);
    assert_eq!(asked, vec!["boost [None, Some(100)]"]);
    let hits = outcome.unwrap().hits;
    assert_eq!(paths(&hits), vec!["notes/prose.md", "notes/raft.md"]);
    let fused = 1.0f32 / 62.0;
    assert_eq!(hits[0].fused_score, fused.to_bits());
    assert_eq!(hits[0].score, (fused * 1.5).to_bits());
    assert_eq!(hits[0].recency_multiplier, 1.5f32.to_bits());
}

#[test]
fn workspaces_fuse_the_lists_of_their_projects() {
    let mut workspace = WorkspaceSearch::new();
    for n in 0..2 {
        let (outcome, _) = run(&index(), keywords_only(), 10, None);
        let mut outcome = outcome.unwrap();
        for found in &mut outcome.hits {
            found.page_id = format!("{}-{n}", found.page_id);
        }
        assert!(workspace.fits(&outcome));
        workspace.push(outcome);
    }
    assert_eq!(workspace.lists.len(), 2);
    let (places, weights) = workspace.to_score();
    assert_eq!(places, vec![vec![(0, 0)], vec![(0, 1)], vec![(1, 0)], vec![(1, 1)]]);
    assert_eq!(weights, vec![1.0f32.to_bits(); 2]);
    let hits = workspace.fused(&scores(&places, &weights));
    let tuning = keywords_only();
    assert!(WorkspaceSearch::ages(&hits, &tuning).is_none());
    let outcome = workspace.finish(hits, &tuning, &Vec::new(), 3);
    let ids: Vec<&str> = outcome.hits.iter().map(|h| h.page_id.as_str()).collect();
    assert_eq!(ids, vec!["p2-0", "p2-1", "p1-0"]);
    assert_eq!((outcome.splits_searched, outcome.candidates), (2, 6));
    assert_eq!(outcome.stream_candidates.body, 4);
    assert_eq!(outcome.streams_active, vec!["body", "entities"]);
}

#[test]
fn fusion_counts_every_hit_of_a_page_once() {
    let lists = vec![
        vec![hit("a", "p1", 2.0, 0, "body"), hit("b", "p2", 9.0, 0, "body")],
        vec![hit("b", "p2", 3.0, 0, "entities")],
    ];
    let groups = group_hits(&lists);
    assert_eq!(groups.len(), 2);
    assert_eq!(groups[1].places, vec![(0, 1), (1, 0)]);
    assert_eq!(groups[1].hit.score, 9.0f32.to_bits());
    assert_eq!(groups[1].hit.streams, vec!["body", "entities"]);
    let places: Vec<Vec<(usize, usize)>> = groups.iter().map(|g| g.places.clone()).collect();
    let fused = fuse(groups, &scores(&places, &[1.0f32.to_bits(); 2]));
    assert_eq!(paths(&fused), vec!["b", "a"]);
    let expected: f32 = 1.0 / 62.0 + 1.0 / 61.0;
    assert_eq!(fused[0].score, expected.to_bits());
}

#[test]
fn hits_are_ordered_by_score_and_then_by_their_key() {
    let mut a = hit("a", "p1", 1.0, 0, "body");
    let mut b = hit("b", "p2", 1.0, 0, "body");
    let mut c = hit("c", "p3", 1.0, 0, "body");
    a.score = 0.5f32.to_bits();
    b.score = 0.25f32.to_bits();
    c.score = 0.5f32.to_bits();
    assert_eq!(paths(&order_hits(vec![b, c, a])), vec!["a", "c", "b"]);
    assert!(key_of((-1.0f32).to_bits()) < key_of(0.0f32.to_bits()));
    assert!(key_of(1.5f32.to_bits()) < key_of(2.5f32.to_bits()));

    let foreign = found_hit(
        ("w", "p", "", ""),
        "",
        "split-7",
        0,
        0,
        "body",
    );
    assert_eq!(foreign.title, "split-7");
    assert_eq!(key_of_hit(&foreign), "split-7");
}

#[test]
fn streams_that_found_nothing_are_not_active() {
    let counts = StreamCounts {
        searched: true,
        body: 2,
        entities: 0,
        links: 1,
        neighbors: 0,
        vector: 3,
    };
    assert_eq!(counts.streams(), vec!["body", "links", "vector"]);
    assert_eq!(stream_fields(0), ("body", vec!["title", "body"]));
    assert_eq!(stream_fields(2), ("links", vec!["links"]));
}

// ---- Compaction -------------------------------------------------------------------

fn version(path: &str, id: &str, body: &str) -> PageVersion {
    PageVersion {
        page_id: id.to_string(),
        path: path.to_string(),
        title: path.to_string(),
        body: body.to_string(),
        supersedes: None,
    }
}

fn compaction(embedder: Option<EmbeddingIdentity>) -> (CompactRun, CompactAction) {
    CompactRun::start("acme".to_string(), "proj".to_string(), "mbp-c".to_string(), embedder)
}

#[test]
fn a_compaction_without_the_lease_changes_nothing() {
    let (run, action) = compaction(None);
    assert!(matches!(&action, CompactAction::TakeLease(scope) if scope == "compact/acme/proj"));
    let (run, action) = run.next(CompactEvent::Leased(Ok(false)));
    assert!(matches!(action, CompactAction::LoadCatalog));
    let (_, action) = run.next(CompactEvent::Catalog(Ok((4, 9))));
    match action {
        CompactAction::Finish(Ok(outcome)) => {
            assert!(outcome.skipped);
            assert_eq!((outcome.splits_before, outcome.splits_after), (4, 4));
            assert_eq!((outcome.pages, outcome.generation), (0, 9));
        }
        other => panic!("{other:?}"),
    }
}

fn loaded(run: CompactRun) -> CompactRun {
    let (run, _) = run.next(CompactEvent::Leased(Ok(true)));
    let live = vec![LivePage {
        path: "notes/raft.md".to_string(),
        page_id: "p2".to_string(),
        created_at_ms: 77,
    }];
    let (run, action) = run.next(CompactEvent::Loaded(Ok((6, live))));
    assert!(matches!(action, CompactAction::LoadCatalog));
    let (run, action) = run.next(CompactEvent::Catalog(Ok((3, 5))));
    assert!(matches!(action, CompactAction::ReadPages));
    run
}

#[test]
fn a_rebuild_holds_what_the_manifest_names() {
    let run = loaded(compaction(None).0);
    let pages = vec![version("notes/raft.md", "p2", "see [[notes/other.md]]")];
    let (run, action) = run.next(CompactEvent::Pages(Ok(pages)));
    match action {
        CompactAction::Build(seq) => assert_eq!(seq, 7),
        other => panic!("{other:?}"),
    }
    assert_eq!(run.docs.len(), 1);
    assert_eq!(run.docs[0].updated_at_ms, 77);
    assert_eq!(run.docs[0].links, vec!["notes/other.md"]);
    assert!(run.docs[0].embedding.is_none());
    let (run, action) =
        run.next(CompactEvent::Built(Ok(("splits/new".to_string(), "h".to_string()))));
    match action {
        CompactAction::Replace(entry) => {
            assert_eq!((entry.seq, entry.doc_count), (7, 1));
            assert_eq!((entry.prefix.as_str(), entry.content_hash.as_str()), ("splits/new", "h"));
            assert_eq!(entry.writer_id, "mbp-c");
        }
        other => panic!("{other:?}"),
    }
    let (run, action) = run.next(CompactEvent::Replaced(Ok((1, 6))));
    assert!(matches!(action, CompactAction::Release));
    let (_, action) = run.next(CompactEvent::Released(Ok(())));
    match action {
        CompactAction::Finish(Ok(outcome)) => {
            assert!(!outcome.skipped);
            assert_eq!((outcome.pages, outcome.splits_before, outcome.splits_after), (1, 3, 1));
            assert_eq!(outcome.generation, 6);
        }
        other => panic!("{other:?}"),
    }
}

#[test]
fn a_compaction_embeds_what_it_rebuilds() {
    let run = loaded(compaction(Some(identity("m1"))).0);
    let (run, action) = run.next(CompactEvent::Pages(Ok(vec![version("a", "p2", "b")])));
    match action {
        CompactAction::Embed(texts) => assert_eq!(texts, vec!["a\n\nb"]),
        other => panic!("{other:?}"),
    }
    let row = vec![1.0f32.to_bits(), 0, 0];
    let (run, action) = run.next(CompactEvent::Embedded(Ok(vec![row.clone()])));
    assert!(matches!(action, CompactAction::Build(7)));
    assert_eq!(run.docs[0].embedding, Some(row));
    assert_eq!(run.docs[0].embedding_identity.as_ref().unwrap().model, "m1");
}

#[test]
fn embeddings_that_breach_the_contract_are_refused() {
    for rows in [Vec::new(), vec![vec![0u32; 2]]] {
        let run = loaded(compaction(Some(identity("m1"))).0);
        let (run, _) = run.next(CompactEvent::Pages(Ok(vec![version("a", "p2", "b")])));
        let (_, action) = run.next(CompactEvent::Embedded(Ok(rows)));
        assert!(matches!(action, CompactAction::Finish(Err(_))));
    }
    let run = loaded(compaction(None).0);
    let (_, action) = run.next(CompactEvent::Pages(Err("gone".to_string())));
    assert!(matches!(action, CompactAction::Finish(Err(why)) if why == "gone"));
}

// ---- Consolidation ----------------------------------------------------------------

fn observation(text: &str, at_ms: i64) -> Observation {
    Observation {
        schema: 1,
        observation_id: format!("o{at_ms}"),
        session_id: "sess-1".to_string(),
        actor: "codex".to_string(),
        kind: "tool_use".to_string(),
        text: text.to_string(),
        created_at_ms: at_ms,
    }
}

fn consolidation() -> ConsolidationRequest {
    ConsolidationRequest {
        workspace_id: "acme".to_string(),
        project_id: "proj".to_string(),
        session_id: "sess-1".to_string(),
        consolidator: "mbp-c".to_string(),
        now_ms: 50,
        lease_ttl_ms: 1_000,
    }
}

struct Desk {
    texts: Vec<&'static str>,
    page: Option<(String, String)>,
    model: Result<String, String>,
    released: usize,
}

fn consolidate(desk: &mut Desk, with_model: bool) -> Result<ConsolidateOutcome, String> {
    let (mut run, mut action) = ConsolidateRun::start(consolidation(), with_model);
    loop {
        let event = match action {
            ConsolidateAction::TakeLease(scope) => {
                assert_eq!(scope, "consolidate/acme/proj/sess-1");
                ConsolidateEvent::Leased(Ok(true))
            }
            ConsolidateAction::ReadChain => ConsolidateEvent::Chain(Ok(desk.texts.len())),
            ConsolidateAction::ReadObservations => ConsolidateEvent::Observed(Ok(desk
                .texts
                .iter()
                .enumerate()
                .map(|(n, text)| observation(text, n as i64))
                .collect())),
            ConsolidateAction::LoadManifest => ConsolidateEvent::Loaded(Ok(4)),
            ConsolidateAction::CheckPath(path) => {
                assert_eq!(path, "sessions/sess-1.md");
                ConsolidateEvent::PathChecked(Ok(()))
            }
            ConsolidateAction::Hash(material) => {
                ConsolidateEvent::Hashed(format!("hash{}", material.len()))
            }
            ConsolidateAction::ReadPage(_) => ConsolidateEvent::Page(Ok(desk.page.clone())),
            ConsolidateAction::AskModel => ConsolidateEvent::Compiled(desk.model.clone()),
            ConsolidateAction::Commit(request) => {
                assert_eq!(request.path, "sessions/sess-1.md");
                assert_eq!(request.title, "Session sess-1");
                assert_eq!((request.writer_id.as_str(), request.now_ms), ("mbp-c", 50));
                desk.page = Some(("page-1".to_string(), request.body));
                ConsolidateEvent::Committed(Ok(("page-1".to_string(), 5)))
            }
            ConsolidateAction::Release => {
                desk.released += 1;
                ConsolidateEvent::Released(Ok(()))
            }
            ConsolidateAction::Finish(outcome) => return outcome,
        };
        let next = run.next(event);
        run = next.0;
        action = next.1;
    }
}

fn desk(texts: &[&'static str]) -> Desk {
    Desk {
        texts: texts.to_vec(),
        page: None,
        model: Err("down".to_string()),
        released: 0,
    }
}

#[test]
fn a_session_is_compiled_once_until_it_grows() {
    let mut desk = desk(&["first", "second"]);
    let made = consolidate(&mut desk, false).unwrap();
    assert_eq!((made.compiler, made.used_fallback), ("rules", false));
    assert_eq!((made.observations, made.segments, made.manifest_seq), (2, 2, 5));
    assert_eq!(made.page_id.as_deref(), Some("page-1"));
    assert_eq!(desk.released, 1);

    let again = consolidate(&mut desk, false).unwrap();
    assert!(again.already_up_to_date && !again.skipped);
    assert_eq!((again.compiler, again.manifest_seq), ("unchanged", 4));
    assert_eq!(desk.released, 2);

    desk.texts.push("third");
    let grown = consolidate(&mut desk, false).unwrap();
    assert!(!grown.already_up_to_date);
    assert_eq!(grown.observations, 3);
}

#[test]
fn a_failed_or_silent_model_falls_back_to_the_rules() {
    for model in [Err("down".to_string()), Ok(" \n".to_string())] {
        let mut desk = desk(&["first"]);
        desk.model = model;
        let made = consolidate(&mut desk, true).unwrap();
        assert_eq!((made.compiler, made.used_fallback), ("rules", true));
    }
    let mut desk = desk(&["first"]);
    desk.model = Ok("A summary.".to_string());
    let made = consolidate(&mut desk, true).unwrap();
    assert_eq!((made.compiler, made.used_fallback), ("llm", false));
    assert!(desk.page.unwrap().1.contains("A summary."));
}

#[test]
fn an_empty_session_and_a_held_lease_are_skipped() {
    let mut desk = desk(&[]);
    let outcome = consolidate(&mut desk, false).unwrap();
    assert!(outcome.skipped && outcome.nothing_to_compile && !outcome.lease_held);
    assert_eq!(desk.released, 1);

    let (run, _) = ConsolidateRun::start(consolidation(), false);
    let (_, action) = run.next(ConsolidateEvent::Leased(Ok(false)));
    match action {
        ConsolidateAction::Finish(Ok(outcome)) => {
            assert!(outcome.skipped && outcome.lease_held);
            assert_eq!(outcome.compiler, "none");
        }
        other => panic!("{other:?}"),
    }
    let (run, _) = ConsolidateRun::start(consolidation(), false);
    let (_, action) = run.next(ConsolidateEvent::Leased(Err(StoreError::MissingEtag)));
    match action {
        ConsolidateAction::Finish(Err(why)) => {
            assert_eq!(why, "backend returned no ETag for a conditional operation");
        }
        other => panic!("{other:?}"),
    }
}

#[test]
fn a_model_that_is_not_configured_is_an_error() {
    let error = resolve_compiler(CompilerChoice::Llm, Ok(None)).unwrap_err();
    assert!(error.contains("no provider is configured"), "{error}");
    assert!(resolve_compiler(CompilerChoice::Rules, Ok(None)).unwrap().is_none());
    let model = OpenAiCompatCompiler::new("http://x/", "k", "m").unwrap();
    let resolved = resolve_compiler(CompilerChoice::Llm, Ok(Some(model))).unwrap();
    assert_eq!(resolved.unwrap().model, "m");
    let broken = resolve_compiler(CompilerChoice::Llm, Err("half set".to_string()));
    assert_eq!(broken.unwrap_err(), "half set");
}

#[test]
fn a_workspace_counts_recency_in_once() {
    let tuning = SearchTuning { now_ms: 1_000, ..keywords_only() };
    let mut workspace = WorkspaceSearch::new();
    workspace.push(run(&index(), keywords_only(), 10, None).0.unwrap());
    let (places, weights) = workspace.to_score();
    let hits = workspace.fused(&scores(&places, &weights));
    let committed: Vec<i64> = hits.iter().map(|h| h.updated_at_ms).collect();
    let ages = WorkspaceSearch::ages(&hits, &tuning).unwrap();
    let wanted: Vec<Option<i64>> =
        committed.iter().map(|at| if *at > 0 { Some(1_000 - at) } else { None }).collect();
    assert_eq!(ages, wanted);
    let boosts: Vec<(u32, u32)> = (0..hits.len())
        .map(|n| (2.0f32.to_bits(), (1.0 + n as f32).to_bits()))
        .collect();
    let last = hits[hits.len() - 1].page_id.clone();
    let outcome = workspace.finish(hits, &tuning, &boosts, 1);
    assert_eq!(outcome.hits.len(), 1);
    assert_eq!(outcome.hits[0].page_id, last);
    assert_eq!(outcome.hits[0].recency_multiplier, 2.0f32.to_bits());
}

#[test]
fn counts_that_overflow_do_not_fit() {
    let mut workspace = WorkspaceSearch::new();
    let outcome = || run(&index(), keywords_only(), 10, None).0.unwrap();
    let mut large = outcome();
    large.candidates = usize::MAX;
    assert!(workspace.fits(&large));
    workspace.push(large);
    assert!(!workspace.fits(&outcome()));
}

#[test]
fn an_answer_is_in_order_and_names_no_page_twice() {
    let (outcome, _) = run(&index(), SearchTuning::default(), 10, None);
    let hits = outcome.unwrap().hits;
    assert!(hits.len() > 1);
    for pair in hits.windows(2) {
        assert!(key_of(pair[0].score) >= key_of(pair[1].score));
    }
    for (n, one) in hits.iter().enumerate() {
        for other in &hits[n + 1..] {
            assert_ne!(one.page_id, other.page_id);
            assert_ne!(one.path, other.path);
        }
    }
}
