use std::collections::BTreeMap;

use bytes::Bytes;
use futures::executor::block_on;
use object_store::memory::InMemory;
use object_store::path::Path;
use object_store::{ObjectStore, PutMode, PutOptions, UpdateVersion};

use quick_memory::store::gc::{
    chain_heads, live_keys, ChainKeys, GcAction, GcOutcome, GcRun, LinkKeys, LiveFacts,
    SessionKeys,
};
use quick_memory::store::live_run::{LiveAction, LiveEvent, LiveRun};
use quick_memory::store::probe::{
    Probe, ProbeAction, ProbeEvent, ProbeReport, ProbeStep, ReadReply, WriteReply,
};
use quick_memory::store::records::{Manifest, PageEntry, Tombstone};
use quick_memory::store::verify::{
    unreadable_project, verify_project, PageFact, PageFinding, PredecessorFact, ProjectFacts,
    SessionFact, ShardFact, SplitFact,
};
use quick_memory::store::verify_run::{VerifyAction, VerifyEvent, VerifyRun};
use quick_memory::store::version::{
    after_delete, after_head, BackendFailure, KeyScope, ObjectVersion, RawListed, StoreError,
};

// ---- Garbage ----------------------------------------------------------------------

fn facts() -> LiveFacts {
    LiveFacts {
        manifest_key: "p/commit-point.json".to_string(),
        shard_keys: vec!["p/manifest/shards/a.json".to_string()],
        predecessor_key: Some("p/manifest/archive/1.json".to_string()),
        chains: vec![
            ChainKeys { current: Some("p/pages/x/1.json".to_string()), links: Vec::new() },
            ChainKeys {
                current: None,
                links: vec![
                    LinkKeys {
                        wal: "p/wal/3.json".to_string(),
                        page: "p/pages/gone/3.json".to_string(),
                    },
                    LinkKeys {
                        wal: "p/wal/2.json".to_string(),
                        page: "p/pages/gone/2.json".to_string(),
                    },
                ],
            },
        ],
        commit_keys: vec!["p/commits/1.json".to_string()],
        catalog_head_key: "p/index/head.json".to_string(),
        catalog_key: Some("p/index/catalog/live.json".to_string()),
        split_prefixes: vec!["p/index/splits/mbp/1".to_string()],
        sessions: vec![SessionKeys {
            head: "p/sessions/s/head.json".to_string(),
            segments: vec!["p/sessions/s/segments/1.json".to_string()],
        }],
    }
}

fn collect(
    keys: &[&str],
    modified: &BTreeMap<&str, i64>,
    now_ms: i64,
    grace_ms: i64,
    apply: bool,
) -> GcOutcome {
    let listed = keys.iter().map(|k| k.to_string()).collect();
    let mut run = GcRun::start(live_keys(&facts()), listed, now_ms, grace_ms, apply);
    loop {
        match run.advance() {
            GcAction::Inspect(key) => {
                let at = modified.get(key.as_str()).copied();
                if let Some(GcAction::Delete(gone)) = run.inspected(at) {
                    assert_eq!(gone, key);
                }
            }
            GcAction::Finish => return run.outcome,
            GcAction::Delete(_) => unreachable!(),
        }
    }
}

fn entry(page_id: &str) -> PageEntry {
    PageEntry {
        page_id: page_id.to_string(),
        seq: 1,
        created_at_ms: 1,
        writer_id: "w".to_string(),
        title: "Live".to_string(),
        supersedes: None,
    }
}

const KEYS: [&str; 11] = [
    "p/commit-point.json",
    "p/manifest/shards/a.json",
    "p/manifest/archive/1.json",
    "p/pages/x/1.json",
    "p/commits/1.json",
    "p/index/splits/mbp/1/meta.json",
    "p/index/splits/mbp/11/meta.json",
    "p/index/catalog/live.json",
    "p/index/catalog/deadbeef.json",
    "p/sessions/s/head.json",
    "p/sessions/ghost/segments/1.json",
];

#[test]
fn only_unreachable_objects_are_collected() {
    let modified: BTreeMap<&str, i64> = KEYS.iter().map(|k| (*k, 0)).collect();
    let plan = collect(&KEYS, &modified, 1_000, 0, false);
    assert!(plan.dry_run);
    assert_eq!((plan.scanned, plan.live, plan.collectable, plan.deleted), (11, 8, 3, 0));
    assert!(plan.deleted_keys.is_empty());

    let applied = collect(&KEYS, &modified, 1_000, 0, true);
    assert_eq!(applied.deleted, 3);
    assert_eq!(
        applied.deleted_keys,
        vec![
            "p/index/splits/mbp/11/meta.json",
            "p/index/catalog/deadbeef.json",
            "p/sessions/ghost/segments/1.json",
        ]
    );
}

#[test]
fn every_chain_and_every_session_is_walked() {
    let mut manifest = Manifest::empty();
    manifest.record("notes/a.md", entry("a1"));
    manifest.tombstone(
        "notes/gone.md",
        Tombstone {
            seq: 2,
            deleted_at_ms: 2,
            writer_id: "w".to_string(),
            last_page_id: Some("g1".to_string()),
        },
    );
    let walk = |fails: usize| {
        let (mut run, mut action) = LiveRun::start(
            &manifest,
            "p/commit-point.json".to_string(),
            Vec::new(),
            None,
            "p/index/head.json".to_string(),
        );
        let mut asked = Vec::new();
        loop {
            asked.push(format!("{action:?}"));
            let down = || StoreError::Backend("down".to_string());
            let failed = asked.len() == fails;
            let event = match action {
                LiveAction::WalkChain(path, id) => LiveEvent::Chain(if failed {
                    Err(down())
                } else {
                    let link =
                        LinkKeys { wal: format!("p/wal/{id}"), page: format!("p/{path}/{id}/link") };
                    Ok((format!("p/{path}/{id}"), vec![link]))
                }),
                LiveAction::ListCommits => LiveEvent::Commits(if failed {
                    Err(down())
                } else {
                    Ok(vec!["p/commits/1".to_string()])
                }),
                LiveAction::LoadCatalog => LiveEvent::Catalog(if failed {
                    Err(down())
                } else {
                    Ok((Some("p/catalog".to_string()), vec!["p/split".to_string()]))
                }),
                LiveAction::ListSessions => LiveEvent::Sessions(if failed {
                    Err(down())
                } else {
                    Ok(vec!["s".to_string()])
                }),
                LiveAction::ReadSession(session) => LiveEvent::Session(if failed {
                    Err(down())
                } else {
                    Ok(SessionKeys { head: format!("p/{session}"), segments: Vec::new() })
                }),
                LiveAction::Finish(live) => return (asked, live),
            };
            (run, action) = run.next(event);
        }
    };
    let (asked, live) = walk(0);
    assert_eq!(
        asked[..6],
        [
            r#"WalkChain("notes/a.md", "a1")"#,
            r#"WalkChain("notes/gone.md", "g1")"#,
            "ListCommits",
            "LoadCatalog",
            "ListSessions",
            r#"ReadSession("s")"#,
        ]
    );
    let live = live.unwrap();
    for key in [
        "p/commit-point.json",
        "p/notes/a.md/a1",
        "p/wal/a1",
        "p/notes/a.md/a1/link",
        "p/wal/g1",
        "p/notes/gone.md/g1/link",
        "p/commits/1",
        "p/index/head.json",
        "p/catalog",
        "p/split/x",
        "p/s",
    ] {
        assert!(live.holds(key), "{key}");
    }
    assert!(!live.holds("p/notes/gone.md/g1"));
    for n in 1..=6 {
        let (asked, live) = walk(n);
        assert_eq!(asked.len(), n + 1);
        assert_eq!(live.unwrap_err().message(), "object store error: down");
    }
}

#[test]
fn the_numbers_of_a_pass_add_up() {
    let modified: BTreeMap<&str, i64> =
        KEYS.iter().enumerate().map(|(n, k)| (*k, 100 * n as i64)).collect();
    for (grace_ms, apply) in [(0, true), (200, true), (200, false)] {
        let pass = collect(&KEYS, &modified, 1_000, grace_ms, apply);
        assert_eq!(pass.scanned, pass.live + pass.collectable + pass.kept_recent);
        assert_eq!(pass.deleted, pass.deleted_keys.len());
        assert_eq!(pass.deleted, if apply { pass.collectable } else { 0 });
        assert_eq!(pass.kept_recent, if grace_ms > 0 { 1 } else { 0 });
    }
}

#[test]
fn recent_objects_are_kept() {
    let orphan = "p/index/catalog/deadbeef.json";
    let modified = BTreeMap::from([(orphan, 500)]);
    let kept = collect(&[orphan], &modified, 1_000, i64::MAX, true);
    assert_eq!((kept.deleted, kept.kept_recent), (0, 1));
    assert_eq!(collect(&[orphan], &modified, 1_000, 501, true).kept_recent, 1);
    assert_eq!(collect(&[orphan], &modified, 1_000, 500, true).deleted, 1);
    // An object that is gone by now is neither.
    let gone = collect(&[orphan], &BTreeMap::new(), 1_000, 0, true);
    assert_eq!((gone.scanned, gone.collectable, gone.kept_recent), (1, 0, 0));
}

#[test]
fn the_history_of_a_deleted_page_is_kept() {
    let mut manifest = Manifest::empty();
    manifest.record("notes/live.md", entry("p1"));
    manifest.tombstone(
        "notes/doomed.md",
        Tombstone {
            seq: 2,
            deleted_at_ms: 2,
            writer_id: "w".to_string(),
            last_page_id: Some("p3".to_string()),
        },
    );
    manifest.tombstone(
        "notes/never.md",
        Tombstone { seq: 3, deleted_at_ms: 3, writer_id: "w".to_string(), last_page_id: None },
    );
    let heads: Vec<(String, String, bool)> =
        chain_heads(&manifest).into_iter().map(|h| (h.path, h.page_id, h.current)).collect();
    assert_eq!(heads.len(), 2);
    assert!(heads.contains(&("notes/live.md".to_string(), "p1".to_string(), true)));
    assert!(heads.contains(&("notes/doomed.md".to_string(), "p3".to_string(), false)));
    assert_eq!(manifest.seq, 3);
    assert_eq!(manifest.next_seq(), 4);

    let kept = [
        "p/wal/3.json",
        "p/pages/gone/3.json",
        "p/wal/2.json",
        "p/pages/gone/2.json",
        "p/sessions/s/segments/1.json",
    ];
    let modified: BTreeMap<&str, i64> = kept.iter().map(|k| (*k, 0)).collect();
    let pass = collect(&kept, &modified, 1_000, 0, true);
    assert_eq!((pass.live, pass.collectable, pass.deleted), (5, 0, 0));
}

#[test]
fn shards_and_archive_are_kept() {
    let kept = ["p/manifest/shards/a.json", "p/manifest/archive/1.json"];
    let orphan = "p/manifest/shards/b.json";
    let keys = [kept[0], kept[1], orphan];
    let modified: BTreeMap<&str, i64> = keys.iter().map(|k| (*k, 0)).collect();
    let pass = collect(&keys, &modified, 1_000, 0, true);
    assert_eq!((pass.scanned, pass.live, pass.deleted), (3, 2, 1));
    assert_eq!(pass.deleted_keys, vec![orphan]);
}

// ---- Integrity --------------------------------------------------------------------

fn healthy() -> ProjectFacts {
    ProjectFacts {
        seq: 3,
        shards: Vec::new(),
        predecessor: None,
        pages: vec![PageFact {
            path: "notes/raft.md".to_string(),
            page_id: "p1".to_string(),
            finding: PageFinding::Walked(Ok(Some("p1".to_string())), Ok("p1".to_string())),
        }],
        session_prefix: "p/sessions".to_string(),
        sessions: Ok(vec![SessionFact { session: "s".to_string(), chain: Ok(()) }]),
        catalog_head_key: "p/index/head.json".to_string(),
        splits: Ok(vec![SplitFact { prefix: "p/index/splits/1".to_string(), objects: Ok(4) }]),
    }
}

fn problems(facts: &ProjectFacts) -> Vec<(String, String, String)> {
    verify_project(facts)
        .unwrap()
        .problems
        .into_iter()
        .map(|p| (p.kind.to_string(), p.subject, p.detail))
        .collect()
}

fn told(kind: &str, subject: &str, detail: &str) -> (String, String, String) {
    (kind.to_string(), subject.to_string(), detail.to_string())
}

#[test]
fn sound_facts_make_a_clean_report() {
    let report = verify_project(&healthy()).unwrap();
    assert!(report.ok(), "{:?}", report.problems);
    assert_eq!(
        (report.manifest_seq, report.pages, report.sessions, report.splits, report.shards),
        (3, 1, 1, 1, 0)
    );
}

#[test]
fn a_page_that_is_missing_is_named() {
    let mut facts = healthy();
    facts.pages[0].finding =
        PageFinding::Walked(Ok(Some("p1".to_string())), Err(StoreError::NotFound));
    assert_eq!(
        problems(&facts),
        vec![told("page_version", "notes/raft.md (p1)", "object not found")]
    );
    facts.pages[0].finding = PageFinding::Walked(Ok(None), Ok("p1".to_string()));
    assert_eq!(
        problems(&facts),
        vec![told("page_chain", "notes/raft.md", "the chain does not end at the manifest head")]
    );
    facts.pages[0].finding = PageFinding::BadPath("no path".to_string());
    assert_eq!(problems(&facts), vec![told("page_path", "notes/raft.md", "no path")]);
}

#[test]
fn a_shard_under_another_key_is_named() {
    let mut facts = healthy();
    facts.shards.push(ShardFact {
        shard: 7,
        key: "p/manifest/shards/a-copy.json".to_string(),
        canonical: "p/manifest/shards/a.json".to_string(),
    });
    facts.shards.push(ShardFact {
        shard: 8,
        key: "p/manifest/shards/b.json".to_string(),
        canonical: "p/manifest/shards/b.json".to_string(),
    });
    assert_eq!(
        problems(&facts),
        vec![told(
            "manifest_shard_key",
            "p/manifest/shards/a-copy.json",
            "shard 7 is filed under a key that is not its content hash (expected p/manifest/shards/a.json)"
        )]
    );
}

#[test]
fn every_other_inconsistency_is_reported_too() {
    let mut facts = healthy();
    facts.predecessor = Some(PredecessorFact {
        key: "p/archive.json".to_string(),
        seq: 12,
        content_hash: "aa".to_string(),
        actual: Ok("bb".to_string()),
    });
    facts.sessions = Ok(vec![SessionFact {
        session: "s".to_string(),
        chain: Err(StoreError::Corrupt("k does not hash to its key".to_string())),
    }]);
    facts.splits = Ok(vec![
        SplitFact { prefix: "p/index/splits/1".to_string(), objects: Ok(0) },
        SplitFact {
            prefix: "p/index/splits/2".to_string(),
            objects: Err(StoreError::MissingEtag),
        },
    ]);
    assert_eq!(
        problems(&facts),
        vec![
            told(
                "manifest_predecessor",
                "p/archive.json",
                "the archived whole manifest hashes to bb, but the root records aa"
            ),
            told("session_chain", "s", "corrupt object: k does not hash to its key"),
            told(
                "split_missing",
                "p/index/splits/1",
                "the catalog references a split with no objects"
            ),
            told(
                "split_unreadable",
                "p/index/splits/2",
                "backend returned no ETag for a conditional operation"
            ),
        ]
    );
    facts = healthy();
    facts.predecessor = Some(PredecessorFact {
        key: "p/archive.json".to_string(),
        seq: 12,
        content_hash: "aa".to_string(),
        actual: Err(StoreError::NotFound),
    });
    assert_eq!(
        problems(&facts),
        vec![told(
            "manifest_predecessor",
            "p/archive.json",
            "the root names a predecessor at seq 12 that cannot be read: object not found"
        )]
    );
    let report = unreadable_project("p/commit-point.json", StoreError::MissingEtag).unwrap();
    assert_eq!(report.problems[0].kind, "manifest");
    assert_eq!(report.problems[0].subject, "p/commit-point.json");
    assert_eq!(report.manifest_seq, 0);
}

#[test]
fn a_page_whose_content_was_altered_is_named() {
    let mut facts = healthy();
    facts.pages[0].finding =
        PageFinding::Walked(Ok(Some("p1".to_string())), Ok("p7".to_string()));
    assert_eq!(
        problems(&facts),
        vec![told("page_version", "notes/raft.md (p1)", "the content hashes to p7")]
    );
}

#[test]
fn a_backend_that_fails_ends_the_check() {
    let down = |what: &str| StoreError::Backend(what.to_string());
    let failure = |facts: &ProjectFacts| verify_project(facts).unwrap_err().message();
    let told_down = |what: &str| format!("object store error: {what}");
    assert_eq!(
        unreadable_project("p/commit-point.json", down("m")).unwrap_err().message(),
        told_down("m")
    );

    let mut facts = healthy();
    facts.splits = Ok(vec![
        SplitFact { prefix: "p/1".to_string(), objects: Ok(0) },
        SplitFact { prefix: "p/2".to_string(), objects: Err(down("split")) },
        SplitFact { prefix: "p/3".to_string(), objects: Err(down("later")) },
    ]);
    assert_eq!(failure(&facts), told_down("split"));
    facts.sessions = Ok(vec![
        SessionFact { session: "s".to_string(), chain: Err(StoreError::NotFound) },
        SessionFact { session: "t".to_string(), chain: Err(down("session")) },
    ]);
    assert_eq!(failure(&facts), told_down("session"));
    facts.sessions = Err(down("sessions"));
    assert_eq!(failure(&facts), told_down("sessions"));
    facts.pages[0].finding = PageFinding::Walked(Ok(None), Err(down("page")));
    assert_eq!(failure(&facts), told_down("page"));
    facts.pages[0].finding = PageFinding::Walked(Err(down("chain")), Err(down("page")));
    assert_eq!(failure(&facts), told_down("chain"));
    facts.predecessor = Some(PredecessorFact {
        key: "p/archive.json".to_string(),
        seq: 12,
        content_hash: "aa".to_string(),
        actual: Err(down("archive")),
    });
    assert_eq!(failure(&facts), told_down("archive"));
    facts = healthy();
    facts.splits = Err(down("catalog"));
    assert_eq!(failure(&facts), told_down("catalog"));
}

/// Runs a check of a manifest with two pages, and writes down what it asked for.
fn check(answer: &dyn Fn(&VerifyAction) -> VerifyEvent) -> (Vec<String>, VerifyAction) {
    let mut manifest = Manifest::empty();
    manifest.record("notes/b.md", entry("b1"));
    manifest.record("notes/a.md", entry("a2"));
    manifest.seq = 7;
    let (mut run, mut action) = VerifyRun::start(
        manifest,
        Vec::new(),
        None,
        "p/sessions".to_string(),
        "p/index/head.json".to_string(),
    );
    let mut asked = Vec::new();
    while !matches!(action, VerifyAction::Finish(_)) {
        let event = answer(&action);
        asked.push(format!("{action:?}"));
        (run, action) = run.next(event);
    }
    (asked, action)
}

fn sound_answer(action: &VerifyAction) -> VerifyEvent {
    match action {
        VerifyAction::CheckPath(_) => VerifyEvent::Path(Ok(())),
        VerifyAction::Walk(path, id) => {
            assert!(path.starts_with("notes/"));
            VerifyEvent::Walked(Ok(vec!["a1".to_string(), id.clone()]))
        }
        VerifyAction::Read(_, id) => VerifyEvent::Read(Ok(id.clone())),
        VerifyAction::ListSessions => VerifyEvent::Sessions(Ok(vec!["s".to_string()])),
        VerifyAction::ReadSession(_) => VerifyEvent::Session(Ok(())),
        VerifyAction::LoadCatalog => VerifyEvent::Catalog(Ok(vec!["p/x".to_string()])),
        VerifyAction::ListSplit(_) => VerifyEvent::Split(Ok(2)),
        VerifyAction::Finish(_) => unreachable!(),
    }
}

#[test]
fn a_check_looks_into_everything_that_is_named() {
    let (asked, last) = check(&sound_answer);
    assert_eq!(
        asked,
        vec![
            r#"CheckPath("notes/a.md")"#,
            r#"Walk("notes/a.md", "a2")"#,
            r#"Read("notes/a.md", "a2")"#,
            r#"CheckPath("notes/b.md")"#,
            r#"Walk("notes/b.md", "b1")"#,
            r#"Read("notes/b.md", "b1")"#,
            "ListSessions",
            r#"ReadSession("s")"#,
            "LoadCatalog",
            r#"ListSplit("p/x")"#,
        ]
    );
    let VerifyAction::Finish(Ok(report)) = last else { panic!("{last:?}") };
    assert!(report.ok());
    assert_eq!((report.manifest_seq, report.pages, report.sessions, report.splits), (7, 2, 1, 1));
}

#[test]
fn a_check_goes_on_after_what_is_wrong() {
    let (asked, last) = check(&|action| match action {
        VerifyAction::CheckPath(path) if path == "notes/a.md" => {
            VerifyEvent::Path(Err("no path".to_string()))
        }
        VerifyAction::Walk(..) => VerifyEvent::Walked(Ok(Vec::new())),
        VerifyAction::Read(..) => VerifyEvent::Read(Ok("b9".to_string())),
        VerifyAction::ListSessions => VerifyEvent::Sessions(Err(StoreError::MissingEtag)),
        VerifyAction::ListSplit(_) => VerifyEvent::Split(Ok(0)),
        other => sound_answer(other),
    });
    assert_eq!(asked.len(), 7);
    let VerifyAction::Finish(Ok(report)) = last else { panic!("{last:?}") };
    let found: Vec<(&str, &str)> =
        report.problems.iter().map(|p| (p.kind.as_str(), p.subject.as_str())).collect();
    assert_eq!(
        found,
        vec![
            ("page_path", "notes/a.md"),
            ("page_chain", "notes/b.md"),
            ("page_version", "notes/b.md (b1)"),
            ("sessions", "p/sessions"),
            ("split_missing", "p/x"),
        ]
    );
    assert_eq!(report.sessions, 0);
}

#[test]
fn a_check_ends_where_the_backend_fails() {
    let down = || StoreError::Backend("down".to_string());
    let fails_at = |n: usize| {
        let seen = std::cell::Cell::new(0);
        let (asked, last) = check(&|action| {
            seen.set(seen.get() + 1);
            if seen.get() < n {
                return sound_answer(action);
            }
            match action {
                VerifyAction::Read(..) => VerifyEvent::Read(Err(down())),
                VerifyAction::ListSessions => VerifyEvent::Sessions(Err(down())),
                VerifyAction::ReadSession(_) => VerifyEvent::Session(Err(down())),
                VerifyAction::LoadCatalog => VerifyEvent::Catalog(Err(down())),
                VerifyAction::ListSplit(_) => VerifyEvent::Split(Err(down())),
                other => panic!("{other:?}"),
            }
        });
        let VerifyAction::Finish(Err(error)) = last else { panic!("{last:?}") };
        assert_eq!(error.message(), "object store error: down");
        asked.len()
    };
    for n in [3, 6, 7, 8, 9, 10] {
        assert_eq!(fails_at(n), n);
    }
}

// ---- Conditional writes -----------------------------------------------------------

fn failure(error: object_store::Error) -> StoreError {
    StoreError::from_backend(match error {
        object_store::Error::NotFound { .. } => BackendFailure::NotFound,
        object_store::Error::Precondition { .. } => BackendFailure::Precondition,
        object_store::Error::AlreadyExists { .. } => BackendFailure::AlreadyExists,
        other => BackendFailure::Other(other.to_string()),
    })
}

struct Memory {
    store: InMemory,
    path: Path,
}

impl Memory {
    fn put(&self, body: &str, mode: PutMode) -> WriteReply {
        let options = PutOptions { mode, ..PutOptions::default() };
        let payload = Bytes::from(body.to_string()).into();
        match block_on(self.store.put_opts(&self.path, payload, options)) {
            Ok(result) => ObjectVersion::identified(result.e_tag, result.version),
            Err(error) => Err(failure(error)),
        }
    }

    fn update(&self, body: &str, expected: &ObjectVersion) -> WriteReply {
        let tag = expected.as_update_version()?;
        self.put(body, PutMode::Update(UpdateVersion { e_tag: tag.e_tag, version: tag.version }))
    }

    fn read(&self) -> ReadReply {
        let result = block_on(self.store.get(&self.path)).map_err(failure)?;
        let version = ObjectVersion::identified(
            result.meta.e_tag.clone(),
            result.meta.version.clone(),
        )?;
        let bytes = block_on(result.bytes()).map_err(failure)?;
        Ok((bytes.to_vec(), version))
    }
}

fn names(report: &ProbeReport) -> Vec<&'static str> {
    report.steps.iter().map(|s| s.name).collect()
}

#[test]
fn in_memory_backend_passes_conformance() {
    let scope = KeyScope::new("/probe/");
    let memory = Memory {
        store: InMemory::new(),
        path: Path::from(scope.path("cas").unwrap()),
    };
    let (mut probe, mut action) = Probe::start();
    let report = loop {
        let event = match action {
            ProbeAction::Create(body) => ProbeEvent::Written(memory.put(body, PutMode::Create)),
            ProbeAction::Update(body, expected) => {
                ProbeEvent::Written(memory.update(body, &expected))
            }
            ProbeAction::Read => ProbeEvent::Read(memory.read()),
            ProbeAction::Finish(outcome) => break outcome.unwrap(),
        };
        let next = probe.next(event);
        probe = next.0;
        action = next.1;
    };
    assert!(report.all_passed(), "{}", report.render());
    assert_eq!(
        names(&report),
        vec![
            "create-returns-etag",
            "duplicate-create-rejected",
            "etag-stable-across-read",
            "stale-etag-rejected",
            "matching-etag-accepted",
            "consumed-etag-rejected",
            "final-content",
        ]
    );
    assert_eq!(report.steps[6].detail, "b\"v3\"");
    assert!(report.render().starts_with("PASS create-returns-etag \u{2014} etag=Some(\""));
}

#[test]
fn probe_detects_a_backend_that_ignores_preconditions() {
    // It accepts every write, and its identity never moves past the first object.
    let tag = || ObjectVersion::new(Some("etag-1".to_string()), None);
    let (mut probe, mut action) = Probe::start();
    let mut body = Vec::new();
    let message = loop {
        let event = match action {
            ProbeAction::Create(text) | ProbeAction::Update(text, _) => {
                body = text.as_bytes().to_vec();
                ProbeEvent::Written(Ok(tag()))
            }
            ProbeAction::Read => ProbeEvent::Read(Ok((body.clone(), tag()))),
            ProbeAction::Finish(outcome) => break outcome.unwrap_err(),
        };
        let next = probe.next(event);
        probe = next.0;
        action = next.1;
    };
    assert!(message.starts_with("conditional-write conformance failed:\n"), "{message}");
    assert!(message.contains("FAIL duplicate-create-rejected"), "{message}");
    assert!(message.contains("FAIL stale-etag-rejected"), "{message}");
    assert!(message.contains("FAIL matching-etag-accepted"), "{message}");
    assert!(message.contains("FAIL consumed-etag-rejected"), "{message}");
    assert!(message.contains("FAIL final-content \u{2014} b\"v4\""), "{message}");
}

#[test]
fn a_probe_that_cannot_write_says_so() {
    let (probe, _) = Probe::start();
    let (_, action) = probe.next(ProbeEvent::Written(Err(StoreError::Backend("down".to_string()))));
    match action {
        ProbeAction::Finish(Err(message)) => {
            assert_eq!(message, "create failed: object store error: down");
        }
        other => panic!("{other:?}"),
    }
    let report = ProbeReport {
        steps: vec![ProbeStep { name: "x", ok: false, detail: "y".to_string() }],
    };
    assert!(!report.all_passed());
    assert_eq!(report.render(), "FAIL x \u{2014} y");
}

// ---- Keys -------------------------------------------------------------------------

#[test]
fn keys_stand_under_their_prefix_and_come_back_from_a_listing() {
    let scope = KeyScope::new("/v1/");
    assert_eq!(scope.prefix, "v1");
    assert_eq!(scope.path("/ws/acme").unwrap(), "v1/ws/acme");
    assert_eq!(scope.path("a b/\u{4e2d}.json").unwrap(), "v1/a b/\u{4e2d}.json");
    assert_eq!(scope.prefix_path("/").unwrap(), "v1");
    assert_eq!(scope.prefix_path("ws/").unwrap(), "v1/ws");
    assert_eq!(scope.relative("v1/ws/acme"), "ws/acme");
    let root = KeyScope::new("");
    assert_eq!(root.path("/k").unwrap(), "k");
    assert_eq!(root.prefix_path("").unwrap(), "");
    assert_eq!(root.relative("k"), "k");

    for bad in ["a//b", "a/../b", "./a", "a\u{7f}"] {
        let error = scope.path(bad).unwrap_err();
        assert!(matches!(error, StoreError::Backend(_)), "{bad:?} was accepted");
    }

    let listed = scope
        .listing(vec![
            RawListed {
                location: "v1/b".to_string(),
                etag: Some("e2".to_string()),
                version: None,
            },
            RawListed {
                location: "v1/a".to_string(),
                etag: None,
                version: Some("v".to_string()),
            },
        ])
        .unwrap();
    let keys: Vec<&str> = listed.iter().map(|l| l.key.as_str()).collect();
    assert_eq!(keys, vec!["a", "b"]);
    assert_eq!(listed[1].version.etag(), Some("e2"));
    let nameless =
        RawListed { location: "v1/a".to_string(), etag: None, version: None };
    assert!(matches!(scope.listing(vec![nameless]), Err(StoreError::MissingEtag)));
}

#[test]
fn an_update_carries_the_etag_and_nothing_else() {
    let both = ObjectVersion::new(Some("e".to_string()), Some("v".to_string()));
    let tag = both.as_update_version().unwrap();
    assert_eq!((tag.e_tag.as_deref(), tag.version.as_deref()), (Some("e"), None));
    assert_eq!(both.require_etag().unwrap(), "e");
    let versioned = ObjectVersion::identified(None, Some("v".to_string())).unwrap();
    assert!(matches!(versioned.require_etag(), Err(StoreError::MissingEtag)));
    assert!(matches!(versioned.as_update_version(), Err(StoreError::MissingEtag)));
    assert!(matches!(ObjectVersion::identified(None, None), Err(StoreError::MissingEtag)));
}

#[test]
fn failures_of_a_backend_are_told_apart() {
    assert!(after_delete(Err(BackendFailure::NotFound)).is_ok());
    assert!(after_delete(Ok(())).is_ok());
    assert!(matches!(
        after_delete(Err(BackendFailure::Precondition)),
        Err(StoreError::Precondition)
    ));
    assert_eq!(after_head(Ok(9)).unwrap(), Some(9));
    assert_eq!(after_head(Err(BackendFailure::NotFound)).unwrap(), None);
    let down = after_head(Err(BackendFailure::Other("down".to_string()))).unwrap_err();
    assert_eq!(down.message(), "object store error: down");
    let told: Vec<String> = [
        StoreError::NotFound,
        StoreError::from_backend(BackendFailure::Precondition),
        StoreError::from_backend(BackendFailure::AlreadyExists),
        StoreError::MissingEtag,
    ]
    .iter()
    .map(|e| e.message())
    .collect();
    assert_eq!(
        told,
        vec![
            "object not found",
            "precondition failed",
            "object already exists",
            "backend returned no ETag for a conditional operation",
        ]
    );
    assert!(StoreError::AlreadyExists.lost_the_race());
    assert!(!StoreError::NotFound.lost_the_race());
}

#[test]
fn a_path_that_no_object_can_have_is_told_with_its_segment() {
    let root = KeyScope::new("");
    let why = |key: &str| root.path(key).unwrap_err().message();
    assert_eq!(
        why("a//b"),
        "object store error: Path \"a//b\" contained empty path segment"
    );
    assert_eq!(
        why("a/../b\u{1}"),
        "object store error: Error parsing Path \"a/../b\u{1}\": Encountered illegal character \
         sequence \"..\" whilst parsing path segment \"..\""
    );
    assert_eq!(
        why("a/b\u{1}c\u{2}/."),
        "object store error: Error parsing Path \"a/b\u{1}c\u{2}/.\": Encountered illegal \
         character sequence \"\u{1}\" whilst parsing path segment \"b\u{1}c\u{2}\""
    );
}
