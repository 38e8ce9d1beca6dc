use quick_memory::probe::config::{find_setting, Environment, S3Config};
use quick_memory::probe::pages::{
    check_pages, holds_page, source_page, source_page_of, source_pages, verdict, workspace_prefix,
};
use quick_memory::probe::scenario::{
    check_params, scenario_commit, scope_of, verify_scenario, ChainFact, MachineRun,
    ManifestScenarioParams, ScenarioFacts, VersionFact,
};
use quick_memory::probe::seed::{
    observations, SeedAction, SeedEvent, SeedReport, SeedRun, ALPHA, BETA,
};
use quick_memory::store::handoff::opening;
use quick_memory::store::records::Handoff;

fn environment(settings: &[(&str, &str)]) -> Environment {
    settings.iter().map(|(k, v)| (k.to_string(), v.to_string())).collect()
}

#[test]
fn a_bucket_is_configured_from_either_family_of_names() {
    let env = environment(&[
        ("R2_ENDPOINT", "https://r2.example"),
        ("QM_S3_BUCKET", "memory"),
        ("R2_BUCKET", "other"),
        ("R2_ACCESS_KEY_ID", "id"),
        ("R2_SECRET_ACCESS_KEY", "secret"),
        ("QM_S3_FORCE_PATH_STYLE", "no"),
    ]);
    let config = S3Config::from_env(&env).unwrap();
    assert_eq!(config.endpoint, "https://r2.example");
    assert_eq!(config.bucket, "memory");
    assert_eq!(config.region, "auto");
    assert_eq!(config.prefix, "qm-probe");
    assert!(!config.force_path_style);
    assert_eq!(config.plain_http(), Ok(false));
    assert_eq!(config.probe_key("1"), "qm-probe/cas-probe-1");
    assert_eq!(
        config.split_prefix(&Some("/splits/a/".to_string())),
        Ok("qm-probe/splits/a".to_string())
    );
    assert!(config.split_prefix(&None).is_err());
    assert_eq!(find_setting(&env, "R2_BUCKET").as_deref(), Some("other"));

    let mut broken = config;
    broken.endpoint = "ftp://x".to_string();
    assert_eq!(
        broken.plain_http(),
        Err("endpoint must be an http(s) URL, got \"ftp://x\"".to_string())
    );
    broken.endpoint = "http://127.0.0.1:9000".to_string();
    assert_eq!(broken.plain_http(), Ok(true));
}

#[test]
fn every_missing_setting_is_named() {
    let full = [
        ("QM_S3_ENDPOINT", "e"),
        ("QM_S3_BUCKET", "b"),
        ("QM_S3_ACCESS_KEY_ID", "k"),
        ("QM_S3_SECRET_ACCESS_KEY", "s"),
    ];
    assert!(S3Config::from_env(&environment(&full)).is_ok());
    for missing in 0..full.len() {
        let left: Vec<(&str, &str)> =
            full.iter().enumerate().filter(|(n, _)| *n != missing).map(|(_, s)| *s).collect();
        let why = S3Config::from_env(&environment(&left)).unwrap_err();
        assert!(why.contains(full[missing].0), "{why}");
    }
}

#[test]
fn pages_are_read_from_lines() {
    assert!(holds_page("{}"));
    assert!(!holds_page("  \t"));
    let member = |name: &str, text: &str| (name.to_string(), Some(text.to_string()));
    let page = vec![
        member("body", "text"),
        ("extra".to_string(), None),
        member("path", "notes/a.md"),
        member("title", "A"),
    ];
    let read = source_page("pages.jsonl", 3, Ok(Some(page))).unwrap();
    assert_eq!((read.path.as_str(), read.title.as_str(), read.body.as_str()), ("notes/a.md", "A", "text"));
    let untitled = vec![member("path", "p"), ("title".to_string(), None)];
    assert_eq!(
        source_page("pages.jsonl", 3, Ok(Some(untitled))).unwrap_err(),
        "pages.jsonl:3 has no string `title`"
    );
    assert_eq!(
        source_page("pages.jsonl", 3, Ok(None)).unwrap_err(),
        "pages.jsonl:3 has no string `path`"
    );
    assert_eq!(
        source_page("pages.jsonl", 3, Err("eof".to_string())).unwrap_err(),
        "parsing pages.jsonl:3: eof"
    );
    assert_eq!(check_pages("pages.jsonl", 0).unwrap_err(), "no pages in pages.jsonl");
    assert!(check_pages("pages.jsonl", 1).is_ok());
    assert_eq!(workspace_prefix("acme"), "v1/ws/acme");
    assert!(verdict(0).is_ok());
    assert_eq!(verdict(2).unwrap_err(), "2 checks failed");
}

#[test]
fn a_line_is_read_as_json() {
    let line = r#"{"body":"b\u0065","extra":1,"title":"T","path":"notes/a.md"}"#;
    let page = source_page_of("f", 1, line).unwrap();
    assert_eq!((page.path.as_str(), page.title.as_str(), page.body.as_str()), ("notes/a.md", "T", "be"));
    let why = |line: &str| source_page_of("f", 7, line).unwrap_err();
    assert_eq!(why(r#"{"path":"p","title":"t","body":3}"#), "f:7 has no string `body`");
    assert_eq!(why(r#"{"title":"t","body":"b"}"#), "f:7 has no string `path`");
    assert_eq!(why("[1]"), "f:7 has no string `path`");
    assert!(why("{").starts_with("parsing f:7: "), "{}", why("{"));
}

#[test]
fn blank_lines_are_passed_over_and_counted() {
    let page = |path: &str| format!(r#"{{"path":"{path}","title":"t","body":"b"}}"#);
    let mut lines = vec![page("a"), " ".to_string(), page("b")];
    let read = source_pages("f", &lines).unwrap();
    let paths: Vec<&str> = read.iter().map(|p| p.path.as_str()).collect();
    assert_eq!(paths, ["a", "b"]);
    lines.push("{}".to_string());
    lines.push("{".to_string());
    assert_eq!(source_pages("f", &lines).unwrap_err(), "f:4 has no string `path`");
    assert!(source_pages("f", &Vec::new()).unwrap().is_empty());
}

// ---- The commit scenario ----------------------------------------------------------

fn params(machines: usize, writes: usize) -> ManifestScenarioParams {
    ManifestScenarioParams { machines, writes, max_attempts: 64, scope_suffix: None }
}

fn chain(machine: usize) -> ChainFact {
    let ids: Vec<String> = (0..2).map(|v| format!("m{machine}v{v}")).collect();
    ChainFact {
        path: format!("notes/probe/m{machine}.md"),
        history: vec![
            VersionFact { page_id: ids[0].clone(), supersedes: None },
            VersionFact { page_id: ids[1].clone(), supersedes: Some(ids[0].clone()) },
        ],
        ids,
        head: Some("body v1".to_string()),
    }
}

fn facts() -> ScenarioFacts {
    ScenarioFacts {
        workspace: "w".to_string(),
        project: "p".to_string(),
        manifest_seq: 4,
        manifest_pages: 2,
        chains: vec![chain(0), chain(1)],
        wal_records: 4,
        attempts: 6,
    }
}

#[test]
fn a_run_that_lost_nothing_has_no_failures() {
    let report = verify_scenario(&params(2, 2), facts());
    assert!(report.failures.is_empty(), "{:?}", report.failures);
    assert_eq!((report.commits, report.pages, report.wal_records, report.attempts), (4, 2, 4, 6));
}

#[test]
fn every_loss_of_a_run_is_told() {
    let mut lost = facts();
    lost.manifest_seq = 3;
    lost.manifest_pages = 1;
    lost.wal_records = 3;
    lost.chains[0].history[1].supersedes = Some("x".to_string());
    lost.chains[0].ids.reverse();
    lost.chains[0].head = Some("body v0".to_string());
    lost.chains[1].history[0].supersedes = Some("y".to_string());
    lost.chains[1].head = None;
    let report = verify_scenario(&params(2, 2), lost);
    assert_eq!(
        report.failures,
        vec![
            "commit sequence 3 != 4 expected commits",
            "manifest has 1 pages, expected 2",
            "notes/probe/m0.md: broken supersession link",
            "notes/probe/m0.md: committed order differs from chain",
            "notes/probe/m0.md: head body is body v0",
            "notes/probe/m1.md: first version supersedes something",
            "notes/probe/m1.md: head not readable",
            "WAL has 3 records, expected 4",
        ]
    );
    let mut short = facts();
    short.chains[0].history.pop();
    let report = verify_scenario(&params(2, 2), short);
    assert_eq!(report.failures, vec!["notes/probe/m0.md: chain length 1"]);
}

#[test]
fn a_machine_writes_its_versions_and_counts_its_attempts() {
    let mut facts = ScenarioFacts::new("w".to_string(), "p".to_string(), 4, 2, 4);
    for machine in 0..2 {
        let mut run = MachineRun::start("w", "p", machine, 2);
        let mut bodies = Vec::new();
        while let Some(request) = run.request() {
            assert_eq!(request.path, format!("notes/probe/m{machine}.md"));
            assert_eq!(run.doing(), format!("machine {machine} commit {}", bodies.len()));
            run.committed(format!("m{machine}v{}", bodies.len()), 1 + machine as u32);
            bodies.push(request.body);
        }
        assert_eq!(bodies, vec!["body v0", "body v1"]);
        let found = chain(machine);
        facts.add(run.report, found.history, found.head);
    }
    let report = verify_scenario(&params(2, 2), facts);
    assert!(report.failures.is_empty(), "{:?}", report.failures);
    assert_eq!((report.commits, report.wal_records, report.attempts), (4, 4, 6));
}

#[test]
fn a_scenario_needs_something_to_do() {
    assert!(check_params(&params(1, 1)).is_ok());
    assert!(check_params(&params(0, 1)).is_err());
    assert!(check_params(&params(1, 0)).is_err());
    assert_eq!(scope_of("7"), ("probe-ws-7".to_string(), "probe-proj-7".to_string()));
    let request = scenario_commit("w", "p", 3, 2);
    assert_eq!(request.path, "notes/probe/m3.md");
    assert_eq!((request.title.as_str(), request.body.as_str()), ("probe m3", "body v2"));
    assert_eq!((request.writer_id.as_str(), request.now_ms), ("probe-3", 2));
}

// ---- The history of the digest probe ----------------------------------------------

fn baton(id: &str, at_ms: i64) -> Handoff {
    opening(1, id.to_string(), "t".to_string(), "b".to_string(), "w".to_string(), at_ms)
}

/// Writes the history into a bucket that works, but for what `bend` changes.
fn seed(bend: impl Fn(&SeedAction, SeedEvent) -> SeedEvent) -> Result<SeedReport, String> {
    let (mut run, mut action) = SeedRun::start();
    let mut seq = 0u64;
    let mut counts = (0u64, 0u64);
    loop {
        let event = match &action {
            SeedAction::Commit(_) => {
                seq += 1;
                SeedEvent::Committed(Ok(seq))
            }
            SeedAction::Delete(_, _) => {
                seq += 1;
                SeedEvent::Deleted(Ok((seq, false, true)))
            }
            SeedAction::Ingest(session, _, texts) => {
                let count =
                    if *session == "probe-sess-new" { &mut counts.0 } else { &mut counts.1 };
                *count += texts.len() as u64;
                SeedEvent::Ingested(Ok((texts.len(), *count)))
            }
            SeedAction::Open(title, _, at) => SeedEvent::Opened(Ok((baton(title, *at), true))),
            SeedAction::Claim(id, at) => {
                let mut claimed = baton(id, 400);
                claimed.claimed_by = Some("probe-digest-claimer".to_string());
                claimed.claimed_at_ms = Some(*at);
                SeedEvent::Claimed(Ok(claimed))
            }
            SeedAction::Finish(id, at) => {
                let mut finished = baton(id, 400);
                finished.claimed_at_ms = Some(900);
                finished.finished_at_ms = Some(*at);
                SeedEvent::Finished(Ok(finished))
            }
            SeedAction::Done(_) => match action {
                SeedAction::Done(outcome) => return outcome,
                _ => unreachable!(),
            },
        };
        let next = run.next(bend(&action, event));
        run = next.0;
        action = next.1;
    }
}

#[test]
fn the_history_is_reported_whole() {
    let report = seed(|_, event| event).unwrap();
    let commits: Vec<(u64, i64, &str, &str)> = report
        .commits
        .iter()
        .map(|c| (c.seq, c.at_ms, c.kind.as_str(), c.path.as_str()))
        .collect();
    assert_eq!(
        commits,
        vec![
            (1, 3_000, "page_written", ALPHA),
            (2, 1_000, "page_written", BETA),
            (3, 2_000, "page_deleted", BETA),
        ]
    );
    let sessions: Vec<(&str, u64, i64)> = report
        .sessions
        .iter()
        .map(|s| (s.session_id.as_str(), s.observations, s.last_seen_ms))
        .collect();
    assert_eq!(sessions, vec![("probe-sess-new", 3, 2_600), ("probe-sess-old", 1, 800)]);
    let handoffs: Vec<(i64, Option<i64>)> =
        report.handoffs.iter().map(|h| (h.created_at_ms, h.finished_at_ms)).collect();
    assert_eq!(handoffs, vec![(400, Some(3_200)), (2_800, None), (300, None)]);
}

#[test]
fn a_step_that_did_not_happen_is_not_reported() {
    let why = seed(|action, event| match action {
        SeedAction::Delete(_, _) => SeedEvent::Deleted(Ok((3, true, true))),
        _ => event,
    })
    .unwrap_err();
    assert_eq!(why, "the delete was a no-op; there was no live page at notes/beta.md to remove");
    let why = seed(|action, event| match action {
        SeedAction::Ingest(_, _, texts) if texts.len() == 2 => SeedEvent::Ingested(Ok((1, 2))),
        _ => event,
    })
    .unwrap_err();
    assert_eq!(why, "session probe-sess-new committed 1 of 2 observations");
    let why = seed(|action, event| match action {
        SeedAction::Finish(_, _) => SeedEvent::Finished(Ok(baton("x", 400))),
        _ => event,
    })
    .unwrap_err();
    assert_eq!(why, "finish_handoff recorded None, not 3200");
    let why = seed(|action, event| match action {
        SeedAction::Open(_, _, _) => SeedEvent::Opened(Ok((baton("x", 400), false))),
        _ => event,
    })
    .unwrap_err();
    assert_eq!(why, "the handoff was a replay; the scenario needs a fresh baton");
    let why = seed(|action, event| match action {
        SeedAction::Claim(_, _) => SeedEvent::Claimed(Err("down".to_string())),
        _ => event,
    })
    .unwrap_err();
    assert_eq!(why, "down");
}

#[test]
fn a_batch_is_stamped_in_order() {
    let texts = vec!["a", "b"];
    let ids = vec!["1".to_string(), "2".to_string()];
    let made = observations(1, "s", &texts, &ids, 10);
    let seen: Vec<(&str, &str, i64)> = made
        .iter()
        .map(|o| (o.observation_id.as_str(), o.text.as_str(), o.created_at_ms))
        .collect();
    assert_eq!(seen, vec![("1", "a", 10), ("2", "b", 11)]);
}
