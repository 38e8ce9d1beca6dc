use std::collections::BTreeMap;

use quick_memory::store::probe::WriteReply;
use quick_memory::store::records::{
    copy_observations, Observation, ObservationSegment, SessionHead,
};
use quick_memory::store::retry::{after_compare, after_create, CreateStep, RetryPolicy};
use quick_memory::store::session::{
    checked_segment, current_head, session_in_key, session_observations, sessions_in, ChainStep,
    ChainWalk, CurrentHead, IngestAction, IngestEvent, IngestObservationsRequest, IngestOutcome,
    IngestRun,
};
use quick_memory::store::version::{ObjectVersion, StoreError};

const SCHEMA: u32 = 1;

fn copy_segment(segment: &ObservationSegment) -> ObservationSegment {
    ObservationSegment {
        schema: segment.schema,
        session_id: segment.session_id.clone(),
        prev: segment.prev.clone(),
        observations: copy_observations(&segment.observations),
    }
}

fn derived(segment: &ObservationSegment) -> String {
    let mut id = format!("{}<{:?}", segment.session_id, segment.prev);
    for o in &segment.observations {
        id.push('/');
        id.push_str(&o.text);
    }
    id
}

/// The sessions of one project.
struct Sessions {
    heads: BTreeMap<String, (SessionHead, u64)>,
    segments: BTreeMap<String, ObservationSegment>,
}

fn tagged(tag: u64) -> ObjectVersion {
    ObjectVersion::new(Some(format!("etag-{tag}")), None)
}

impl Sessions {
    fn new() -> Sessions {
        Sessions { heads: BTreeMap::new(), segments: BTreeMap::new() }
    }

    fn head(&self, session: &str) -> Result<CurrentHead, StoreError> {
        current_head(match self.heads.get(session) {
            Some((head, tag)) => Ok((head.clone(), tagged(*tag))),
            None => Err(StoreError::NotFound),
        })
    }

    fn segment(&self, session: &str, id: &str) -> Result<ObservationSegment, StoreError> {
        match self.segments.get(id) {
            Some(found) => {
                let copy = copy_segment(found);
                let hash = derived(&copy);
                checked_segment(id, session, id, copy, &hash)
            }
            None => Err(StoreError::NotFound),
        }
    }

    fn store(&mut self, segment: ObservationSegment) -> Result<bool, StoreError> {
        let id = derived(&segment);
        let reply = match self.segments.get(&id) {
            Some(_) => Err(StoreError::AlreadyExists),
            None => Ok(tagged(1)),
        };
        match after_create(reply) {
            CreateStep::Created => {
                self.segments.insert(id, segment);
                Ok(true)
            }
            CreateStep::Compare => {
                let held = format!("{:?}", self.segments[&id]).into_bytes();
                after_compare(&id, &held, &format!("{segment:?}").into_bytes())
            },
            CreateStep::Failed(error) => Err(error),
        }
    }

    fn swap(&mut self, head: SessionHead, expected: Option<ObjectVersion>) -> WriteReply {
        let now = self.heads.get(&head.session_id).map(|found| found.1);
        let free = match (now, expected) {
            (None, None) => true,
            (Some(tag), Some(version)) => version.etag() == tagged(tag).etag(),
            _ => false,
        };
        if !free {
            return Err(StoreError::Precondition);
        }
        let tag = now.unwrap_or(0) + 1;
        self.heads.insert(head.session_id.clone(), (head, tag));
        Ok(tagged(tag))
    }

    fn observations(&self, session: &str) -> Result<Vec<Observation>, StoreError> {
        let head = self.head(session)?.map(|found| found.0);
        let (mut walk, mut step) = ChainWalk::start(session.to_string(), head);
        loop {
            match step {
                ChainStep::Done(segments) => return Ok(session_observations(&segments)),
                ChainStep::Failed(error) => return Err(error),
                ChainStep::Read(id) => {
                    let next = walk.next(&id, self.segment(session, &id));
                    walk = next.0;
                    step = next.1;
                }
            }
        }
    }
}

fn observation(session: &str, text: &str, at_ms: i64) -> Observation {
    Observation {
        schema: SCHEMA,
        observation_id: format!("{session}:{text}:{at_ms}"),
        session_id: session.to_string(),
        actor: "codex".to_string(),
        kind: "tool_use".to_string(),
        text: text.to_string(),
        created_at_ms: at_ms,
    }
}

fn batch(session: &str, texts: &[&str], now_ms: i64) -> IngestObservationsRequest {
    IngestObservationsRequest {
        workspace_id: "acme".to_string(),
        project_id: "ai-memory".to_string(),
        session_id: session.to_string(),
        writer_id: "mbp-1".to_string(),
        observations: texts
            .iter()
            .enumerate()
            .map(|(index, text)| observation(session, text, now_ms + index as i64))
            .collect(),
        now_ms,
    }
}

struct Ingest {
    run: IngestRun,
    action: IngestAction,
}

impl Ingest {
    fn start(request: IngestObservationsRequest) -> Ingest {
        let policy = RetryPolicy { max_attempts: 500, base_delay_ns: 0 };
        let (run, action) = IngestRun::start(request, SCHEMA, policy);
        Ingest { run, action }
    }

    fn step(self, sessions: &mut Sessions) -> Result<Ingest, Result<IngestOutcome, StoreError>> {
        let session = self.run.session_id.clone();
        let event = match self.action {
            IngestAction::Scrub(raw) => IngestEvent::Scrubbed(
                raw.into_iter()
                    .map(|mut o| {
                        o.text = o.text.replace("abcd1234", "[REDACTED]");
                        o.observation_id = format!("{}:{}:{}", o.session_id, o.text, o.created_at_ms);
                        o
                    })
                    .collect(),
            ),
            IngestAction::Load => IngestEvent::Loaded(sessions.head(&session)),
            IngestAction::Read(id) => IngestEvent::Read(sessions.segment(&session, &id)),
            IngestAction::Derive(segment) => IngestEvent::Derived(derived(&segment)),
            IngestAction::Store(segment) => IngestEvent::Stored(sessions.store(segment)),
            IngestAction::Swap(head, expected) => {
                IngestEvent::Swapped(sessions.swap(head, expected))
            }
            IngestAction::Wait(_) => IngestEvent::Waited,
            IngestAction::Finish(outcome) => return Err(outcome),
        };
        let (run, action) = self.run.next(event);
        Ok(Ingest { run, action })
    }

    fn finish(mut self, sessions: &mut Sessions) -> Result<IngestOutcome, StoreError> {
        loop {
            self = match self.step(sessions) {
                Ok(next) => next,
                Err(outcome) => return outcome,
            };
        }
    }
}

#[test]
fn observation_capture_builds_a_visible_chain_and_tolerates_replays() {
    let mut sessions = Sessions::new();
    let batches = [["first", "second"], ["third", "fourth"], ["fifth", "sixth"]];
    for (index, texts) in batches.iter().enumerate() {
        let outcome = Ingest::start(batch("sess-1", texts, 10 + index as i64))
            .finish(&mut sessions)
            .unwrap();
        assert!(!outcome.already_present);
        assert_eq!(outcome.generation, index as u64 + 1);
        assert_eq!(outcome.count, (index as u64 + 1) * 2);
        assert_eq!(outcome.accepted, 2);
        assert_eq!(outcome.attempts, 1);
    }
    let head = sessions.head("sess-1").unwrap().expect("head").0;
    assert_eq!((head.generation, head.count, head.updated_at_ms), (3, 6, 12));

    let texts: Vec<String> =
        sessions.observations("sess-1").unwrap().into_iter().map(|o| o.text).collect();
    assert_eq!(texts, vec!["first", "second", "third", "fourth", "fifth", "sixth"]);

    let replay =
        Ingest::start(batch("sess-1", &["fifth", "sixth"], 12)).finish(&mut sessions).unwrap();
    assert!(replay.already_present, "a retried batch must be a no-op");
    assert_eq!(replay.count, 6);
    assert_eq!(sessions.head("sess-1").unwrap().unwrap().0.generation, 3);
}

#[test]
fn two_machines_capturing_one_session_keep_both_batches() {
    let mut sessions = Sessions::new();
    let mut runs = vec![
        Ingest::start(batch("sess-shared", &["from-a"], 100)),
        Ingest::start(batch("sess-shared", &["from-b"], 101)),
    ];
    let mut attempts = 0u32;
    while !runs.is_empty() {
        let mut left = Vec::new();
        for run in runs {
            match run.step(&mut sessions) {
                Ok(next) => left.push(next),
                Err(outcome) => attempts += outcome.unwrap().attempts,
            }
        }
        runs = left;
    }
    assert_eq!(attempts, 3);
    let head = sessions.head("sess-shared").unwrap().unwrap().0;
    assert_eq!(head.count, 2, "both batches must land");
    assert_eq!(head.generation, 2, "one segment per batch");
    let texts: Vec<String> =
        sessions.observations("sess-shared").unwrap().into_iter().map(|o| o.text).collect();
    assert_eq!(texts, vec!["from-a", "from-b"]);
}

#[test]
fn what_is_stored_is_what_the_scrubbing_gave_back() {
    let mut sessions = Sessions::new();
    let raw = batch("sess-secret", &["export api_key=abcd1234 before the run"], 5);
    Ingest::start(raw).finish(&mut sessions).unwrap();
    let seen = sessions.observations("sess-secret").unwrap();
    assert_eq!(seen.len(), 1);
    assert_eq!(seen[0].text, "export api_key=[REDACTED] before the run");
    assert_eq!(
        seen[0].observation_id,
        format!("sess-secret:{}:{}", seen[0].text, seen[0].created_at_ms),
        "the stored id must match the stored bytes"
    );
}

#[test]
fn sessions_are_read_off_their_heads() {
    let prefix = "ws/acme/proj/ai-memory/sessions";
    let keys = vec![
        format!("{prefix}/sess-b/head.json"),
        format!("{prefix}/sess-a/head.json"),
        format!("{prefix}/sess-a/segments/one.json"),
        format!("{prefix}/sess-orphan/segments/deadbeef.json"),
    ];
    assert_eq!(sessions_in(prefix, &keys), vec!["sess-a", "sess-b"]);
    assert_eq!(session_in_key(prefix, &keys[0]).as_deref(), Some("sess-b"));
    assert_eq!(session_in_key(prefix, &keys[3]), None);
    assert_eq!(session_in_key(prefix, "elsewhere/sess-b/head.json"), None);
}

#[test]
fn an_observation_that_comes_twice_is_seen_once() {
    let first = ObservationSegment {
        schema: SCHEMA,
        session_id: "s".to_string(),
        prev: None,
        observations: vec![observation("s", "a", 1), observation("s", "b", 2)],
    };
    let second = ObservationSegment {
        schema: SCHEMA,
        session_id: "s".to_string(),
        prev: Some("one".to_string()),
        observations: vec![observation("s", "b", 2), observation("s", "c", 3)],
    };
    let texts: Vec<String> =
        session_observations(&vec![first, second]).into_iter().map(|o| o.text).collect();
    assert_eq!(texts, vec!["a", "b", "c"]);
}

#[test]
fn a_forged_segment_is_told() {
    let mut sessions = Sessions::new();
    Ingest::start(batch("sess-1", &["an observation"], 1)).finish(&mut sessions).unwrap();
    let id = sessions.head("sess-1").unwrap().unwrap().0.segment_id;
    let forged = ObservationSegment {
        schema: SCHEMA,
        session_id: "sess-1".to_string(),
        prev: None,
        observations: Vec::new(),
    };
    sessions.segments.insert(id.clone(), forged);
    let error = sessions.observations("sess-1").unwrap_err();
    assert_eq!(error.message(), format!("corrupt object: {id} does not hash to its key"));

    let stranger = ObservationSegment {
        schema: SCHEMA,
        session_id: "sess-2".to_string(),
        prev: None,
        observations: Vec::new(),
    };
    let error = checked_segment("k", "sess-1", "x", stranger, "x").unwrap_err();
    assert_eq!(error.message(), "corrupt object: k holds a segment for sess-2");
}

#[test]
fn an_ingest_passes_failures_on() {
    assert!(matches!(current_head(Err(StoreError::NotFound)), Ok(None)));
    assert!(matches!(current_head(Err(StoreError::MissingEtag)), Err(StoreError::MissingEtag)));
    let policy = RetryPolicy { max_attempts: 1, base_delay_ns: 0 };
    let (run, action) = IngestRun::start(batch("s", &["a"], 1), SCHEMA, policy);
    let raw = match action {
        IngestAction::Scrub(raw) => raw,
        other => panic!("{other:?}"),
    };
    let (run, _) = run.next(IngestEvent::Scrubbed(raw));
    let (run, action) = run.next(IngestEvent::Loaded(Ok(None)));
    assert!(matches!(action, IngestAction::Derive(_)));
    let (run, action) = run.next(IngestEvent::Derived("id".to_string()));
    assert!(matches!(action, IngestAction::Store(_)));
    let (run, action) = run.next(IngestEvent::Stored(Ok(true)));
    match action {
        IngestAction::Swap(head, None) => {
            assert_eq!((head.generation, head.count), (1, 1));
            assert_eq!(head.segment_id, "id");
        }
        other => panic!("{other:?}"),
    }
    let (_, action) = run.next(IngestEvent::Swapped(Err(StoreError::Precondition)));
    assert!(matches!(
        action,
        IngestAction::Finish(Err(StoreError::Conflict { attempts: 1 }))
    ));
}

#[test]
fn a_read_gives_back_what_was_ingested() {
    let mut sessions = Sessions::new();
    Ingest::start(batch("s", &["a", "b"], 1)).finish(&mut sessions).unwrap();
    let done = Ingest::start(batch("s", &["c"], 9)).finish(&mut sessions).unwrap();
    assert_eq!((done.accepted, done.count, done.generation), (1, 3, 2));
    let texts: Vec<String> =
        sessions.observations("s").unwrap().into_iter().map(|o| o.text).collect();
    assert_eq!(texts, vec!["a", "b", "c"]);
}

#[test]
fn a_chain_with_a_missing_segment_is_corrupt() {
    let mut sessions = Sessions::new();
    Ingest::start(batch("s", &["a"], 1)).finish(&mut sessions).unwrap();
    let first = sessions.head("s").unwrap().unwrap().0.segment_id;
    Ingest::start(batch("s", &["b"], 2)).finish(&mut sessions).unwrap();
    sessions.segments.remove(&first);
    let Err(broken) = sessions.observations("s") else { panic!("the chain is broken") };
    assert_eq!(
        broken.message(),
        format!("corrupt object: {first} is missing from the chain")
    );
}
