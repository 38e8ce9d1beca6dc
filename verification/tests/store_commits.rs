use std::collections::BTreeMap;
use std::collections::BTreeSet;

use quick_memory::ordered::OrderedMap;
use quick_memory::store::commit::{
    loaded_manifest, CommitAction, CommitEvent, CommitOutcome, CommitPageRequest, CommitRun,
    LoadedManifest,
};
use quick_memory::store::delete::{DeleteAction, DeleteEvent, DeleteOutcome, DeleteRun};
use quick_memory::store::history::{
    checked_page, ordered_wal, Asked, HistoryStep, HistoryWalk,
};
use quick_memory::store::probe::WriteReply;
use quick_memory::store::records::{Manifest, PageVersion, WalEntry};
use quick_memory::store::retry::{after_compare, after_create, CreateStep, Race, RetryPolicy};
use quick_memory::store::version::{ObjectVersion, StoreError};

const SCHEMA: u32 = 1;

fn copy_manifest(manifest: &Manifest) -> Manifest {
    let mut copy = Manifest::empty();
    copy.seq = manifest.seq;
    for (path, entry) in &manifest.pages.entries {
        copy.pages.insert(path.clone(), entry.clone());
    }
    for (path, tombstone) in &manifest.tombstones.entries {
        copy.tombstones.insert(path.clone(), tombstone.clone());
    }
    copy
}

/// The bytes of an object.
fn bytes(object: &dyn std::fmt::Debug) -> Vec<u8> {
    format!("{object:?}").into_bytes()
}

/// A bucket with one project in it.
struct Bucket {
    manifest: Option<Manifest>,
    tag: u64,
    pages: BTreeMap<(String, String), PageVersion>,
    wal: BTreeMap<String, WalEntry>,
}

fn tagged(tag: u64) -> ObjectVersion {
    ObjectVersion::new(Some(format!("etag-{tag}")), None)
}

impl Bucket {
    fn new() -> Bucket {
        Bucket { manifest: None, tag: 0, pages: BTreeMap::new(), wal: BTreeMap::new() }
    }

    fn load(&self) -> Result<LoadedManifest, StoreError> {
        loaded_manifest(match &self.manifest {
            Some(manifest) => Ok((copy_manifest(manifest), tagged(self.tag))),
            None => Err(StoreError::NotFound),
        })
    }

    fn swap(&mut self, manifest: Manifest, expected: Option<ObjectVersion>) -> WriteReply {
        let free = match expected {
            None => self.manifest.is_none(),
            Some(version) => version.etag() == Some(format!("etag-{}", self.tag).as_str()),
        };
        if !free {
            return Err(StoreError::Precondition);
        }
        self.tag += 1;
        self.manifest = Some(manifest);
        Ok(tagged(self.tag))
    }

    fn store_page(&mut self, page: PageVersion) -> Result<bool, StoreError> {
        let slot = (page.path.clone(), page.page_id.clone());
        let reply = match self.pages.get(&slot) {
            Some(_) => Err(StoreError::AlreadyExists),
            None => Ok(tagged(1)),
        };
        match after_create(reply) {
            CreateStep::Created => {
                self.pages.insert(slot, page);
                Ok(true)
            }
            CreateStep::Compare => {
                after_compare("page", &bytes(&self.pages[&slot]), &bytes(&page))
            },
            CreateStep::Failed(error) => Err(error),
        }
    }

    fn store_wal(&mut self, entry: WalEntry) -> Result<bool, StoreError> {
        let reply = match self.wal.get(&entry.page_id) {
            Some(_) => Err(StoreError::Precondition),
            None => Ok(tagged(1)),
        };
        match after_create(reply) {
            CreateStep::Created => {
                self.wal.insert(entry.page_id.clone(), entry);
                Ok(true)
            }
            CreateStep::Compare => {
                after_compare("wal", &bytes(&self.wal[&entry.page_id]), &bytes(&entry))
            },
            CreateStep::Failed(error) => Err(error),
        }
    }

    fn history(&self, path: &str) -> Result<Vec<WalEntry>, StoreError> {
        let head = match &self.manifest {
            Some(manifest) => manifest.head_page_id(path),
            None => None,
        };
        let (mut walk, mut step) = HistoryWalk::start(path.to_string(), head);
        loop {
            match step {
                HistoryStep::Done(list) => return Ok(list),
                HistoryStep::Failed(error) => return Err(error),
                HistoryStep::Read(id) => {
                    let reply = match self.wal.get(&id) {
                        Some(entry) => Ok(entry.clone()),
                        None => Err(StoreError::NotFound),
                    };
                    let next = walk.next(&format!("wal/{id}"), reply);
                    walk = next.0;
                    step = next.1;
                }
            }
        }
    }
}

fn derived(request: &CommitPageRequest, supersedes: &Option<String>) -> String {
    format!("{}|{}|{}|{:?}", request.path, request.title, request.body, supersedes)
}

fn request(writer: &str, path: &str, body: &str, now_ms: i64) -> CommitPageRequest {
    CommitPageRequest {
        workspace_id: "acme".to_string(),
        project_id: "ai-memory".to_string(),
        path: path.to_string(),
        title: path.to_string(),
        body: body.to_string(),
        writer_id: writer.to_string(),
        now_ms,
    }
}

fn patient() -> RetryPolicy {
    RetryPolicy { max_attempts: 500, base_delay_ns: 0 }
}

/// A commit under way, with what it asks for next.
struct Writer {
    run: CommitRun,
    action: CommitAction,
}

impl Writer {
    fn start(request: CommitPageRequest, retry: RetryPolicy) -> Writer {
        let (run, action) = CommitRun::start(request, retry, SCHEMA);
        Writer { run, action }
    }

    /// One step; the outcome where the commit is over.
    fn step(self, bucket: &mut Bucket) -> Result<Writer, Result<CommitOutcome, StoreError>> {
        let event = match self.action {
            CommitAction::Load => CommitEvent::Loaded(bucket.load()),
            CommitAction::Derive(supersedes) => {
                CommitEvent::Derived(derived(&self.run.request, &supersedes))
            }
            CommitAction::StorePage(page) => CommitEvent::PageStored(bucket.store_page(page)),
            CommitAction::StoreWal(entry) => CommitEvent::WalStored(bucket.store_wal(entry)),
            CommitAction::Swap(manifest, expected) => {
                CommitEvent::Swapped(bucket.swap(manifest, expected))
            }
            CommitAction::Wait(_) => CommitEvent::Waited,
            CommitAction::Finish(outcome) => return Err(outcome),
        };
        let (run, action) = self.run.next(event);
        Ok(Writer { run, action })
    }
}

fn commit(bucket: &mut Bucket, request: CommitPageRequest) -> Result<CommitOutcome, StoreError> {
    let mut writer = Writer::start(request, patient());
    loop {
        writer = match writer.step(bucket) {
            Ok(next) => next,
            Err(outcome) => return outcome,
        };
    }
}

fn delete(bucket: &mut Bucket, path: &str, now_ms: i64) -> Result<DeleteOutcome, StoreError> {
    let (mut run, mut action) =
        DeleteRun::start(path.to_string(), "mbp-1".to_string(), now_ms, patient());
    loop {
        let event = match action {
            DeleteAction::Load => DeleteEvent::Loaded(bucket.load()),
            DeleteAction::Swap(manifest, expected) => {
                DeleteEvent::Swapped(bucket.swap(manifest, expected))
            }
            DeleteAction::Wait(_) => DeleteEvent::Waited,
            DeleteAction::Finish(outcome) => return outcome,
        };
        let next = run.next(event);
        run = next.0;
        action = next.1;
    }
}

#[test]
fn concurrent_machines_never_lose_a_version() {
    let mut bucket = Bucket::new();
    let mut total_attempts = 0u32;
    let mut chains: BTreeMap<String, Vec<String>> = BTreeMap::new();
    for version in 0..5 {
        // Sixteen writers take one step each in turn, so that their reads and
        // swaps interleave.
        let mut writers: Vec<(String, Writer)> = Vec::new();
        for machine in 0..4 {
            for index in 0..4 {
                let path = format!("notes/m{machine}-{index}.md");
                let body = format!("body v{version}");
                let asked = request(&format!("mbp-{machine}"), &path, &body, 1_000 + version);
                writers.push((path, Writer::start(asked, patient())));
            }
        }
        while !writers.is_empty() {
            let mut left = Vec::new();
            for (path, writer) in writers {
                match writer.step(&mut bucket) {
                    Ok(next) => left.push((path, next)),
                    Err(outcome) => {
                        let outcome = outcome.expect("commit");
                        total_attempts += outcome.attempts;
                        chains.entry(path).or_default().push(outcome.page_id);
                    }
                }
            }
            writers = left;
        }
    }
    assert!(total_attempts > 80, "no race was lost");

    let manifest = bucket.load().unwrap().manifest;
    assert_eq!(manifest.seq, 16 * 5, "commit sequence lost writes");
    assert_eq!(manifest.pages.len(), chains.len());
    for (path, ids) in &chains {
        let history = bucket.history(path).unwrap();
        assert_eq!(history.len(), 5);
        assert_eq!(history[0].supersedes, None);
        for window in history.windows(2) {
            assert_eq!(window[1].supersedes.as_ref(), Some(&window[0].page_id));
        }
        let observed: Vec<String> = history.iter().map(|e| e.page_id.clone()).collect();
        assert_eq!(&observed, ids);
        assert_eq!(manifest.head_page_id(path).as_ref(), ids.last());
    }

    let wal: Vec<WalEntry> = bucket.wal.values().cloned().collect();
    assert_eq!(wal.len(), 80);
    let last = manifest.pages.entries.iter().map(|e| e.1.seq).max();
    assert_eq!(last, Some(80));
    let mut shuffled = wal.clone();
    shuffled.reverse();
    let committed: Vec<String> = chains.values().flatten().cloned().collect();
    let ordered: Vec<String> =
        ordered_wal(shuffled, &committed).into_iter().map(|e| e.page_id).collect();
    let wanted: BTreeSet<String> = wal.into_iter().map(|e| e.page_id).collect();
    assert_eq!(ordered, wanted.into_iter().collect::<Vec<String>>());
}

#[test]
fn deleting_a_page_is_idempotent_and_refuses_to_resurrect_it() {
    let mut bucket = Bucket::new();
    let committed = commit(&mut bucket, request("mbp-1", "notes/raft.md", "body", 1)).unwrap();
    let deleted = delete(&mut bucket, "notes/raft.md", 2).unwrap();
    assert!(!deleted.already_deleted);
    assert_eq!(deleted.removed.as_ref(), Some(&committed.page_id));
    assert_eq!(deleted.manifest_seq, 2);

    let manifest = bucket.load().unwrap().manifest;
    assert_eq!(manifest.pages.len(), 0);
    assert!(manifest.is_tombstoned("notes/raft.md"));
    let tombstone = manifest.tombstones.get("notes/raft.md").unwrap();
    assert_eq!(tombstone.last_page_id, Some(committed.page_id.clone()));
    assert_eq!((tombstone.seq, tombstone.deleted_at_ms), (2, 2));
    assert!(manifest.head("notes/raft.md").is_none());

    let again = delete(&mut bucket, "notes/raft.md", 3).unwrap();
    assert!(again.already_deleted);
    assert_eq!(again.removed, None);
    assert_eq!(again.manifest_seq, 2, "a no-op must not consume a sequence");

    let rewritten = commit(&mut bucket, request("mbp-1", "notes/raft.md", "body v2", 4)).unwrap();
    assert_eq!(rewritten.manifest_seq, 3);
    let manifest = bucket.load().unwrap().manifest;
    assert!(!manifest.is_tombstoned("notes/raft.md"));
    assert!(manifest.is_current("notes/raft.md", &rewritten.page_id));
    assert!(!manifest.is_current("notes/raft.md", &committed.page_id));
}

#[test]
fn a_machine_that_never_saw_the_state_can_continue() {
    let mut bucket = Bucket::new();
    for version in 0..3 {
        let body = format!("body v{version}");
        commit(&mut bucket, request("mbp-1", "notes/raft.md", &body, version)).unwrap();
    }
    let loaded = bucket.load().unwrap();
    assert_eq!(loaded.manifest.seq, 3);
    let current = loaded.manifest.head_page_id("notes/raft.md").unwrap();
    let outcome = commit(&mut bucket, request("mbp-2", "notes/raft.md", "body v3", 100)).unwrap();
    assert_eq!(outcome.manifest_seq, 4);
    assert_eq!(outcome.attempts, 1);
    assert_eq!(outcome.supersedes, Some(current));
    assert_eq!(bucket.history("notes/raft.md").unwrap().len(), 4);
    assert!(bucket.history("notes/none.md").unwrap().is_empty());
}

#[test]
fn a_replayed_commit_reuses_its_object_instead_of_failing() {
    let mut bucket = Bucket::new();
    let asked = request("mbp-1", "notes/raft.md", "body", 1);
    let page_id = derived(&asked, &None);
    let orphan = PageVersion {
        page_id: page_id.clone(),
        path: "notes/raft.md".to_string(),
        title: "notes/raft.md".to_string(),
        body: "body".to_string(),
        supersedes: None,
    };
    assert!(matches!(bucket.store_page(orphan), Ok(true)));
    let outcome = commit(&mut bucket, asked).unwrap();
    assert_eq!(outcome.page_id, page_id);
    assert!(!outcome.page_object_created);
    assert_eq!(outcome.manifest_seq, 1);
}

#[test]
fn a_divergent_object_at_the_same_key_is_reported() {
    let mut bucket = Bucket::new();
    let asked = request("mbp-1", "notes/raft.md", "body", 1);
    let divergent = PageVersion {
        page_id: derived(&asked, &None),
        path: "notes/raft.md".to_string(),
        title: "notes/raft.md".to_string(),
        body: "something else".to_string(),
        supersedes: None,
    };
    bucket.store_page(divergent).unwrap();
    let error = commit(&mut bucket, asked).unwrap_err();
    assert_eq!(error.message(), "corrupt object: page already exists with different content");
    assert!(bucket.manifest.is_none());
}

#[test]
fn a_commit_that_keeps_losing_gives_up() {
    let mut bucket = Bucket::new();
    let policy = RetryPolicy { max_attempts: 2, base_delay_ns: 7 };
    let mut writer = Writer::start(request("mbp-1", "notes/a.md", "a", 1), policy);
    let mut waits = Vec::new();
    loop {
        if let CommitAction::Wait(ns) = &writer.action {
            waits.push(*ns);
        }
        if matches!(writer.action, CommitAction::Swap(_, _)) {
            // Another machine moves the manifest just before the swap.
            bucket.tag += 1;
            if bucket.manifest.is_none() {
                bucket.manifest = Some(Manifest::empty());
            }
        }
        writer = match writer.step(&mut bucket) {
            Ok(next) => next,
            Err(outcome) => {
                let error = outcome.unwrap_err();
                assert!(matches!(error, StoreError::Conflict { attempts: 2 }));
                assert_eq!(error.message(), "commit conflict after 2 attempts");
                break;
            }
        };
    }
    assert_eq!(waits, vec![7]);
}

#[test]
fn a_failing_backend_ends_a_commit_with_its_error() {
    let (run, _) = CommitRun::start(request("mbp-1", "notes/a.md", "a", 1), patient(), SCHEMA);
    let (_, action) = run.next(CommitEvent::Loaded(Err(StoreError::Backend("down".to_string()))));
    match action {
        CommitAction::Finish(Err(error)) => {
            assert_eq!(error.message(), "object store error: down");
        }
        other => panic!("{other:?}"),
    }
    // A manifest that is not there is an empty one; any other failure is passed on.
    let empty = loaded_manifest(Err(StoreError::NotFound)).unwrap();
    assert_eq!(empty.manifest.seq, 0);
    assert!(empty.version.is_none());
    assert!(matches!(loaded_manifest(Err(StoreError::MissingEtag)), Err(StoreError::MissingEtag)));
}

#[test]
fn a_deletion_of_a_page_that_never_was_leaves_a_tombstone() {
    let mut bucket = Bucket::new();
    let deleted = delete(&mut bucket, "notes/none.md", 9).unwrap();
    assert!(!deleted.already_deleted);
    assert_eq!(deleted.removed, None);
    assert_eq!(deleted.manifest_seq, 1);
    let (run, _) = DeleteRun::start("a".to_string(), "w".to_string(), 1, patient());
    let (_, action) = run.next(DeleteEvent::Loaded(Err(StoreError::MissingEtag)));
    assert!(matches!(action, DeleteAction::Finish(Err(StoreError::MissingEtag))));
}

#[test]
fn a_broken_chain_is_reported_where_it_breaks() {
    let entry = WalEntry {
        schema: SCHEMA,
        writer_id: "w".to_string(),
        page_id: "p9".to_string(),
        path: "notes/a.md".to_string(),
        supersedes: None,
    };
    let (walk, step) = HistoryWalk::start("notes/a.md".to_string(), Some("p1".to_string()));
    assert!(matches!(step, HistoryStep::Read(id) if id == "p1"));
    match walk.next("wal/p1", Ok(entry)).1 {
        HistoryStep::Failed(StoreError::Corrupt(what)) => {
            assert!(what.contains("wal/p1") && what.contains("p9") && what.contains("p1"), "{what}");
        }
        other => panic!("{other:?}"),
    }
    let (walk, _) = HistoryWalk::start("notes/a.md".to_string(), Some("p1".to_string()));
    let step = walk.next("wal/p1", Err(StoreError::NotFound)).1;
    let HistoryStep::Failed(missing) = step else { panic!("{step:?}") };
    assert_eq!(missing.message(), "corrupt object: wal/p1 is missing from the chain");
    let (walk, _) = HistoryWalk::start("notes/a.md".to_string(), Some("p1".to_string()));
    let step = walk.next("wal/p1", Err(StoreError::MissingEtag)).1;
    assert!(matches!(step, HistoryStep::Failed(StoreError::MissingEtag)));
}

#[test]
fn a_page_under_another_id_is_corrupt() {
    let page = PageVersion {
        page_id: "p2".to_string(),
        path: "notes/a.md".to_string(),
        title: "A".to_string(),
        body: "a".to_string(),
        supersedes: None,
    };
    let kept = checked_page(Asked::ByManifest, "k", "p2", page.clone()).unwrap();
    assert_eq!(bytes(&kept), bytes(&page));
    assert!(checked_page(Asked::ByManifest, "k", "p1", page.clone()).is_err());
    assert!(matches!(
        checked_page(Asked::ByCaller, "k", "p1", page),
        Err(StoreError::Corrupt(_))
    ));
}

#[test]
fn backoff_grows_with_the_attempt_until_there_is_none_left() {
    let policy = RetryPolicy::default();
    assert_eq!(policy.max_attempts, 8);
    assert!(matches!(policy.lost(1), Race::After(5_000_000)));
    assert!(matches!(policy.lost(7), Race::After(35_000_000)));
    assert!(matches!(policy.lost(8), Race::GiveUp));
    assert!(matches!(patient().lost(3), Race::Again));
}

#[test]
fn an_ordered_map_keeps_its_keys_in_order() {
    let mut map: OrderedMap<u32> = OrderedMap::new();
    map.insert("b".to_string(), 1);
    map.insert("a".to_string(), 2);
    map.insert("ab".to_string(), 3);
    map.insert("b".to_string(), 4);
    let keys: Vec<&str> = map.entries.iter().map(|e| e.0.as_str()).collect();
    assert_eq!(keys, vec!["a", "ab", "b"]);
    assert_eq!(map.get("b"), Some(&4));
    map.remove("ab");
    map.remove("zz");
    assert_eq!(map.len(), 2);
    assert!(!map.contains("ab"));
}

#[test]
fn a_record_that_never_won_its_swap_is_not_read() {
    let mut bucket = Bucket::new();
    let first = commit(&mut bucket, request("mbp-1", "notes/raft.md", "one", 1)).unwrap();
    let mut orphan = bucket.wal[&first.page_id].clone();
    orphan.page_id = "aaa".to_string();
    bucket.wal.insert("aaa".to_string(), orphan);
    let listed: Vec<WalEntry> = bucket.wal.values().cloned().collect();
    assert_eq!(listed.len(), 2);
    let read = ordered_wal(listed.clone(), &vec![first.page_id.clone()]);
    let ids: Vec<String> = read.into_iter().map(|e| e.page_id).collect();
    assert_eq!(ids, vec![first.page_id]);
    assert!(ordered_wal(listed, &Vec::new()).is_empty());
}

#[test]
fn only_the_same_bytes_are_a_replay() {
    let compare = |a: &str, b: &str| after_compare("k", &a.as_bytes().to_vec(), &b.as_bytes().to_vec());
    assert!(matches!(compare("{\"a\":1}", "{\"a\":1}"), Ok(false)));
    for other in ["{\"a\": 1}", "{\"a\":2}", "{\"a\":1}\n", ""] {
        assert_eq!(
            compare(other, "{\"a\":1}").unwrap_err().message(),
            "corrupt object: k already exists with different content"
        );
    }
}
