//! The walk over a project that tells garbage from what is still referred to: which chains
//! of versions and which sessions are walked, and what is asked for between them. The first
//! thing that cannot be read ends it, so that nothing is collected on half a picture.

use vstd::prelude::*;

use crate::store::gc::{
    chain_heads, fate, heads_view, live_keys, reaches, starts_chain,
    ChainHead, ChainKeys, Fate, LinkKeys, LiveFacts, LiveSet, SessionKeys,
};
use crate::store::records::{Manifest, ManifestView};
use crate::store::version::StoreError;

verus! {

/// How far a walk has come.
#[derive(Debug)]
pub enum LiveStage {
    /// The next chain of versions is being walked.
    Chain,
    /// The commit log is being listed.
    Commits,
    /// The catalog is being read.
    Catalog,
    /// The sessions are being listed.
    Sessions,
    /// The next session is being read.
    Session,
    /// Nothing more to do.
    Done,
}

/// A walk under way.
#[derive(Debug)]
pub struct LiveRun {
    /// Chains of versions that the manifest keeps alive.
    pub heads: Vec<ChainHead>,
    /// Sessions that were listed.
    pub sessions: Vec<String>,
    /// What was found so far.
    pub facts: LiveFacts,
    /// How far it has come.
    pub stage: LiveStage,
}

/// What happened.
#[derive(Debug)]
pub enum LiveEvent {
    /// A chain was walked: the key of the version it starts at, and the keys of all.
    Chain(Result<(String, Vec<LinkKeys>), StoreError>),
    /// The commit log was listed.
    Commits(Result<Vec<String>, StoreError>),
    /// The catalog was read: its key, where there is one, and the prefixes of its splits.
    Catalog(Result<(Option<String>, Vec<String>), StoreError>),
    /// The sessions were listed.
    Sessions(Result<Vec<String>, StoreError>),
    /// A session was read.
    Session(Result<SessionKeys, StoreError>),
}

/// What to do next.
#[derive(Debug)]
pub enum LiveAction {
    /// Walk the versions of the page at this path, back from this one.
    WalkChain(String, String),
    /// List the commit log.
    ListCommits,
    /// Read the catalog.
    LoadCatalog,
    /// List the sessions.
    ListSessions,
    /// Read the head and the segments of this session.
    ReadSession(String),
    /// It is over: this is what is reachable.
    Finish(Result<LiveSet, StoreError>),
}

/// Why something could not be read.
pub open spec fn unread(event: LiveEvent) -> Option<StoreError> {
    match event {
        LiveEvent::Chain(Err(error)) => Some(error),
        LiveEvent::Commits(Err(error)) => Some(error),
        LiveEvent::Catalog(Err(error)) => Some(error),
        LiveEvent::Sessions(Err(error)) => Some(error),
        LiveEvent::Session(Err(error)) => Some(error),
        _ => None,
    }
}

/// Whether these are the chains that the manifest keeps alive.
pub open spec fn heads_of(manifest: ManifestView, heads: Seq<ChainHead>) -> bool {
    forall|path: Seq<char>, page_id: Seq<char>, current: bool| #[trigger]
        heads_view(heads).contains((path, page_id, current)) <==> starts_chain(
            manifest,
            path,
            page_id,
            current,
        )
}

impl LiveRun {
    /// Whether what was found is about the first of what is to be walked, one for each. Only
    /// a current version is named by the manifest itself.
    pub open spec fn gathered(&self) -> bool {
        &&& self.facts.chains@.len() <= self.heads@.len()
        &&& forall|i: int|
            0 <= i < self.facts.chains@.len() ==> ((#[trigger] self.facts.chains@[i]).current
                is Some <==> self.heads@[i].current)
        &&& self.facts.sessions@.len() <= self.sessions@.len()
    }

    /// Whether everything was walked.
    pub open spec fn complete(&self) -> bool {
        &&& self.gathered()
        &&& self.facts.chains@.len() == self.heads@.len()
        &&& self.facts.sessions@.len() == self.sessions@.len()
    }

    /// Validity.
    pub open spec fn wf(&self) -> bool {
        &&& self.gathered()
        &&& match self.stage {
            LiveStage::Chain => self.facts.chains@.len() < self.heads@.len()
                && self.sessions@.len() == 0,
            LiveStage::Session => self.facts.chains@.len() == self.heads@.len()
                && self.facts.sessions@.len() < self.sessions@.len(),
            LiveStage::Done => true,
            _ => self.facts.chains@.len() == self.heads@.len() && self.sessions@.len() == 0,
        }
    }

    /// Whether the run waits for such an event.
    pub open spec fn awaits(&self, event: LiveEvent) -> bool {
        match self.stage {
            LiveStage::Chain => event is Chain,
            LiveStage::Commits => event is Commits,
            LiveStage::Catalog => event is Catalog,
            LiveStage::Sessions => event is Sessions,
            LiveStage::Session => event is Session,
            LiveStage::Done => false,
        }
    }
}

// ---- How it goes on ---------------------------------------------------------------------

/// What follows the chains walked so far.
pub open spec fn chain_turn(run: LiveRun) -> LiveStage {
    if run.facts.chains@.len() < run.heads@.len() {
        LiveStage::Chain
    } else {
        LiveStage::Commits
    }
}

/// What follows the sessions read so far.
pub open spec fn read_turn(run: LiveRun) -> LiveStage {
    if run.facts.sessions@.len() < run.sessions@.len() {
        LiveStage::Session
    } else {
        LiveStage::Done
    }
}

/// Whether a chain was added to what was found. The version it starts at is named by the
/// manifest only where it is the current one.
pub open spec fn chain_added(
    run: LiveRun,
    start: String,
    links: Vec<LinkKeys>,
    after: LiveRun,
) -> bool {
    let n = run.facts.chains@.len() as int;
    let current = if run.heads@[n].current {
        Some(start)
    } else {
        None
    };
    &&& after == (LiveRun { facts: after.facts, stage: chain_turn(after), ..run })
    &&& after.facts == (LiveFacts { chains: after.facts.chains, ..run.facts })
    &&& after.facts.chains@ == run.facts.chains@.push(ChainKeys { current, links })
}

/// How a walk goes on.
pub open spec fn live_on(run: LiveRun, event: LiveEvent, after: LiveRun) -> bool {
    match (run.stage, event) {
        (LiveStage::Chain, LiveEvent::Chain(Ok(walked))) => chain_added(
            run,
            walked.0,
            walked.1,
            after,
        ),
        (LiveStage::Commits, LiveEvent::Commits(Ok(keys))) => after == (LiveRun {
            facts: LiveFacts { commit_keys: keys, ..run.facts },
            stage: LiveStage::Catalog,
            ..run
        }),
        (LiveStage::Catalog, LiveEvent::Catalog(Ok(named))) => after == (LiveRun {
            facts: LiveFacts { catalog_key: named.0, split_prefixes: named.1, ..run.facts },
            stage: LiveStage::Sessions,
            ..run
        }),
        (LiveStage::Sessions, LiveEvent::Sessions(Ok(names))) => after == (LiveRun {
            sessions: names,
            stage: read_turn(after),
            ..run
        }),
        (LiveStage::Session, LiveEvent::Session(Ok(keys))) => {
            &&& after == (LiveRun { facts: after.facts, stage: read_turn(after), ..run })
            &&& after.facts == (LiveFacts { sessions: after.facts.sessions, ..run.facts })
            &&& after.facts.sessions@ == run.facts.sessions@.push(keys)
        },
        _ => false,
    }
}

/// What a run asks for. A walk that is over has been everywhere, and gives exactly what is
/// named.
pub open spec fn live_asks(run: LiveRun, action: LiveAction) -> bool {
    match run.stage {
        LiveStage::Chain => action matches LiveAction::WalkChain(path, page_id) && path@
            == run.heads@[run.facts.chains@.len() as int].path@ && page_id@
            == run.heads@[run.facts.chains@.len() as int].page_id@,
        LiveStage::Commits => action is ListCommits,
        LiveStage::Catalog => action is LoadCatalog,
        LiveStage::Sessions => action is ListSessions,
        LiveStage::Session => action matches LiveAction::ReadSession(session) && session@
            == run.sessions@[run.facts.sessions@.len() as int]@,
        LiveStage::Done => action matches LiveAction::Finish(Ok(live)) && live.wf() && reaches(
            run.facts,
            live,
        ) && run.complete(),
    }
}

impl LiveRun {
    /// Goes on after the chains walked so far.
    fn turn_chain(self) -> (next: (LiveRun, LiveAction))
        requires
            self.gathered(),
            self.sessions@.len() == 0,
        ensures
            next.0 == (LiveRun { stage: chain_turn(self), ..self }),
            next.0.wf(),
            live_asks(next.0, next.1),
    {
        let mut run: LiveRun = self;
        let n: usize = run.facts.chains.len();
        if n < run.heads.len() {
            let path: String = run.heads[n].path.clone();
            let page_id: String = run.heads[n].page_id.clone();
            run.stage = LiveStage::Chain;
            (run, LiveAction::WalkChain(path, page_id))
        } else {
            run.stage = LiveStage::Commits;
            (run, LiveAction::ListCommits)
        }
    }

    /// Goes on after the sessions read so far.
    fn turn_read(self) -> (next: (LiveRun, LiveAction))
        requires
            self.gathered(),
            self.facts.chains@.len() == self.heads@.len(),
        ensures
            next.0 == (LiveRun { stage: read_turn(self), ..self }),
            next.0.wf(),
            live_asks(next.0, next.1),
    {
        let mut run: LiveRun = self;
        let n: usize = run.facts.sessions.len();
        if n < run.sessions.len() {
            let session: String = run.sessions[n].clone();
            run.stage = LiveStage::Session;
            (run, LiveAction::ReadSession(session))
        } else {
            let live: LiveSet = live_keys(&run.facts);
            run.stage = LiveStage::Done;
            (run, LiveAction::Finish(Ok(live)))
        }
    }

    /// A walk over the project with this manifest begins. `shard_keys` and `predecessor_key`
    /// are what the manifest itself names.
    pub fn start(
        manifest: &Manifest,
        manifest_key: String,
        shard_keys: Vec<String>,
        predecessor_key: Option<String>,
        catalog_head_key: String,
    ) -> (next: (LiveRun, LiveAction))
        requires
            manifest.wf(),
        ensures
            heads_of(manifest@, next.0.heads@),
            next.0.sessions@.len() == 0,
            next.0.facts.manifest_key == manifest_key,
            next.0.facts.shard_keys == shard_keys,
            next.0.facts.predecessor_key == predecessor_key,
            next.0.facts.chains@.len() == 0,
            next.0.facts.commit_keys@.len() == 0,
            next.0.facts.catalog_head_key == catalog_head_key,
            next.0.facts.catalog_key is None,
            next.0.facts.split_prefixes@.len() == 0,
            next.0.facts.sessions@.len() == 0,
            next.0.stage == chain_turn(next.0),
            next.0.wf(),
            live_asks(next.0, next.1),
    {
        let run = LiveRun {
            heads: chain_heads(manifest),
            sessions: Vec::new(),
            facts: LiveFacts {
                manifest_key,
                shard_keys,
                predecessor_key,
                chains: Vec::new(),
                commit_keys: Vec::new(),
                catalog_head_key,
                catalog_key: None,
                split_prefixes: Vec::new(),
                sessions: Vec::new(),
            },
            stage: LiveStage::Chain,
        };
        run.turn_chain()
    }

    /// The walk goes on, or ends at what could not be read.
    pub fn next(self, event: LiveEvent) -> (next: (LiveRun, LiveAction))
        requires
            self.wf(),
            self.awaits(event),
        ensures
            next.0.wf(),
            match unread(event) {
                Some(error) => {
                    &&& next.0 == (LiveRun { stage: LiveStage::Done, ..self })
                    &&& next.1 == LiveAction::Finish(Err(error))
                },
                None => live_on(self, event, next.0) && live_asks(next.0, next.1),
            },
    {
        let mut run: LiveRun = self;
        let error: StoreError = match event {
            LiveEvent::Chain(Ok((start, links))) => {
                let n: usize = run.facts.chains.len();
                let current: Option<String> = if run.heads[n].current {
                    Some(start)
                } else {
                    None
                };
                run.facts.chains.push(ChainKeys { current, links });
                return run.turn_chain();
            },
            LiveEvent::Commits(Ok(keys)) => {
                run.facts.commit_keys = keys;
                run.stage = LiveStage::Catalog;
                return (run, LiveAction::LoadCatalog);
            },
            LiveEvent::Catalog(Ok((catalog_key, prefixes))) => {
                run.facts.catalog_key = catalog_key;
                run.facts.split_prefixes = prefixes;
                run.stage = LiveStage::Sessions;
                return (run, LiveAction::ListSessions);
            },
            LiveEvent::Sessions(Ok(names)) => {
                run.sessions = names;
                return run.turn_read();
            },
            LiveEvent::Session(Ok(keys)) => {
                run.facts.sessions.push(keys);
                return run.turn_read();
            },
            LiveEvent::Chain(Err(error)) => error,
            LiveEvent::Commits(Err(error)) => error,
            LiveEvent::Catalog(Err(error)) => error,
            LiveEvent::Sessions(Err(error)) => error,
            LiveEvent::Session(Err(error)) => error,
        };
        run.stage = LiveStage::Done;
        (run, LiveAction::Finish(Err(error)))
    }
}

// ---- What stays -------------------------------------------------------------------------

/// Every chain that the manifest keeps alive was walked, and nothing in it is ever
/// collected, of a deleted path either: for each version the walk gave, the write-ahead
/// record and the version itself stay, whatever their age.
pub proof fn law_every_chain_is_walked_and_kept(
    manifest: ManifestView,
    run: LiveRun,
    live: LiveSet,
    path: Seq<char>,
    page_id: Seq<char>,
    current: bool,
    modified: Option<i64>,
    now_ms: i64,
    grace_ms: i64,
)
    requires
        heads_of(manifest, run.heads@),
        run.stage is Done,
        live_asks(run, LiveAction::Finish(Ok(live))),
        starts_chain(manifest, path, page_id, current),
    ensures
        exists|c: int|
            0 <= c < run.facts.chains@.len() && (#[trigger] run.heads@[c]).path@ == path
                && run.heads@[c].page_id@ == page_id && run.heads@[c].current == current && (
            run.facts.chains@[c].current is Some <==> current) && forall|l: int|
                0 <= l < run.facts.chains@[c].links@.len() ==> {
                    let keys = #[trigger] run.facts.chains@[c].links@[l];
                    &&& fate(live, keys.wal@, modified, now_ms, grace_ms) == Fate::Live
                    &&& fate(live, keys.page@, modified, now_ms, grace_ms) == Fate::Live
                },
{
    assert(heads_view(run.heads@).contains((path, page_id, current)));
    let c = choose|c: int|
        0 <= c < heads_view(run.heads@).len() && heads_view(run.heads@)[c] == (
            path,
            page_id,
            current,
        );
    assert(run.heads@[c].path@ == path);
    assert forall|l: int| 0 <= l < run.facts.chains@[c].links@.len() implies {
        let keys = #[trigger] run.facts.chains@[c].links@[l];
        &&& fate(live, keys.wal@, modified, now_ms, grace_ms) == Fate::Live
        &&& fate(live, keys.page@, modified, now_ms, grace_ms) == Fate::Live
    } by {
        crate::store::gc::law_history_is_never_collected(
            run.facts,
            live,
            c,
            l,
            modified,
            now_ms,
            grace_ms,
        );
    }
}

} // verus!
