//! Garbage collection by reachability.
//!
//! Objects are immutable, so reclaiming space means computing what is still
//! reachable and removing the rest, but only what is older than a grace window.

use vstd::prelude::*;

use crate::ordered::{lemma_place, OrderedMap};
use crate::store::records::{Manifest, ManifestView, PageEntry, Tombstone};
use crate::text::{has_prefix, opt_text, same_text, starts_with, texts};

verus! {

// ---- What is reachable ---------------------------------------------------------------

/// The version at which a chain of versions starts.
#[derive(Debug)]
pub struct ChainHead {
    /// Path of the page.
    pub path: String,
    /// Newest version of the chain.
    pub page_id: String,
    /// Whether that version is the current one; a deleted path has none.
    pub current: bool,
}

/// What a list of chain heads says.
pub open spec fn heads_view(heads: Seq<ChainHead>) -> Seq<(Seq<char>, Seq<char>, bool)> {
    Seq::new(heads.len(), |i: int| (heads[i].path@, heads[i].page_id@, heads[i].current))
}

/// Whether a chain of versions starts at this version of this path: it is the
/// current one, or the one that was current when the path was deleted.
pub open spec fn starts_chain(
    manifest: ManifestView,
    path: Seq<char>,
    page_id: Seq<char>,
    current: bool,
) -> bool {
    if current {
        manifest.head_page_id(path) == Some(page_id)
    } else {
        manifest.tombstones.dom().contains(path) && manifest.tombstones[path].last_page_id == Some(
            page_id,
        )
    }
}

/// Whether one of the first entries is this version of this path.
spec fn lists_page(
    pages: Seq<(String, PageEntry)>,
    n: int,
    path: Seq<char>,
    page_id: Seq<char>,
) -> bool {
    exists|k: int|
        0 <= k < n && (#[trigger] pages[k]).0@ == path && pages[k].1.page_id@ == page_id
}

/// Whether one of the first entries says that this was the last version of this path.
spec fn lists_gone(
    gone: Seq<(String, Tombstone)>,
    n: int,
    path: Seq<char>,
    page_id: Seq<char>,
) -> bool {
    exists|k: int|
        0 <= k < n && (#[trigger] gone[k]).0@ == path && opt_text(gone[k].1.last_page_id) == Some(
            page_id,
        )
}

/// The chains of versions that the manifest keeps alive. A deleted path keeps its
/// chain, so that a deletion can be undone and the past stays readable.
pub fn chain_heads(manifest: &Manifest) -> (heads: Vec<ChainHead>)
    requires
        manifest.wf(),
    ensures
        forall|path: Seq<char>, page_id: Seq<char>, current: bool| #[trigger]
            heads_view(heads@).contains((path, page_id, current)) <==> starts_chain(
                manifest@,
                path,
                page_id,
                current,
            ),
{
    let mut heads: Vec<ChainHead> = Vec::new();
    let ghost pages = manifest.pages.entries@;
    let ghost gone = manifest.tombstones.entries@;
    let mut i: usize = 0;
    while i < manifest.pages.entries.len()
        invariant
            i <= pages.len(),
            pages == manifest.pages.entries@,
            forall|path: Seq<char>, page_id: Seq<char>, current: bool| #[trigger]
                heads_view(heads@).contains((path, page_id, current)) <==> current && lists_page(
                    pages,
                    i as int,
                    path,
                    page_id,
                ),
        decreases pages.len() - i,
    {
        let head = ChainHead {
            path: manifest.pages.entries[i].0.clone(),
            page_id: manifest.pages.entries[i].1.page_id.clone(),
            current: true,
        };
        let ghost added = (head.path@, head.page_id@, true);
        let ghost before = heads_view(heads@);
        heads.push(head);
        proof {
            let now = heads_view(heads@);
            assert(now =~= before.push(added));
            assert forall|path: Seq<char>, page_id: Seq<char>, current: bool| #[trigger]
                now.contains((path, page_id, current)) <==> current && lists_page(
                    pages,
                    i + 1,
                    path,
                    page_id,
                ) by {
                lemma_push_contains(before, added, (path, page_id, current));
                if lists_page(pages, i + 1, path, page_id) {
                    let k = choose|k: int|
                        0 <= k < i + 1 && (#[trigger] pages[k]).0@ == path && pages[k].1.page_id@
                            == page_id;
                    if k < i {
                        assert(lists_page(pages, i as int, path, page_id));
                    }
                }
                if added == (path, page_id, current) {
                    assert(pages[i as int].0@ == path);
                }
            }
        }
        i += 1;
    }
    let mut j: usize = 0;
    while j < manifest.tombstones.entries.len()
        invariant
            j <= gone.len(),
            gone == manifest.tombstones.entries@,
            forall|path: Seq<char>, page_id: Seq<char>, current: bool| #[trigger]
                heads_view(heads@).contains((path, page_id, current)) <==> if current {
                    lists_page(pages, pages.len() as int, path, page_id)
                } else {
                    lists_gone(gone, j as int, path, page_id)
                },
        decreases gone.len() - j,
    {
        let ghost before = heads_view(heads@);
        let ghost mut added: Option<(Seq<char>, Seq<char>, bool)> = None;
        match &manifest.tombstones.entries[j].1.last_page_id {
            Some(id) => {
                let head = ChainHead {
                    path: manifest.tombstones.entries[j].0.clone(),
                    page_id: id.clone(),
                    current: false,
                };
                proof {
                    added = Some((head.path@, head.page_id@, false));
                }
                heads.push(head);
                assert(heads_view(heads@) =~= before.push(added->0));
            },
            None => {},
        }
        proof {
            let now = heads_view(heads@);
            assert forall|path: Seq<char>, page_id: Seq<char>, current: bool| #[trigger]
                now.contains((path, page_id, current)) <==> if current {
                    lists_page(pages, pages.len() as int, path, page_id)
                } else {
                    lists_gone(gone, j + 1, path, page_id)
                } by {
                assert(before.contains((path, page_id, current)) <==> if current {
                    lists_page(pages, pages.len() as int, path, page_id)
                } else {
                    lists_gone(gone, j as int, path, page_id)
                });
                if added is Some {
                    lemma_push_contains(before, added->0, (path, page_id, current));
                }
                if lists_gone(gone, j + 1, path, page_id) {
                    let k = choose|k: int|
                        0 <= k < j + 1 && (#[trigger] gone[k]).0@ == path && opt_text(
                            gone[k].1.last_page_id,
                        ) == Some(page_id);
                    if k < j {
                        assert(lists_gone(gone, j as int, path, page_id));
                    }
                }
                if added == Some((path, page_id, current)) {
                    assert(gone[j as int].0@ == path);
                }
            }
        }
        j += 1;
    }
    proof {
        assert forall|path: Seq<char>, page_id: Seq<char>, current: bool| #[trigger]
            heads_view(heads@).contains((path, page_id, current)) <==> starts_chain(
                manifest@,
                path,
                page_id,
                current,
            ) by {
            if lists_page(pages, pages.len() as int, path, page_id) {
                let k = choose|k: int|
                    0 <= k < pages.len() && (#[trigger] pages[k]).0@ == path
                        && pages[k].1.page_id@ == page_id;
                lemma_place(pages, k);
            }
            if lists_gone(gone, gone.len() as int, path, page_id) {
                let k = choose|k: int|
                    0 <= k < gone.len() && (#[trigger] gone[k]).0@ == path && opt_text(
                        gone[k].1.last_page_id,
                    ) == Some(page_id);
                lemma_place(gone, k);
            }
            if manifest@.head_page_id(path) == Some(page_id) {
                let k = crate::ordered::place_of(pages, path);
                assert(pages[k].0@ == path && pages[k].1.page_id@ == page_id);
            }
            if manifest@.tombstones.dom().contains(path) && manifest@.tombstones[path].last_page_id
                == Some(page_id) {
                let k = crate::ordered::place_of(gone, path);
                assert(gone[k].0@ == path && opt_text(gone[k].1.last_page_id) == Some(page_id));
            }
        }
    }
    heads
}

/// What a list holds after a push.
proof fn lemma_push_contains<T>(list: Seq<T>, item: T, wanted: T)
    ensures
        list.push(item).contains(wanted) <==> list.contains(wanted) || item == wanted,
{
    let longer = list.push(item);
    if list.contains(wanted) {
        let k = choose|k: int| 0 <= k < list.len() && list[k] == wanted;
        assert(longer[k] == wanted);
    }
    if item == wanted {
        assert(longer[list.len() as int] == wanted);
    }
    if longer.contains(wanted) {
        let k = choose|k: int| 0 <= k < longer.len() && longer[k] == wanted;
        if k < list.len() {
            assert(list[k] == wanted);
        }
    }
}

/// Keys of one version in a chain.
#[derive(Debug)]
pub struct LinkKeys {
    /// Key of the write-ahead record.
    pub wal: String,
    /// Key of the version itself.
    pub page: String,
}

/// Keys of one chain of versions.
#[derive(Debug)]
pub struct ChainKeys {
    /// Key of the current version; a deleted path has none.
    pub current: Option<String>,
    /// Keys of every version that the chain holds.
    pub links: Vec<LinkKeys>,
}

/// Whether a version has this key.
pub open spec fn link_names(link: LinkKeys, key: Seq<char>) -> bool {
    link.wal@ == key || link.page@ == key
}

/// Whether a chain of versions names this key.
pub open spec fn chain_names(chain: ChainKeys, key: Seq<char>) -> bool {
    ||| opt_text(chain.current) == Some(key)
    ||| exists|i: int| 0 <= i < chain.links@.len() && #[trigger] link_names(chain.links@[i], key)
}

/// Keys of one session.
#[derive(Debug)]
pub struct SessionKeys {
    /// Key of the session's head.
    pub head: String,
    /// Keys of the segments reachable from it.
    pub segments: Vec<String>,
}

/// Whether a session names this key.
pub open spec fn session_names(session: SessionKeys, key: Seq<char>) -> bool {
    session.head@ == key || texts(session.segments@).contains(key)
}

/// The keys that the authoritative state of a project names.
#[derive(Debug)]
pub struct LiveFacts {
    /// Key of the manifest.
    pub manifest_key: String,
    /// Keys of the shards that the manifest names.
    pub shard_keys: Vec<String>,
    /// Key of the archived manifest that the manifest names as its predecessor.
    pub predecessor_key: Option<String>,
    /// The chains of versions that the manifest keeps alive.
    pub chains: Vec<ChainKeys>,
    /// Keys of the commit log.
    pub commit_keys: Vec<String>,
    /// Key of the catalog head.
    pub catalog_head_key: String,
    /// Key of the catalog that the head names.
    pub catalog_key: Option<String>,
    /// Prefixes of the splits that this catalog names.
    pub split_prefixes: Vec<String>,
    /// The sessions.
    pub sessions: Vec<SessionKeys>,
}

/// Whether the facts name this key.
pub open spec fn names_key(facts: LiveFacts, key: Seq<char>) -> bool {
    ||| facts.manifest_key@ == key
    ||| texts(facts.shard_keys@).contains(key)
    ||| opt_text(facts.predecessor_key) == Some(key)
    ||| exists|c: int| 0 <= c < facts.chains@.len() && #[trigger] chain_names(facts.chains@[c], key)
    ||| texts(facts.commit_keys@).contains(key)
    ||| facts.catalog_head_key@ == key
    ||| opt_text(facts.catalog_key) == Some(key)
    ||| exists|n: int|
        0 <= n < facts.sessions@.len() && #[trigger] session_names(facts.sessions@[n], key)
}

/// Whether the facts name this prefix: splits count only where a catalog is
/// current.
pub open spec fn names_prefix(facts: LiveFacts, prefix: Seq<char>) -> bool {
    facts.catalog_key is Some && texts(facts.split_prefixes@).contains(prefix)
}

/// What is reachable: keys, and prefixes under which everything is.
#[derive(Debug)]
pub struct LiveSet {
    /// Reachable keys.
    pub keys: OrderedMap<bool>,
    /// Prefixes under which everything is reachable.
    pub prefixes: OrderedMap<bool>,
}

/// Whether the set holds what the facts name, and nothing else.
pub open spec fn reaches(facts: LiveFacts, live: LiveSet) -> bool {
    &&& forall|key: Seq<char>| #[trigger]
        live.keys@.dom().contains(key) <==> names_key(facts, key)
    &&& forall|prefix: Seq<char>| #[trigger]
        live.prefixes@.dom().contains(prefix) <==> names_prefix(facts, prefix)
}

/// Whether an object is reachable.
pub open spec fn is_live(live: LiveSet, key: Seq<char>) -> bool {
    live.keys@.dom().contains(key) || exists|prefix: Seq<char>| #[trigger]
        live.prefixes@.dom().contains(prefix) && (key == prefix || has_prefix(key, prefix + "/"@))
}

/// Adds every text of a list.
fn add_all(map: &mut OrderedMap<bool>, list: &Vec<String>)
    requires
        old(map).wf(),
    ensures
        final(map).wf(),
        forall|k: Seq<char>| #[trigger]
            final(map)@.dom().contains(k) <==> old(map)@.dom().contains(k) || texts(
                list@,
            ).contains(k),
{
    let ghost start = map@;
    let ghost all = texts(list@);
    let mut i: usize = 0;
    assert forall|k: Seq<char>| !all.take(0).contains(k) by {}
    while i < list.len()
        invariant
            i <= list@.len(),
            all == texts(list@),
            map.wf(),
            forall|k: Seq<char>| #[trigger]
                map@.dom().contains(k) <==> start.dom().contains(k) || all.take(i as int).contains(
                    k,
                ),
        decreases list@.len() - i,
    {
        map.insert(list[i].clone(), true);
        proof {
            assert(all.take(i + 1) =~= all.take(i as int).push(list@[i as int]@));
            assert forall|k: Seq<char>| #[trigger]
                map@.dom().contains(k) <==> start.dom().contains(k) || all.take(i + 1).contains(
                    k,
                ) by {
                lemma_push_contains(all.take(i as int), list@[i as int]@, k);
            }
        }
        i += 1;
    }
    assert(all.take(i as int) =~= all);
}

/// Adds an optional text.
fn add_option(map: &mut OrderedMap<bool>, text: &Option<String>)
    requires
        old(map).wf(),
    ensures
        final(map).wf(),
        forall|k: Seq<char>| #[trigger]
            final(map)@.dom().contains(k) <==> old(map)@.dom().contains(k) || opt_text(*text)
                == Some(k),
{
    if let Some(t) = text {
        map.insert(t.clone(), true);
    }
}

/// Adds the keys of every version of a chain.
fn add_links(map: &mut OrderedMap<bool>, links: &Vec<LinkKeys>)
    requires
        old(map).wf(),
    ensures
        final(map).wf(),
        forall|k: Seq<char>| #[trigger]
            final(map)@.dom().contains(k) <==> old(map)@.dom().contains(k) || exists|i: int|
                0 <= i < links@.len() && #[trigger] link_names(links@[i], k),
{
    let ghost start = map@;
    let mut at: usize = 0;
    while at < links.len()
        invariant
            at <= links@.len(),
            map.wf(),
            forall|k: Seq<char>| #[trigger]
                map@.dom().contains(k) <==> start.dom().contains(k) || exists|i: int|
                    0 <= i < at && #[trigger] link_names(links@[i], k),
        decreases links@.len() - at,
    {
        let ghost before = map@;
        map.insert(links[at].wal.clone(), true);
        map.insert(links[at].page.clone(), true);
        proof {
            assert forall|k: Seq<char>| #[trigger]
                map@.dom().contains(k) <==> start.dom().contains(k) || exists|i: int|
                    0 <= i < at + 1 && #[trigger] link_names(links@[i], k) by {
                assert(map@.dom().contains(k) <==> before.dom().contains(k) || link_names(
                    links@[at as int],
                    k,
                ));
            }
        }
        at += 1;
    }
}

/// Adds the keys of every chain.
fn add_chains(map: &mut OrderedMap<bool>, chains: &Vec<ChainKeys>)
    requires
        old(map).wf(),
    ensures
        final(map).wf(),
        forall|k: Seq<char>| #[trigger]
            final(map)@.dom().contains(k) <==> old(map)@.dom().contains(k) || exists|c: int|
                0 <= c < chains@.len() && #[trigger] chain_names(chains@[c], k),
{
    let ghost start = map@;
    let mut at: usize = 0;
    while at < chains.len()
        invariant
            at <= chains@.len(),
            map.wf(),
            forall|k: Seq<char>| #[trigger]
                map@.dom().contains(k) <==> start.dom().contains(k) || exists|c: int|
                    0 <= c < at && #[trigger] chain_names(chains@[c], k),
        decreases chains@.len() - at,
    {
        let ghost before = map@;
        add_option(map, &chains[at].current);
        add_links(map, &chains[at].links);
        proof {
            assert forall|k: Seq<char>| #[trigger]
                map@.dom().contains(k) <==> start.dom().contains(k) || exists|c: int|
                    0 <= c < at + 1 && #[trigger] chain_names(chains@[c], k) by {
                assert(map@.dom().contains(k) <==> before.dom().contains(k) || chain_names(
                    chains@[at as int],
                    k,
                ));
            }
        }
        at += 1;
    }
}

/// Adds the keys of every session.
fn add_sessions(map: &mut OrderedMap<bool>, sessions: &Vec<SessionKeys>)
    requires
        old(map).wf(),
    ensures
        final(map).wf(),
        forall|k: Seq<char>| #[trigger]
            final(map)@.dom().contains(k) <==> old(map)@.dom().contains(k) || exists|n: int|
                0 <= n < sessions@.len() && #[trigger] session_names(sessions@[n], k),
{
    let ghost start = map@;
    let mut at: usize = 0;
    while at < sessions.len()
        invariant
            at <= sessions@.len(),
            map.wf(),
            forall|k: Seq<char>| #[trigger]
                map@.dom().contains(k) <==> start.dom().contains(k) || exists|n: int|
                    0 <= n < at && #[trigger] session_names(sessions@[n], k),
        decreases sessions@.len() - at,
    {
        let ghost before = map@;
        map.insert(sessions[at].head.clone(), true);
        add_all(map, &sessions[at].segments);
        proof {
            assert forall|k: Seq<char>| #[trigger]
                map@.dom().contains(k) <==> start.dom().contains(k) || exists|n: int|
                    0 <= n < at + 1 && #[trigger] session_names(sessions@[n], k) by {
                assert(map@.dom().contains(k) <==> before.dom().contains(k) || session_names(
                    sessions@[at as int],
                    k,
                ));
            }
        }
        at += 1;
    }
}

impl LiveSet {
    /// The keys stand in order.
    pub open spec fn wf(&self) -> bool {
        self.keys.wf() && self.prefixes.wf()
    }

    /// Whether an object is reachable.
    pub fn holds(&self, key: &str) -> (live: bool)
        requires
            self.wf(),
        ensures
            live == is_live(*self, key@),
    {
        if self.keys.contains(key) {
            return true;
        }
        let ghost entries = self.prefixes.entries@;
        let mut i: usize = 0;
        while i < self.prefixes.entries.len()
            invariant
                self.wf(),
                entries == self.prefixes.entries@,
                i <= entries.len(),
                forall|j: int|
                    0 <= j < i ==> !(key@ == (#[trigger] entries[j]).0@ || has_prefix(
                        key@,
                        entries[j].0@ + "/"@,
                    )),
            decreases entries.len() - i,
        {
            let prefix: &str = self.prefixes.entries[i].0.as_str();
            let mut inside: String = prefix.to_owned();
            inside.append("/");
            if same_text(key, prefix) || starts_with(key, inside.as_str()) {
                proof {
                    lemma_place(entries, i as int);
                    assert(self.prefixes@.dom().contains(entries[i as int].0@));
                }
                return true;
            }
            i += 1;
        }
        proof {
            if is_live(*self, key@) {
                let prefix = choose|prefix: Seq<char>| #[trigger]
                    self.prefixes@.dom().contains(prefix) && (key@ == prefix || has_prefix(
                        key@,
                        prefix + "/"@,
                    ));
                let k = crate::ordered::place_of(entries, prefix);
                assert(entries[k].0@ == prefix);
            }
        }
        false
    }
}

/// What is reachable in a project.
pub fn live_keys(facts: &LiveFacts) -> (live: LiveSet)
    ensures
        live.wf(),
        reaches(*facts, live),
{
    let mut keys: OrderedMap<bool> = OrderedMap::new();
    keys.insert(facts.manifest_key.clone(), true);
    add_all(&mut keys, &facts.shard_keys);
    add_option(&mut keys, &facts.predecessor_key);
    add_chains(&mut keys, &facts.chains);
    add_all(&mut keys, &facts.commit_keys);
    keys.insert(facts.catalog_head_key.clone(), true);
    add_option(&mut keys, &facts.catalog_key);
    add_sessions(&mut keys, &facts.sessions);
    let mut prefixes: OrderedMap<bool> = OrderedMap::new();
    if facts.catalog_key.is_some() {
        add_all(&mut prefixes, &facts.split_prefixes);
    }
    LiveSet { keys, prefixes }
}

// ---- Collecting ----------------------------------------------------------------------

/// What one collection pass did, or would do.
#[derive(Debug)]
pub struct GcOutcome {
    /// Objects under the scope prefix.
    pub scanned: usize,
    /// Objects that are reachable.
    pub live: usize,
    /// Unreachable objects old enough to collect.
    pub collectable: usize,
    /// Unreachable objects still inside the grace window.
    pub kept_recent: usize,
    /// Objects actually deleted; zero on a dry run.
    pub deleted: usize,
    /// Keys that were deleted.
    pub deleted_keys: Vec<String>,
    /// True when the pass only reported what it would do.
    pub dry_run: bool,
}

/// What becomes of one object.
pub enum Fate {
    /// It is reachable.
    Live,
    /// It vanished on its own.
    Gone,
    /// It is unreachable but recent.
    Recent,
    /// It is unreachable and old enough.
    Collect,
}

/// Whether an object that was last modified then is still inside the grace window.
/// A window of zero means no grace at all.
pub open spec fn within_grace(now_ms: i64, modified_ms: i64, grace_ms: i64) -> bool {
    grace_ms > 0 && now_ms - modified_ms < grace_ms
}

/// What becomes of an object, given when it was last modified.
pub open spec fn fate(
    live: LiveSet,
    key: Seq<char>,
    modified: Option<i64>,
    now_ms: i64,
    grace_ms: i64,
) -> Fate {
    if is_live(live, key) {
        Fate::Live
    } else {
        match modified {
            None => Fate::Gone,
            Some(at) => if within_grace(now_ms, at, grace_ms) {
                Fate::Recent
            } else {
                Fate::Collect
            },
        }
    }
}

/// A collection pass under way.
#[derive(Debug)]
pub struct GcRun {
    /// What is reachable.
    pub live: LiveSet,
    /// The objects that were listed.
    pub keys: Vec<String>,
    /// How many of them were dealt with.
    pub at: usize,
    /// Caller-supplied clock.
    pub now_ms: i64,
    /// Grace window.
    pub grace_ms: i64,
    /// Whether to delete, or only to report.
    pub apply: bool,
    /// The outcome so far.
    pub outcome: GcOutcome,
}

/// What to do next.
#[derive(Debug)]
pub enum GcAction {
    /// Ask when this object was last modified.
    Inspect(String),
    /// Delete this object.
    Delete(String),
    /// The pass is over.
    Finish,
}

/// What a pass has made of the objects it dealt with.
#[verifier::ext_equal]
pub struct PassView {
    pub live: nat,
    pub collectable: nat,
    pub kept_recent: nat,
    pub gone: nat,
    pub deleted: Seq<Seq<char>>,
}

/// What a pass makes of the first `n` objects, given when each was last modified.
pub open spec fn passed(
    live: LiveSet,
    keys: Seq<Seq<char>>,
    modified: Seq<Option<i64>>,
    now_ms: i64,
    grace_ms: i64,
    apply: bool,
    n: int,
) -> PassView
    decreases n,
{
    if n <= 0 {
        PassView { live: 0, collectable: 0, kept_recent: 0, gone: 0, deleted: Seq::empty() }
    } else {
        let before = passed(live, keys, modified, now_ms, grace_ms, apply, n - 1);
        match fate(live, keys[n - 1], modified[n - 1], now_ms, grace_ms) {
            Fate::Live => PassView { live: before.live + 1, ..before },
            Fate::Gone => PassView { gone: before.gone + 1, ..before },
            Fate::Recent => PassView { kept_recent: before.kept_recent + 1, ..before },
            Fate::Collect => PassView {
                collectable: before.collectable + 1,
                deleted: if apply {
                    before.deleted.push(keys[n - 1])
                } else {
                    before.deleted
                },
                ..before
            },
        }
    }
}

impl GcRun {
    /// Whether the outcome so far is what the pass makes of objects that were last modified
    /// like this.
    pub open spec fn follows(&self, modified: Seq<Option<i64>>) -> bool {
        let done = passed(
            self.live,
            texts(self.keys@),
            modified,
            self.now_ms,
            self.grace_ms,
            self.apply,
            self.at as int,
        );
        &&& self.outcome.live == done.live
        &&& self.outcome.collectable == done.collectable
        &&& self.outcome.kept_recent == done.kept_recent
        &&& texts(self.outcome.deleted_keys@) == done.deleted
    }

    /// The numbers add up to the objects dealt with, and no live object was deleted.
    pub open spec fn wf(&self) -> bool {
        &&& self.live.wf()
        &&& self.at <= self.keys@.len()
        &&& self.outcome.scanned == self.keys@.len()
        &&& self.outcome.live + self.outcome.collectable + self.outcome.kept_recent <= self.at
        &&& self.outcome.deleted == self.outcome.deleted_keys@.len()
        &&& self.outcome.deleted == (if self.apply {
            self.outcome.collectable
        } else {
            0
        })
        &&& self.outcome.dry_run == !self.apply
        &&& forall|i: int|
            0 <= i < self.outcome.deleted_keys@.len() ==> !is_live(
                self.live,
                (#[trigger] self.outcome.deleted_keys@[i])@,
            )
    }

    /// The start of a pass over the objects that were listed.
    pub fn start(
        live: LiveSet,
        keys: Vec<String>,
        now_ms: i64,
        grace_ms: i64,
        apply: bool,
    ) -> (run: GcRun)
        requires
            live.wf(),
        ensures
            run.wf(),
            run.live == live,
            run.keys == keys,
            run.at == 0,
            run.now_ms == now_ms,
            run.grace_ms == grace_ms,
            run.apply == apply,
            run.outcome.live == 0,
            run.outcome.collectable == 0,
            run.outcome.kept_recent == 0,
            run.outcome.deleted == 0,
            forall|modified: Seq<Option<i64>>| #[trigger] run.follows(modified),
    {
        let scanned: usize = keys.len();
        let run = GcRun {
            live,
            keys,
            at: 0,
            now_ms,
            grace_ms,
            apply,
            outcome: GcOutcome {
                scanned,
                live: 0,
                collectable: 0,
                kept_recent: 0,
                deleted: 0,
                deleted_keys: Vec::new(),
                dry_run: !apply,
            },
        };
        assert(texts(run.outcome.deleted_keys@) =~= Seq::empty());
        run
    }

    /// Passes over the reachable objects and names the next one to ask about.
    pub fn advance(&mut self) -> (action: GcAction)
        requires
            old(self).wf(),
        ensures
            final(self).wf(),
            final(self).live == old(self).live,
            final(self).keys == old(self).keys,
            final(self).now_ms == old(self).now_ms,
            final(self).grace_ms == old(self).grace_ms,
            final(self).apply == old(self).apply,
            old(self).at <= final(self).at,
            forall|i: int|
                old(self).at <= i < final(self).at ==> is_live(
                    old(self).live,
                    (#[trigger] old(self).keys@[i])@,
                ),
            final(self).outcome.live == old(self).outcome.live + (final(self).at - old(self).at),
            final(self).outcome.collectable == old(self).outcome.collectable,
            final(self).outcome.kept_recent == old(self).outcome.kept_recent,
            final(self).outcome.deleted_keys == old(self).outcome.deleted_keys,
            forall|modified: Seq<Option<i64>>| #[trigger]
                old(self).follows(modified) ==> final(self).follows(modified),
            match action {
                GcAction::Inspect(key) => final(self).at < old(self).keys@.len() && key@ == old(
                    self,
                ).keys@[final(self).at as int]@ && !is_live(old(self).live, key@),
                GcAction::Finish => final(self).at == old(self).keys@.len(),
                GcAction::Delete(_) => false,
            },
    {
        let ghost before = *self;
        while self.at < self.keys.len()
            invariant
                before == *old(self),
                self.wf(),
                self.live == before.live,
                self.keys == before.keys,
                self.now_ms == before.now_ms,
                self.grace_ms == before.grace_ms,
                self.apply == before.apply,
                before.at <= self.at <= self.keys@.len(),
                forall|i: int|
                    before.at <= i < self.at ==> is_live(
                        before.live,
                        (#[trigger] before.keys@[i])@,
                    ),
                self.outcome.live == before.outcome.live + (self.at - before.at),
                self.outcome.collectable == before.outcome.collectable,
                self.outcome.kept_recent == before.outcome.kept_recent,
                self.outcome.deleted_keys == before.outcome.deleted_keys,
                forall|modified: Seq<Option<i64>>| #[trigger]
                    before.follows(modified) ==> self.follows(modified),
            decreases self.keys@.len() - self.at,
        {
            if !self.live.holds(self.keys[self.at].as_str()) {
                return GcAction::Inspect(self.keys[self.at].clone());
            }
            let ghost was = *self;
            self.outcome.live = self.outcome.live + 1;
            self.at = self.at + 1;
            proof {
                assert forall|modified: Seq<Option<i64>>| #[trigger]
                    before.follows(modified) implies self.follows(modified) by {
                    assert(was.follows(modified));
                    assert(texts(self.keys@)[was.at as int] == self.keys@[was.at as int]@);
                }
            }
        }
        GcAction::Finish
    }

    /// Takes in when the next object was last modified, `None` when it is gone.
    /// Names the object where it is to be deleted.
    pub fn inspected(&mut self, modified: Option<i64>) -> (action: Option<GcAction>)
        requires
            old(self).wf(),
            old(self).at < old(self).keys@.len(),
            !is_live(old(self).live, old(self).keys@[old(self).at as int]@),
            modified matches Some(at) ==> i64::MIN <= old(self).now_ms - at <= i64::MAX,
        ensures
            final(self).wf(),
            final(self).live == old(self).live,
            final(self).keys == old(self).keys,
            final(self).now_ms == old(self).now_ms,
            final(self).grace_ms == old(self).grace_ms,
            final(self).apply == old(self).apply,
            final(self).at == old(self).at + 1,
            ({
                let key = old(self).keys@[old(self).at as int]@;
                let what = fate(
                    old(self).live,
                    key,
                    modified,
                    old(self).now_ms,
                    old(self).grace_ms,
                );
                let collect = what == Fate::Collect;
                &&& final(self).outcome.live == old(self).outcome.live
                &&& final(self).outcome.kept_recent == old(self).outcome.kept_recent + (if what
                    == Fate::Recent {
                    1int
                } else {
                    0int
                })
                &&& final(self).outcome.collectable == old(self).outcome.collectable + (
                if collect {
                    1int
                } else {
                    0int
                })
                &&& if collect && old(self).apply {
                    &&& action matches Some(GcAction::Delete(k)) && k@ == key
                    &&& texts(final(self).outcome.deleted_keys@) == texts(
                        old(self).outcome.deleted_keys@,
                    ).push(key)
                } else {
                    &&& action is None
                    &&& final(self).outcome.deleted_keys == old(self).outcome.deleted_keys
                }
            }),
            forall|all: Seq<Option<i64>>| #[trigger]
                old(self).follows(all) && all[old(self).at as int] == modified
                    ==> final(self).follows(all),
    {
        let key: String = self.keys[self.at].clone();
        assert(texts(self.keys@)[self.at as int] == key@);
        self.at = self.at + 1;
        let at_ms: i64 = match modified {
            None => {
                return None;
            },
            Some(at_ms) => at_ms,
        };
        if self.grace_ms > 0 && self.now_ms - at_ms < self.grace_ms {
            self.outcome.kept_recent = self.outcome.kept_recent + 1;
            return None;
        }
        self.outcome.collectable = self.outcome.collectable + 1;
        if !self.apply {
            return None;
        }
        let copy: String = key.clone();
        proof {
            crate::text::lemma_texts_push(self.outcome.deleted_keys@, copy);
        }
        self.outcome.deleted = self.outcome.deleted + 1;
        self.outcome.deleted_keys.push(copy);
        Some(GcAction::Delete(key))
    }
}

/// Whether a key is that of one of the first `n` objects, and that object was to be
/// collected.
pub open spec fn was_collectable(
    live: LiveSet,
    keys: Seq<Seq<char>>,
    modified: Seq<Option<i64>>,
    now_ms: i64,
    grace_ms: i64,
    n: int,
    key: Seq<char>,
) -> bool {
    exists|k: int|
        0 <= k < n && #[trigger] keys[k] == key && fate(
            live,
            keys[k],
            modified[k],
            now_ms,
            grace_ms,
        ) == Fate::Collect
}

/// The numbers of a pass add up: every object that was listed is live, collectable, kept or
/// gone by then; with `apply` everything collectable is deleted, else nothing; and what is
/// deleted was neither live nor inside the grace window.
pub proof fn law_a_pass_adds_up(
    live: LiveSet,
    keys: Seq<Seq<char>>,
    modified: Seq<Option<i64>>,
    now_ms: i64,
    grace_ms: i64,
    apply: bool,
    n: int,
)
    requires
        0 <= n <= keys.len(),
    ensures
        ({
            let done = passed(live, keys, modified, now_ms, grace_ms, apply, n);
            &&& done.live + done.collectable + done.kept_recent + done.gone == n
            &&& (forall|k: int|
                0 <= k < n ==> is_live(live, #[trigger] keys[k]) || modified[k] is Some)
                ==> done.gone == 0
            &&& done.deleted.len() == (if apply {
                done.collectable
            } else {
                0
            })
            &&& forall|i: int|
                0 <= i < done.deleted.len() ==> was_collectable(
                    live,
                    keys,
                    modified,
                    now_ms,
                    grace_ms,
                    n,
                    #[trigger] done.deleted[i],
                )
        }),
    decreases n,
{
    if n > 0 {
        law_a_pass_adds_up(live, keys, modified, now_ms, grace_ms, apply, n - 1);
        let before = passed(live, keys, modified, now_ms, grace_ms, apply, n - 1);
        let done = passed(live, keys, modified, now_ms, grace_ms, apply, n);
        if forall|k: int|
            0 <= k < n ==> is_live(live, #[trigger] keys[k]) || modified[k] is Some {
            assert(is_live(live, keys[n - 1]) || modified[n - 1] is Some);
        }
        assert forall|i: int| 0 <= i < done.deleted.len() implies was_collectable(
            live,
            keys,
            modified,
            now_ms,
            grace_ms,
            n,
            #[trigger] done.deleted[i],
        ) by {
            if i < before.deleted.len() {
                assert(was_collectable(
                    live,
                    keys,
                    modified,
                    now_ms,
                    grace_ms,
                    n - 1,
                    before.deleted[i],
                ));
                let k = choose|k: int|
                    0 <= k < n - 1 && #[trigger] keys[k] == before.deleted[i] && fate(
                        live,
                        keys[k],
                        modified[k],
                        now_ms,
                        grace_ms,
                    ) == Fate::Collect;
                assert(keys[k] == done.deleted[i]);
            } else {
                assert(keys[n - 1] == done.deleted[i]);
            }
        }
    }
}

/// A live object is never collected, whatever its age; a recent one is not either;
/// and everything else that is still there is.
pub proof fn law_only_old_garbage_is_collected(
    live: LiveSet,
    key: Seq<char>,
    modified: Option<i64>,
    now_ms: i64,
    grace_ms: i64,
)
    ensures
        fate(live, key, modified, now_ms, grace_ms) == Fate::Collect <==> {
            &&& !is_live(live, key)
            &&& modified is Some
            &&& grace_ms <= 0 || now_ms - modified->0 >= grace_ms
        },
{
}

/// No version of a chain is ever collected, of a deleted path either: its write-ahead
/// record and the version itself stay, whatever their age.
pub proof fn law_history_is_never_collected(
    facts: LiveFacts,
    live: LiveSet,
    chain: int,
    link: int,
    modified: Option<i64>,
    now_ms: i64,
    grace_ms: i64,
)
    requires
        reaches(facts, live),
        0 <= chain < facts.chains@.len(),
        0 <= link < facts.chains@[chain].links@.len(),
    ensures
        ({
            let keys = facts.chains@[chain].links@[link];
            &&& fate(live, keys.wal@, modified, now_ms, grace_ms) == Fate::Live
            &&& fate(live, keys.page@, modified, now_ms, grace_ms) == Fate::Live
        }),
{
    let keys = facts.chains@[chain].links@[link];
    assert(link_names(keys, keys.wal@) && link_names(keys, keys.page@));
    assert(chain_names(facts.chains@[chain], keys.wal@));
    assert(chain_names(facts.chains@[chain], keys.page@));
    assert(live.keys@.dom().contains(keys.wal@) && live.keys@.dom().contains(keys.page@));
}

} // verus!
