//! What the objects of a store say.

use vstd::prelude::*;

use crate::ordered::OrderedMap;
use crate::store::version::{clone_opt_text, HandoffState};
use crate::text::{opt_text, same_text};

verus! {

/// Where a path stands in a manifest: its current version.
#[derive(Debug)]
pub struct PageEntry {
    /// Id of the current version.
    pub page_id: String,
    /// Commit that made it current.
    pub seq: u64,
    /// When it was committed, by the writer's clock.
    pub created_at_ms: i64,
    /// Machine that wrote it.
    pub writer_id: String,
    /// Title.
    pub title: String,
    /// Version it took the place of, if any.
    pub supersedes: Option<String>,
}

/// What a `PageEntry` says.
pub struct PageEntryView {
    pub page_id: Seq<char>,
    pub seq: u64,
    pub created_at_ms: i64,
    pub writer_id: Seq<char>,
    pub title: Seq<char>,
    pub supersedes: Option<Seq<char>>,
}

impl View for PageEntry {
    type V = PageEntryView;

    open spec fn view(&self) -> PageEntryView {
        PageEntryView {
            page_id: self.page_id@,
            seq: self.seq,
            created_at_ms: self.created_at_ms,
            writer_id: self.writer_id@,
            title: self.title@,
            supersedes: opt_text(self.supersedes),
        }
    }
}

impl Clone for PageEntry {
    fn clone(&self) -> (copy: Self)
        ensures
            copy == *self,
    {
        PageEntry {
            page_id: self.page_id.clone(),
            seq: self.seq,
            created_at_ms: self.created_at_ms,
            writer_id: self.writer_id.clone(),
            title: self.title.clone(),
            supersedes: clone_opt_text(&self.supersedes),
        }
    }
}

/// A deleted path.
#[derive(Debug)]
pub struct Tombstone {
    /// Commit that deleted it.
    pub seq: u64,
    /// When, by the writer's clock.
    pub deleted_at_ms: i64,
    /// Machine that deleted it.
    pub writer_id: String,
    /// Version that was current when it was deleted.
    pub last_page_id: Option<String>,
}

/// What a `Tombstone` says.
pub struct TombstoneView {
    pub seq: u64,
    pub deleted_at_ms: i64,
    pub writer_id: Seq<char>,
    pub last_page_id: Option<Seq<char>>,
}

impl View for Tombstone {
    type V = TombstoneView;

    open spec fn view(&self) -> TombstoneView {
        TombstoneView {
            seq: self.seq,
            deleted_at_ms: self.deleted_at_ms,
            writer_id: self.writer_id@,
            last_page_id: opt_text(self.last_page_id),
        }
    }
}

impl Clone for Tombstone {
    fn clone(&self) -> (copy: Self)
        ensures
            copy == *self,
    {
        Tombstone {
            seq: self.seq,
            deleted_at_ms: self.deleted_at_ms,
            writer_id: self.writer_id.clone(),
            last_page_id: clone_opt_text(&self.last_page_id),
        }
    }
}

/// One version of a page. Never changed once written.
#[derive(Debug)]
pub struct PageVersion {
    /// Id, derived from the content.
    pub page_id: String,
    /// Path inside the project.
    pub path: String,
    /// Title.
    pub title: String,
    /// Markdown body.
    pub body: String,
    /// Version it took the place of, if any.
    pub supersedes: Option<String>,
}

/// What a `PageVersion` says.
pub struct PageVersionView {
    pub page_id: Seq<char>,
    pub path: Seq<char>,
    pub title: Seq<char>,
    pub body: Seq<char>,
    pub supersedes: Option<Seq<char>>,
}

impl View for PageVersion {
    type V = PageVersionView;

    open spec fn view(&self) -> PageVersionView {
        PageVersionView {
            page_id: self.page_id@,
            path: self.path@,
            title: self.title@,
            body: self.body@,
            supersedes: opt_text(self.supersedes),
        }
    }
}

impl Clone for PageVersion {
    fn clone(&self) -> (copy: Self)
        ensures
            copy == *self,
    {
        PageVersion {
            page_id: self.page_id.clone(),
            path: self.path.clone(),
            title: self.title.clone(),
            body: self.body.clone(),
            supersedes: clone_opt_text(&self.supersedes),
        }
    }
}

/// The write-ahead record of one page version.
#[derive(Debug)]
pub struct WalEntry {
    /// Schema number.
    pub schema: u32,
    /// Machine that wrote the version.
    pub writer_id: String,
    /// Id of the version.
    pub page_id: String,
    /// Path inside the project.
    pub path: String,
    /// Version it took the place of, if any.
    pub supersedes: Option<String>,
}

/// What a `WalEntry` says.
pub struct WalEntryView {
    pub schema: u32,
    pub writer_id: Seq<char>,
    pub page_id: Seq<char>,
    pub path: Seq<char>,
    pub supersedes: Option<Seq<char>>,
}

impl View for WalEntry {
    type V = WalEntryView;

    open spec fn view(&self) -> WalEntryView {
        WalEntryView {
            schema: self.schema,
            writer_id: self.writer_id@,
            page_id: self.page_id@,
            path: self.path@,
            supersedes: opt_text(self.supersedes),
        }
    }
}

impl Clone for WalEntry {
    fn clone(&self) -> (copy: Self)
        ensures
            copy == *self,
    {
        WalEntry {
            schema: self.schema,
            writer_id: self.writer_id.clone(),
            page_id: self.page_id.clone(),
            path: self.path.clone(),
            supersedes: clone_opt_text(&self.supersedes),
        }
    }
}

/// A note that one machine leaves for another.
#[derive(Debug)]
pub struct Handoff {
    /// Schema number.
    pub schema: u32,
    /// Id, derived from the content.
    pub id: String,
    /// Title.
    pub title: String,
    /// Body.
    pub body: String,
    /// Machine that left it.
    pub created_by: String,
    /// When it was left.
    pub created_at_ms: i64,
    /// Machine that took it, if any.
    pub claimed_by: Option<String>,
    /// When it was taken.
    pub claimed_at_ms: Option<i64>,
    /// When it was finished.
    pub finished_at_ms: Option<i64>,
}

/// What a `Handoff` says.
pub struct HandoffView {
    pub schema: u32,
    pub id: Seq<char>,
    pub title: Seq<char>,
    pub body: Seq<char>,
    pub created_by: Seq<char>,
    pub created_at_ms: i64,
    pub claimed_by: Option<Seq<char>>,
    pub claimed_at_ms: Option<i64>,
    pub finished_at_ms: Option<i64>,
}

impl View for Handoff {
    type V = HandoffView;

    open spec fn view(&self) -> HandoffView {
        HandoffView {
            schema: self.schema,
            id: self.id@,
            title: self.title@,
            body: self.body@,
            created_by: self.created_by@,
            created_at_ms: self.created_at_ms,
            claimed_by: opt_text(self.claimed_by),
            claimed_at_ms: self.claimed_at_ms,
            finished_at_ms: self.finished_at_ms,
        }
    }
}

impl Clone for Handoff {
    fn clone(&self) -> (copy: Self)
        ensures
            copy == *self,
    {
        Handoff {
            schema: self.schema,
            id: self.id.clone(),
            title: self.title.clone(),
            body: self.body.clone(),
            created_by: self.created_by.clone(),
            created_at_ms: self.created_at_ms,
            claimed_by: clone_opt_text(&self.claimed_by),
            claimed_at_ms: self.claimed_at_ms,
            finished_at_ms: self.finished_at_ms,
        }
    }
}

/// The head of a session's chain of segments.
#[derive(Debug)]
pub struct SessionHead {
    /// Schema number.
    pub schema: u32,
    /// Session.
    pub session_id: String,
    /// Segments committed.
    pub generation: u64,
    /// Newest segment.
    pub segment_id: String,
    /// Observations committed.
    pub count: u64,
    /// When the head last moved.
    pub updated_at_ms: i64,
}

/// What a `SessionHead` says.
pub struct SessionHeadView {
    pub schema: u32,
    pub session_id: Seq<char>,
    pub generation: u64,
    pub segment_id: Seq<char>,
    pub count: u64,
    pub updated_at_ms: i64,
}

impl View for SessionHead {
    type V = SessionHeadView;

    open spec fn view(&self) -> SessionHeadView {
        SessionHeadView {
            schema: self.schema,
            session_id: self.session_id@,
            generation: self.generation,
            segment_id: self.segment_id@,
            count: self.count,
            updated_at_ms: self.updated_at_ms,
        }
    }
}

impl Clone for SessionHead {
    fn clone(&self) -> (copy: Self)
        ensures
            copy == *self,
    {
        SessionHead {
            schema: self.schema,
            session_id: self.session_id.clone(),
            generation: self.generation,
            segment_id: self.segment_id.clone(),
            count: self.count,
            updated_at_ms: self.updated_at_ms,
        }
    }
}

/// One captured event.
#[derive(Debug)]
pub struct Observation {
    /// Schema number.
    pub schema: u32,
    /// Id, derived from the content.
    pub observation_id: String,
    /// Session.
    pub session_id: String,
    /// Who acted.
    pub actor: String,
    /// Kind of event.
    pub kind: String,
    /// What happened.
    pub text: String,
    /// When.
    pub created_at_ms: i64,
}

/// What a `Observation` says.
pub struct ObservationView {
    pub schema: u32,
    pub observation_id: Seq<char>,
    pub session_id: Seq<char>,
    pub actor: Seq<char>,
    pub kind: Seq<char>,
    pub text: Seq<char>,
    pub created_at_ms: i64,
}

impl View for Observation {
    type V = ObservationView;

    open spec fn view(&self) -> ObservationView {
        ObservationView {
            schema: self.schema,
            observation_id: self.observation_id@,
            session_id: self.session_id@,
            actor: self.actor@,
            kind: self.kind@,
            text: self.text@,
            created_at_ms: self.created_at_ms,
        }
    }
}

impl Clone for Observation {
    fn clone(&self) -> (copy: Self)
        ensures
            copy == *self,
    {
        Observation {
            schema: self.schema,
            observation_id: self.observation_id.clone(),
            session_id: self.session_id.clone(),
            actor: self.actor.clone(),
            kind: self.kind.clone(),
            text: self.text.clone(),
            created_at_ms: self.created_at_ms,
        }
    }
}

impl Observation {
    /// Whether two of them say the same.
    pub fn same(&self, other: &Self) -> (same: bool)
        ensures
            same == (self@ == other@),
    {
        self.schema == other.schema
            && same_text(self.observation_id.as_str(), other.observation_id.as_str())
            && same_text(self.session_id.as_str(), other.session_id.as_str())
            && same_text(self.actor.as_str(), other.actor.as_str())
            && same_text(self.kind.as_str(), other.kind.as_str())
            && same_text(self.text.as_str(), other.text.as_str())
            && self.created_at_ms == other.created_at_ms
    }
}

/// One published piece of the index.
#[derive(Debug)]
pub struct SplitEntry {
    /// Machine that built it.
    pub writer_id: String,
    /// Number among that machine's splits.
    pub seq: u64,
    /// Where its files stand.
    pub prefix: String,
    /// Documents in it.
    pub doc_count: u64,
    /// Hash of its files.
    pub content_hash: String,
}

/// What a `SplitEntry` says.
pub struct SplitEntryView {
    pub writer_id: Seq<char>,
    pub seq: u64,
    pub prefix: Seq<char>,
    pub doc_count: u64,
    pub content_hash: Seq<char>,
}

impl View for SplitEntry {
    type V = SplitEntryView;

    open spec fn view(&self) -> SplitEntryView {
        SplitEntryView {
            writer_id: self.writer_id@,
            seq: self.seq,
            prefix: self.prefix@,
            doc_count: self.doc_count,
            content_hash: self.content_hash@,
        }
    }
}

impl Clone for SplitEntry {
    fn clone(&self) -> (copy: Self)
        ensures
            copy == *self,
    {
        SplitEntry {
            writer_id: self.writer_id.clone(),
            seq: self.seq,
            prefix: self.prefix.clone(),
            doc_count: self.doc_count,
            content_hash: self.content_hash.clone(),
        }
    }
}

/// Which catalog is current.
#[derive(Debug)]
pub struct CatalogHead {
    /// Schema number.
    pub schema: u32,
    /// Generation of that catalog.
    pub generation: u64,
    /// Key of that catalog.
    pub catalog_key: String,
    /// When the head last moved.
    pub updated_at_ms: i64,
}

/// What a `CatalogHead` says.
pub struct CatalogHeadView {
    pub schema: u32,
    pub generation: u64,
    pub catalog_key: Seq<char>,
    pub updated_at_ms: i64,
}

impl View for CatalogHead {
    type V = CatalogHeadView;

    open spec fn view(&self) -> CatalogHeadView {
        CatalogHeadView {
            schema: self.schema,
            generation: self.generation,
            catalog_key: self.catalog_key@,
            updated_at_ms: self.updated_at_ms,
        }
    }
}

impl Clone for CatalogHead {
    fn clone(&self) -> (copy: Self)
        ensures
            copy == *self,
    {
        CatalogHead {
            schema: self.schema,
            generation: self.generation,
            catalog_key: self.catalog_key.clone(),
            updated_at_ms: self.updated_at_ms,
        }
    }
}

/// The right of one machine to do a piece of work for a while.
#[derive(Debug)]
pub struct Lease {
    /// Schema number.
    pub schema: u32,
    /// Machine that holds it.
    pub owner: String,
    /// How often it was taken.
    pub epoch: u64,
    /// When it was taken.
    pub acquired_at_ms: i64,
    /// When it runs out.
    pub expires_at_ms: i64,
}

/// What a `Lease` says.
pub struct LeaseView {
    pub schema: u32,
    pub owner: Seq<char>,
    pub epoch: u64,
    pub acquired_at_ms: i64,
    pub expires_at_ms: i64,
}

impl View for Lease {
    type V = LeaseView;

    open spec fn view(&self) -> LeaseView {
        LeaseView {
            schema: self.schema,
            owner: self.owner@,
            epoch: self.epoch,
            acquired_at_ms: self.acquired_at_ms,
            expires_at_ms: self.expires_at_ms,
        }
    }
}

impl Clone for Lease {
    fn clone(&self) -> (copy: Self)
        ensures
            copy == *self,
    {
        Lease {
            schema: self.schema,
            owner: self.owner.clone(),
            epoch: self.epoch,
            acquired_at_ms: self.acquired_at_ms,
            expires_at_ms: self.expires_at_ms,
        }
    }
}

/// What a list of observations says.
pub open spec fn observations_view(list: Seq<Observation>) -> Seq<ObservationView> {
    Seq::new(list.len(), |i: int| list[i]@)
}

/// Whether two lists of observations say the same.
pub fn same_observations(a: &Vec<Observation>, b: &Vec<Observation>) -> (same: bool)
    ensures
        same == (observations_view(a@) == observations_view(b@)),
{
    if a.len() != b.len() {
        assert(observations_view(a@).len() != observations_view(b@).len());
        return false;
    }
    let mut i: usize = 0;
    while i < a.len()
        invariant
            a@.len() == b@.len(),
            i <= a@.len(),
            forall|j: int| 0 <= j < i ==> (#[trigger] a@[j])@ == b@[j]@,
        decreases a@.len() - i,
    {
        if !a[i].same(&b[i]) {
            assert(observations_view(a@)[i as int] != observations_view(b@)[i as int]);
            return false;
        }
        i += 1;
    }
    assert(observations_view(a@) =~= observations_view(b@));
    true
}

/// A copy of a list of observations.
pub fn copy_observations(list: &Vec<Observation>) -> (copy: Vec<Observation>)
    ensures
        copy@ == list@,
{
    let mut copy: Vec<Observation> = Vec::new();
    let mut i: usize = 0;
    while i < list.len()
        invariant
            i <= list@.len(),
            copy@ == list@.take(i as int),
        decreases list@.len() - i,
    {
        copy.push(list[i].clone());
        assert(copy@ =~= list@.take(i + 1));
        i += 1;
    }
    assert(list@.take(i as int) =~= list@);
    copy
}

/// One batch of observations of a session, linked to the batch before it.
#[derive(Debug)]
pub struct ObservationSegment {
    /// Schema number.
    pub schema: u32,
    /// Session.
    pub session_id: String,
    /// Segment before this one, if any.
    pub prev: Option<String>,
    /// Observations, in arrival order.
    pub observations: Vec<Observation>,
}

/// What an `ObservationSegment` says.
pub struct SegmentView {
    pub schema: u32,
    pub session_id: Seq<char>,
    pub prev: Option<Seq<char>>,
    pub observations: Seq<ObservationView>,
}

impl View for ObservationSegment {
    type V = SegmentView;

    open spec fn view(&self) -> SegmentView {
        SegmentView {
            schema: self.schema,
            session_id: self.session_id@,
            prev: opt_text(self.prev),
            observations: observations_view(self.observations@),
        }
    }
}

/// What a list of splits says.
pub open spec fn splits_view(list: Seq<SplitEntry>) -> Seq<SplitEntryView> {
    Seq::new(list.len(), |i: int| list[i]@)
}

/// A copy of a list of splits.
pub fn copy_splits(list: &Vec<SplitEntry>) -> (copy: Vec<SplitEntry>)
    ensures
        copy@ == list@,
{
    let mut copy: Vec<SplitEntry> = Vec::new();
    let mut i: usize = 0;
    while i < list.len()
        invariant
            i <= list@.len(),
            copy@ == list@.take(i as int),
        decreases list@.len() - i,
    {
        copy.push(list[i].clone());
        assert(copy@ =~= list@.take(i + 1));
        i += 1;
    }
    assert(list@.take(i as int) =~= list@);
    copy
}

/// The published pieces of the index of a project.
#[derive(Debug)]
pub struct IndexCatalog {
    /// Schema number.
    pub schema: u32,
    /// How often the catalog was replaced.
    pub generation: u64,
    /// The splits, in the order they were published.
    pub splits: Vec<SplitEntry>,
    /// Up to when the index covers the pages.
    pub covered_until_ms: i64,
}

/// What an `IndexCatalog` says.
pub struct CatalogView {
    pub schema: u32,
    pub generation: u64,
    pub splits: Seq<SplitEntryView>,
    pub covered_until_ms: i64,
}

impl View for IndexCatalog {
    type V = CatalogView;

    open spec fn view(&self) -> CatalogView {
        CatalogView {
            schema: self.schema,
            generation: self.generation,
            splits: splits_view(self.splits@),
            covered_until_ms: self.covered_until_ms,
        }
    }
}

impl Lease {
    /// Whether the lease has run out.
    pub fn is_expired(&self, now_ms: i64) -> (expired: bool)
        ensures
            expired == (now_ms >= self.expires_at_ms),
    {
        now_ms >= self.expires_at_ms
    }
}

/// The state that a handoff is in.
pub open spec fn handoff_state(handoff: HandoffView) -> HandoffState {
    if handoff.finished_at_ms is Some {
        HandoffState::Done
    } else if handoff.claimed_by is Some {
        HandoffState::Claimed
    } else {
        HandoffState::Open
    }
}

impl Handoff {
    /// The state that the handoff is in.
    pub fn state(&self) -> (state: HandoffState)
        ensures
            state == handoff_state(self@),
    {
        if self.finished_at_ms.is_some() {
            HandoffState::Done
        } else if self.claimed_by.is_some() {
            HandoffState::Claimed
        } else {
            HandoffState::Open
        }
    }
}

// ---- The manifest ----------------------------------------------------------------------

/// The commit point of a project: which version of each path is current, and
/// which paths are deleted.
#[derive(Debug)]
pub struct Manifest {
    /// Number of the last commit.
    pub seq: u64,
    /// The current version of each path.
    pub pages: OrderedMap<PageEntry>,
    /// The deleted paths.
    pub tombstones: OrderedMap<Tombstone>,
}

/// What a `Manifest` says.
#[verifier::ext_equal]
pub struct ManifestView {
    pub seq: u64,
    pub pages: Map<Seq<char>, PageEntryView>,
    pub tombstones: Map<Seq<char>, TombstoneView>,
}

/// What the entries under each path say.
pub open spec fn pages_view(
    pages: Map<Seq<char>, PageEntry>,
) -> Map<Seq<char>, PageEntryView> {
    Map::new(|k: Seq<char>| pages.dom().contains(k), |k: Seq<char>| pages[k]@)
}

/// What the tombstones under each path say.
pub open spec fn tombstones_view(
    tombstones: Map<Seq<char>, Tombstone>,
) -> Map<Seq<char>, TombstoneView> {
    Map::new(|k: Seq<char>| tombstones.dom().contains(k), |k: Seq<char>| tombstones[k]@)
}

impl View for Manifest {
    type V = ManifestView;

    open spec fn view(&self) -> ManifestView {
        ManifestView {
            seq: self.seq,
            pages: pages_view(self.pages@),
            tombstones: tombstones_view(self.tombstones@),
        }
    }
}

impl ManifestView {
    /// The id of the current version of `path`.
    pub open spec fn head_page_id(self, path: Seq<char>) -> Option<Seq<char>> {
        if self.pages.dom().contains(path) {
            Some(self.pages[path].page_id)
        } else {
            None
        }
    }

    /// The manifest with `entry` as the current version of `path`.
    pub open spec fn recorded(self, path: Seq<char>, entry: PageEntryView) -> ManifestView {
        ManifestView {
            seq: entry.seq,
            pages: self.pages.insert(path, entry),
            tombstones: self.tombstones.remove(path),
        }
    }

    /// The manifest with `path` deleted.
    pub open spec fn tombstoned(self, path: Seq<char>, tombstone: TombstoneView) -> ManifestView {
        ManifestView {
            seq: tombstone.seq,
            pages: self.pages.remove(path),
            tombstones: self.tombstones.insert(path, tombstone),
        }
    }

    /// Whether no path is both current and deleted.
    pub open spec fn consistent(self) -> bool {
        self.pages.dom().disjoint(self.tombstones.dom())
    }
}

impl Manifest {
    /// The paths stand in order.
    pub open spec fn wf(&self) -> bool {
        self.pages.wf() && self.tombstones.wf()
    }

    /// The manifest of a project that never committed.
    pub fn empty() -> (manifest: Self)
        ensures
            manifest.wf(),
            manifest@ == (ManifestView { seq: 0, pages: Map::empty(), tombstones: Map::empty() }),
    {
        let manifest = Manifest {
            seq: 0,
            pages: OrderedMap::new(),
            tombstones: OrderedMap::new(),
        };
        assert(manifest@.pages =~= Map::empty());
        assert(manifest@.tombstones =~= Map::empty());
        manifest
    }

    /// The entry of `path`, when it has a current version.
    pub fn head(&self, path: &str) -> (entry: Option<&PageEntry>)
        requires
            self.wf(),
        ensures
            match entry {
                Some(e) => self@.pages.dom().contains(path@) && e@ == self@.pages[path@],
                None => !self@.pages.dom().contains(path@),
            },
    {
        self.pages.get(path)
    }

    /// The id of the current version of `path`.
    pub fn head_page_id(&self, path: &str) -> (id: Option<String>)
        requires
            self.wf(),
        ensures
            opt_text(id) == self@.head_page_id(path@),
    {
        match self.head(path) {
            Some(entry) => Some(entry.page_id.clone()),
            None => None,
        }
    }

    /// The number of the next commit.
    pub fn next_seq(&self) -> (seq: u64)
        requires
            self.seq < u64::MAX,
        ensures
            seq == self@.seq + 1,
    {
        self.seq + 1
    }

    /// Whether `path` is deleted.
    pub fn is_tombstoned(&self, path: &str) -> (deleted: bool)
        requires
            self.wf(),
        ensures
            deleted == self@.tombstones.dom().contains(path@),
    {
        self.tombstones.contains(path)
    }

    /// Whether `page_id` is the current version of `path`.
    pub fn is_current(&self, path: &str, page_id: &str) -> (current: bool)
        requires
            self.wf(),
        ensures
            current == (self@.head_page_id(path@) == Some(page_id@)),
    {
        match self.head(path) {
            Some(entry) => same_text(entry.page_id.as_str(), page_id),
            None => false,
        }
    }

    /// Makes `entry` the current version of `path`.
    pub fn record(&mut self, path: &str, entry: PageEntry)
        requires
            old(self).wf(),
        ensures
            final(self).wf(),
            final(self)@ == old(self)@.recorded(path@, entry@),
    {
        let ghost pages = self.pages@;
        let ghost tombstones = self.tombstones@;
        self.seq = entry.seq;
        self.pages.insert(path.to_owned(), entry);
        self.tombstones.remove(path);
        assert(pages_view(self.pages@) =~= pages_view(pages).insert(path@, entry@));
        assert(tombstones_view(self.tombstones@) =~= tombstones_view(tombstones).remove(path@));
    }

    /// Deletes `path`.
    pub fn tombstone(&mut self, path: &str, tombstone: Tombstone)
        requires
            old(self).wf(),
        ensures
            final(self).wf(),
            final(self)@ == old(self)@.tombstoned(path@, tombstone@),
    {
        let ghost pages = self.pages@;
        let ghost tombstones = self.tombstones@;
        self.seq = tombstone.seq;
        self.pages.remove(path);
        self.tombstones.insert(path.to_owned(), tombstone);
        assert(pages_view(self.pages@) =~= pages_view(pages).remove(path@));
        assert(tombstones_view(self.tombstones@) =~= tombstones_view(tombstones).insert(
            path@,
            tombstone@,
        ));
    }
}

} // verus!
