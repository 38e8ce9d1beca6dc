//! The search of a project.
//!
//! The index only proposes: a hit survives only where the manifest still names exactly that
//! version of the page. That is what lets old splits keep their stale copies without ever
//! answering from them.

use vstd::prelude::*;

use crate::search::documents::{
    ensure_split_model_matches, model_mismatch, opt_identity, same_model, EmbeddingIdentity,
    IdentityView,
};
use crate::search::hits::{
    copy_hit, copy_places, fuse, fuse_key, group_hits, grouped, groups_view, hits_view,
    lemma_grouped_apart, lemma_ordered_holds, lemma_ordered_is_listed, lemma_ordered_once,
    lemma_rescored_once, listed, listed_before, lists_view, named_once, order_hits, ordered,
    rescored, Group, GroupView, Hit, HitView,
};
use crate::search::tuning::{SearchTuning, ONE};
use crate::store::records::ManifestView;
use crate::text::{lemma_texts_push, opt_text, same_text, texts};

verus! {

/// How many candidates each stream had.
#[derive(Debug, Clone, Copy, PartialEq, Eq, Structural)]
pub struct StreamCounts {
    /// Whether any split was searched.
    pub searched: bool,
    /// From titles and bodies.
    pub body: usize,
    /// From declared identifiers.
    pub entities: usize,
    /// From link targets.
    pub links: usize,
    /// From pages that link to the pages found.
    pub neighbors: usize,
    /// From embeddings.
    pub vector: usize,
}

/// The streams and their counts: the direct ones wherever anything was searched, the others
/// where they found something.
pub open spec fn counted(counts: StreamCounts) -> Seq<(Seq<char>, usize)> {
    let direct: Seq<(Seq<char>, usize)> = if counts.searched {
        seq![("body"@, counts.body), ("entities"@, counts.entities), ("links"@, counts.links)]
    } else {
        Seq::empty()
    };
    let linked: Seq<(Seq<char>, usize)> = if counts.neighbors > 0 {
        seq![("neighbors"@, counts.neighbors)]
    } else {
        Seq::empty()
    };
    let close: Seq<(Seq<char>, usize)> = if counts.vector > 0 {
        seq![("vector"@, counts.vector)]
    } else {
        Seq::empty()
    };
    direct + linked + close
}

/// The streams that found anything.
pub open spec fn active(list: Seq<(Seq<char>, usize)>) -> Seq<Seq<char>>
    decreases list.len(),
{
    if list.len() == 0 {
        Seq::empty()
    } else if list.last().1 > 0 {
        active(list.drop_last()).push(list.last().0)
    } else {
        active(list.drop_last())
    }
}

/// What a list of counts says.
pub open spec fn counts_view(list: Seq<(&'static str, usize)>) -> Seq<(Seq<char>, usize)> {
    Seq::new(list.len(), |i: int| (list[i].0@, list[i].1))
}

impl StreamCounts {
    /// The streams and their counts.
    pub fn entries(&self) -> (list: Vec<(&'static str, usize)>)
        ensures
            counts_view(list@) == counted(*self),
    {
        let mut list: Vec<(&'static str, usize)> = Vec::new();
        if self.searched {
            list.push(("body", self.body));
            list.push(("entities", self.entities));
            list.push(("links", self.links));
        }
        if self.neighbors > 0 {
            list.push(("neighbors", self.neighbors));
        }
        if self.vector > 0 {
            list.push(("vector", self.vector));
        }
        assert(counts_view(list@) =~= counted(*self));
        list
    }

    /// The streams that found anything.
    pub fn streams(&self) -> (names: Vec<String>)
        ensures
            texts(names@) == active(counted(*self)),
    {
        let list: Vec<(&'static str, usize)> = self.entries();
        let ghost all = counts_view(list@);
        let mut names: Vec<String> = Vec::new();
        let mut i: usize = 0;
        assert(all.take(0) =~= Seq::empty());
        assert(texts(names@) =~= Seq::empty());
        while i < list.len()
            invariant
                all == counts_view(list@),
                i <= list@.len(),
                texts(names@) == active(all.take(i as int)),
            decreases list@.len() - i,
        {
            assert(all.take(i + 1).drop_last() =~= all.take(i as int));
            if list[i].1 > 0 {
                let ghost before = names@;
                let name: String = list[i].0.to_owned();
                names.push(name);
                proof {
                    lemma_texts_push(before, name);
                }
            }
            i += 1;
        }
        assert(all.take(i as int) =~= all);
        names
    }
}

/// What a search did.
#[derive(Debug)]
pub struct SearchOutcome {
    /// Fused hits that the manifest confirmed.
    pub hits: Vec<Hit>,
    /// Splits that were searched.
    pub splits_searched: usize,
    /// Candidates of the direct streams.
    pub candidates: usize,
    /// Fused hits that the manifest did not confirm.
    pub filtered_out: usize,
    /// Streams that found anything.
    pub streams_active: Vec<String>,
    /// Candidates by stream.
    pub stream_candidates: StreamCounts,
}

/// What a `SearchOutcome` says.
pub struct OutcomeView {
    pub hits: Seq<HitView>,
    pub splits_searched: nat,
    pub candidates: nat,
    pub filtered_out: nat,
    pub streams_active: Seq<Seq<char>>,
    pub stream_candidates: StreamCounts,
}

impl View for SearchOutcome {
    type V = OutcomeView;

    open spec fn view(&self) -> OutcomeView {
        OutcomeView {
            hits: hits_view(self.hits@),
            splits_searched: self.splits_searched as nat,
            candidates: self.candidates as nat,
            filtered_out: self.filtered_out as nat,
            streams_active: texts(self.streams_active@),
            stream_candidates: self.stream_candidates,
        }
    }
}

/// Counts of nothing.
pub open spec fn no_counts() -> StreamCounts {
    StreamCounts { searched: false, body: 0, entities: 0, links: 0, neighbors: 0, vector: 0 }
}

/// A direct stream: what it is called, and the fields that it searches.
pub fn stream_fields(stream: usize) -> (named: (&'static str, Vec<&'static str>))
    requires
        stream < 3,
    ensures
        named.0@ == (if stream == 0 {
            "body"@
        } else if stream == 1 {
            "entities"@
        } else {
            "links"@
        }),
        stream == 0 ==> named.1@ == seq!["title", "body"],
        stream == 1 ==> named.1@ == seq!["entities"],
        stream == 2 ==> named.1@ == seq!["links"],
{
    let mut fields: Vec<&'static str> = Vec::new();
    if stream == 0 {
        fields.push("title");
        fields.push("body");
        assert(fields@ =~= seq!["title", "body"]);
        ("body", fields)
    } else if stream == 1 {
        fields.push("entities");
        assert(fields@ =~= seq!["entities"]);
        ("entities", fields)
    } else {
        fields.push("links");
        assert(fields@ =~= seq!["links"]);
        ("links", fields)
    }
}

// ---- The course of a search ----------------------------------------------------------------------

/// How far a search is.
#[derive(Debug, Clone, Copy, PartialEq, Eq, Structural)]
pub enum SearchStage {
    /// The catalog is being read.
    Loading,
    /// The splits are being fetched.
    Fetching,
    /// The direct streams are being searched.
    Searching,
    /// The direct hits are being scored, to find seeds.
    Seeding,
    /// Pages that link to the seeds are being searched.
    Linking,
    /// The embedders of the splits are being read.
    Identifying,
    /// The vector stream is being searched.
    Comparing,
    /// All hits are being scored.
    Fusing,
    /// The manifest is being asked.
    Confirming,
    /// Recency is being counted in.
    Boosting,
    /// It is over.
    Finished,
}

/// A search that is under way.
#[derive(Debug)]
pub struct SearchRun {
    /// What is asked for.
    pub query: String,
    /// How it is tuned.
    pub tuning: SearchTuning,
    /// Most hits that are wanted.
    pub limit: usize,
    /// The embedder of queries, where there is one.
    pub embedder: Option<EmbeddingIdentity>,
    /// Prefixes and hashes of the splits.
    pub splits: Vec<(String, String)>,
    /// Lists that are fused.
    pub lists: Vec<Vec<Hit>>,
    /// Bits of their weights.
    pub weights: Vec<u32>,
    /// Candidates of the direct streams.
    pub candidates: usize,
    /// Candidates by stream.
    pub counts: StreamCounts,
    /// Pages that are being scored.
    pub groups: Vec<Group>,
    /// Fused hits, later those that were confirmed.
    pub hits: Vec<Hit>,
    /// Fused hits that were not confirmed.
    pub filtered_out: usize,
    /// How far it is.
    pub stage: SearchStage,
}

/// What a `SearchRun` says.
#[verifier::ext_equal]
pub struct SearchRunView {
    pub query: Seq<char>,
    pub tuning: SearchTuning,
    pub limit: nat,
    pub embedder: Option<IdentityView>,
    pub splits: Seq<(Seq<char>, Seq<char>)>,
    pub lists: Seq<Seq<HitView>>,
    pub weights: Seq<u32>,
    pub candidates: nat,
    pub counts: StreamCounts,
    pub groups: Seq<GroupView>,
    pub hits: Seq<HitView>,
    pub filtered_out: nat,
    pub stage: SearchStage,
}

/// What prefixes and hashes say.
pub open spec fn splits_view(splits: Seq<(String, String)>) -> Seq<(Seq<char>, Seq<char>)> {
    Seq::new(splits.len(), |i: int| (splits[i].0@, splits[i].1@))
}

impl View for SearchRun {
    type V = SearchRunView;

    open spec fn view(&self) -> SearchRunView {
        SearchRunView {
            query: self.query@,
            tuning: self.tuning,
            limit: self.limit as nat,
            embedder: opt_identity(self.embedder),
            splits: splits_view(self.splits@),
            lists: lists_view(self.lists@),
            weights: self.weights@,
            candidates: self.candidates as nat,
            counts: self.counts,
            groups: groups_view(self.groups@),
            hits: hits_view(self.hits@),
            filtered_out: self.filtered_out as nat,
            stage: self.stage,
        }
    }
}

/// What happened.
#[derive(Debug)]
pub enum SearchEvent {
    /// The catalog was read: prefixes and hashes of its splits.
    Catalog(Result<Vec<(String, String)>, String>),
    /// The splits were fetched.
    Fetched(Result<(), String>),
    /// The direct streams were searched: the lists of the first split, then those of the
    /// next.
    Found(Result<Vec<Vec<Hit>>, String>),
    /// The pages were scored.
    Scored(Vec<u32>),
    /// Pages that link were searched, split by split.
    Linked(Result<Vec<Vec<Hit>>, String>),
    /// The embedders of the splits were read.
    Identified(Vec<Result<Option<EmbeddingIdentity>, String>>),
    /// The vector stream was searched, split by split.
    Compared(Result<Vec<Vec<Hit>>, String>),
    /// The manifest was asked: the version that each path has now.
    Heads(Result<Vec<Option<String>>, String>),
    /// Recency was counted in: the factor and the new score of each hit.
    Boosted(Vec<(u32, u32)>),
}

/// What a `SearchEvent` says.
pub enum SearchEventView {
    Catalog(Result<Seq<(Seq<char>, Seq<char>)>, Seq<char>>),
    Fetched(Result<(), Seq<char>>),
    Found(Result<Seq<Seq<HitView>>, Seq<char>>),
    Scored(Seq<u32>),
    Linked(Result<Seq<Seq<HitView>>, Seq<char>>),
    Identified(Seq<Result<Option<IdentityView>, Seq<char>>>),
    Compared(Result<Seq<Seq<HitView>>, Seq<char>>),
    Heads(Result<Seq<Option<Seq<char>>>, Seq<char>>),
    Boosted(Seq<(u32, u32)>),
}

/// What read embedders say.
pub open spec fn identities_view(list: Seq<Result<Option<EmbeddingIdentity>, String>>) -> Seq<
    Result<Option<IdentityView>, Seq<char>>,
> {
    Seq::new(
        list.len(),
        |i: int|
            match list[i] {
                Ok(identity) => Ok(opt_identity(identity)),
                Err(why) => Err(why@),
            },
    )
}

/// What heads say.
pub open spec fn heads_view(list: Seq<Option<String>>) -> Seq<Option<Seq<char>>> {
    Seq::new(list.len(), |i: int| opt_text(list[i]))
}

impl View for SearchEvent {
    type V = SearchEventView;

    open spec fn view(&self) -> SearchEventView {
        match *self {
            SearchEvent::Catalog(Ok(splits)) => SearchEventView::Catalog(Ok(splits_view(splits@))),
            SearchEvent::Catalog(Err(why)) => SearchEventView::Catalog(Err(why@)),
            SearchEvent::Fetched(Ok(_)) => SearchEventView::Fetched(Ok(())),
            SearchEvent::Fetched(Err(why)) => SearchEventView::Fetched(Err(why@)),
            SearchEvent::Found(Ok(lists)) => SearchEventView::Found(Ok(lists_view(lists@))),
            SearchEvent::Found(Err(why)) => SearchEventView::Found(Err(why@)),
            SearchEvent::Scored(scores) => SearchEventView::Scored(scores@),
            SearchEvent::Linked(Ok(lists)) => SearchEventView::Linked(Ok(lists_view(lists@))),
            SearchEvent::Linked(Err(why)) => SearchEventView::Linked(Err(why@)),
            SearchEvent::Identified(list) => SearchEventView::Identified(identities_view(list@)),
            SearchEvent::Compared(Ok(lists)) => SearchEventView::Compared(Ok(lists_view(lists@))),
            SearchEvent::Compared(Err(why)) => SearchEventView::Compared(Err(why@)),
            SearchEvent::Heads(Ok(heads)) => SearchEventView::Heads(Ok(heads_view(heads@))),
            SearchEvent::Heads(Err(why)) => SearchEventView::Heads(Err(why@)),
            SearchEvent::Boosted(list) => SearchEventView::Boosted(list@),
        }
    }
}

/// What to do next.
#[derive(Debug)]
pub enum SearchAction {
    /// Read the catalog.
    LoadCatalog,
    /// Fetch the splits.
    Fetch,
    /// Search the direct streams of every split for this query.
    Search(String),
    /// Score pages by the places that lists of these weights give them.
    Score(Vec<Vec<(usize, usize)>>, Vec<u32>),
    /// Search every split for pages that link to one of these paths.
    FindLinks(Vec<String>),
    /// Read the embedder of every split.
    ReadIdentities,
    /// Embed this query and search the vector stream of every split.
    Compare(String),
    /// Ask the manifest for the versions that these paths have now.
    LoadHeads(Vec<String>),
    /// Count recency in, given the age of each hit, where it has one that counts.
    Boost(Vec<Option<i64>>),
    /// It is over.
    Finish(Result<SearchOutcome, String>),
}

/// What a `SearchAction` says.
#[verifier::ext_equal]
pub enum SearchActionView {
    LoadCatalog,
    Fetch,
    Search(Seq<char>),
    Score(Seq<Seq<(usize, usize)>>, Seq<u32>),
    FindLinks(Seq<Seq<char>>),
    ReadIdentities,
    Compare(Seq<char>),
    LoadHeads(Seq<Seq<char>>),
    Boost(Seq<Option<i64>>),
    Finish(Result<OutcomeView, Seq<char>>),
}

/// What lists of places say.
pub open spec fn places_view(places: Seq<Vec<(usize, usize)>>) -> Seq<Seq<(usize, usize)>> {
    Seq::new(places.len(), |i: int| places[i]@)
}

impl View for SearchAction {
    type V = SearchActionView;

    open spec fn view(&self) -> SearchActionView {
        match *self {
            SearchAction::LoadCatalog => SearchActionView::LoadCatalog,
            SearchAction::Fetch => SearchActionView::Fetch,
            SearchAction::Search(query) => SearchActionView::Search(query@),
            SearchAction::Score(places, weights) => SearchActionView::Score(
                places_view(places@),
                weights@,
            ),
            SearchAction::FindLinks(paths) => SearchActionView::FindLinks(texts(paths@)),
            SearchAction::ReadIdentities => SearchActionView::ReadIdentities,
            SearchAction::Compare(query) => SearchActionView::Compare(query@),
            SearchAction::LoadHeads(paths) => SearchActionView::LoadHeads(texts(paths@)),
            SearchAction::Boost(ages) => SearchActionView::Boost(ages@),
            SearchAction::Finish(Ok(outcome)) => SearchActionView::Finish(Ok(outcome@)),
            SearchAction::Finish(Err(why)) => SearchActionView::Finish(Err(why@)),
        }
    }
}

// ---- What each step makes ------------------------------------------------------------------------

/// How many hits lists have together.
pub open spec fn total(lists: Seq<Seq<HitView>>) -> nat
    decreases lists.len(),
{
    if lists.len() == 0 {
        0
    } else {
        total(lists.drop_last()) + lists.last().len()
    }
}

/// How many hits the lists of one of the three direct streams have.
pub open spec fn stream_total(lists: Seq<Seq<HitView>>, stream: int) -> nat
    decreases lists.len(),
{
    if lists.len() == 0 {
        0
    } else {
        stream_total(lists.drop_last(), stream) + (if (lists.len() - 1) % 3 == stream {
            lists.last().len()
        } else {
            0
        })
    }
}

/// Those lists that are not empty.
pub open spec fn filled(lists: Seq<Seq<HitView>>) -> Seq<Seq<HitView>>
    decreases lists.len(),
{
    if lists.len() == 0 {
        Seq::empty()
    } else if lists.last().len() > 0 {
        filled(lists.drop_last()).push(lists.last())
    } else {
        filled(lists.drop_last())
    }
}

/// As many times the same weight.
pub open spec fn same_weight(n: nat, weight: u32) -> Seq<u32> {
    Seq::new(n, |i: int| weight)
}

/// The places of groups.
pub open spec fn places_of(groups: Seq<GroupView>) -> Seq<Seq<(usize, usize)>> {
    Seq::new(groups.len(), |i: int| groups[i].places)
}

/// The paths of the first `n` hits that have one.
pub open spec fn seeds(hits: Seq<HitView>, n: int) -> Seq<Seq<char>>
    decreases n,
{
    if n <= 0 {
        Seq::empty()
    } else if n <= hits.len() && hits[n - 1].path.len() > 0 {
        seeds(hits, n - 1).push(hits[n - 1].path)
    } else {
        seeds(hits, n - 1)
    }
}

/// The paths of hits.
pub open spec fn paths_of(hits: Seq<HitView>) -> Seq<Seq<char>> {
    Seq::new(hits.len(), |i: int| hits[i].path)
}

/// Those hits whose version is the one that their path has now.
pub open spec fn confirmed(hits: Seq<HitView>, heads: Seq<Option<Seq<char>>>) -> Seq<HitView>
    decreases hits.len(),
{
    if hits.len() == 0 {
        Seq::empty()
    } else {
        let before = confirmed(hits.drop_last(), heads);
        if heads[hits.len() - 1] == Some(hits.last().page_id) {
            before.push(hits.last())
        } else {
            before
        }
    }
}

/// The ages of hits, where they count.
pub open spec fn ages_of(tuning: SearchTuning, hits: Seq<HitView>) -> Seq<Option<i64>> {
    Seq::new(hits.len(), |i: int| tuning.age_of(hits[i].updated_at_ms))
}

/// Hits with recency counted in.
pub open spec fn boosted(hits: Seq<HitView>, boosts: Seq<(u32, u32)>) -> Seq<HitView> {
    Seq::new(
        hits.len(),
        |i: int|
            HitView {
                recency_multiplier: boosts[i].0,
                fused_score: hits[i].score,
                score: boosts[i].1,
                ..hits[i]
            },
    )
}

/// At most the first `limit` hits.
pub open spec fn first_hits(hits: Seq<HitView>, limit: nat) -> Seq<HitView> {
    if hits.len() > limit {
        hits.take(limit as int)
    } else {
        hits
    }
}

/// Why the first split that may not be compared may not, at or after `from`.
pub open spec fn refused_split(
    identities: Seq<Result<Option<IdentityView>, Seq<char>>>,
    splits: Seq<(Seq<char>, Seq<char>)>,
    current: IdentityView,
    from: int,
) -> Option<Seq<char>>
    decreases identities.len() - from,
{
    if 0 <= from < identities.len() {
        match identities[from] {
            Ok(Some(recorded)) => if same_model(recorded, current) {
                refused_split(identities, splits, current, from + 1)
            } else {
                Some(model_mismatch(splits[from].0, recorded, current))
            },
            Ok(None) => refused_split(identities, splits, current, from + 1),
            Err(why) => Some(why),
        }
    } else {
        None
    }
}

// ---- How it goes ---------------------------------------------------------------------------------

/// The search goes on to a stage.
pub open spec fn to_stage(run: SearchRunView, stage: SearchStage, action: SearchActionView) -> (
    SearchRunView,
    SearchActionView,
) {
    (SearchRunView { stage, ..run }, action)
}

/// The search fails.
pub open spec fn search_failed(run: SearchRunView, why: Seq<char>) -> (
    SearchRunView,
    SearchActionView,
) {
    to_stage(run, SearchStage::Finished, SearchActionView::Finish(Err(why)))
}

/// The search ends with these hits.
pub open spec fn search_over(run: SearchRunView, hits: Seq<HitView>) -> (
    SearchRunView,
    SearchActionView,
) {
    let kept = first_hits(hits, run.limit);
    to_stage(
        SearchRunView { hits: Seq::empty(), ..run },
        SearchStage::Finished,
        SearchActionView::Finish(
            Ok(
                OutcomeView {
                    hits: kept,
                    splits_searched: run.splits.len(),
                    candidates: run.candidates,
                    filtered_out: run.filtered_out,
                    streams_active: active(counted(run.counts)),
                    stream_candidates: run.counts,
                },
            ),
        ),
    )
}

/// Pages are scored.
pub open spec fn to_score(run: SearchRunView, stage: SearchStage) -> (
    SearchRunView,
    SearchActionView,
) {
    let groups = grouped(run.lists);
    to_stage(
        SearchRunView { groups, ..run },
        stage,
        SearchActionView::Score(places_of(groups), run.weights),
    )
}

/// The vector stream follows where it runs, else the fusion.
pub open spec fn to_vectors(run: SearchRunView) -> (SearchRunView, SearchActionView) {
    if run.embedder is Some && run.tuning.runs_vectors() {
        to_stage(run, SearchStage::Identifying, SearchActionView::ReadIdentities)
    } else {
        to_score(run, SearchStage::Fusing)
    }
}

/// The direct hits are counted in.
pub open spec fn with_found(run: SearchRunView, lists: Seq<Seq<HitView>>) -> SearchRunView {
    SearchRunView {
        lists: filled(lists),
        weights: same_weight(filled(lists).len(), ONE),
        candidates: total(lists),
        counts: StreamCounts {
            searched: true,
            body: stream_total(lists, 0) as usize,
            entities: stream_total(lists, 1) as usize,
            links: stream_total(lists, 2) as usize,
            neighbors: 0,
            vector: 0,
        },
        ..run
    }
}

/// More lists are counted in, at one weight.
pub open spec fn with_more(run: SearchRunView, lists: Seq<Seq<HitView>>, weight: u32) -> SearchRunView {
    SearchRunView {
        lists: run.lists + filled(lists),
        weights: run.weights + same_weight(filled(lists).len(), weight),
        ..run
    }
}

/// The pages that link to the best direct hits follow.
pub open spec fn after_seeding(run: SearchRunView, scores: Seq<u32>) -> (
    SearchRunView,
    SearchActionView,
) {
    let hits = ordered(rescored(run.groups, scores));
    let next = SearchRunView { groups: Seq::empty(), ..run };
    let paths = seeds(hits, run.tuning.neighbor_seeds as int);
    if paths.len() > 0 {
        to_stage(next, SearchStage::Linking, SearchActionView::FindLinks(paths))
    } else {
        to_vectors(next)
    }
}

/// How a search goes on.
pub open spec fn search_on(run: SearchRunView, event: SearchEventView) -> (
    SearchRunView,
    SearchActionView,
) {
    match (run.stage, event) {
        (SearchStage::Loading, SearchEventView::Catalog(Ok(splits))) => {
            let next = SearchRunView { splits, ..run };
            if splits.len() == 0 {
                search_over(next, Seq::empty())
            } else {
                to_stage(next, SearchStage::Fetching, SearchActionView::Fetch)
            }
        },
        (SearchStage::Loading, SearchEventView::Catalog(Err(why))) => search_failed(run, why),
        (SearchStage::Fetching, SearchEventView::Fetched(Ok(_))) => to_stage(
            run,
            SearchStage::Searching,
            SearchActionView::Search(run.query),
        ),
        (SearchStage::Fetching, SearchEventView::Fetched(Err(why))) => search_failed(run, why),
        (SearchStage::Searching, SearchEventView::Found(Ok(lists))) => {
            let next = with_found(run, lists);
            if run.tuning.neighbor_expansion {
                to_score(next, SearchStage::Seeding)
            } else {
                to_vectors(next)
            }
        },
        (SearchStage::Searching, SearchEventView::Found(Err(why))) => search_failed(run, why),
        (SearchStage::Seeding, SearchEventView::Scored(scores)) => after_seeding(run, scores),
        (SearchStage::Linking, SearchEventView::Linked(Ok(lists))) => to_vectors(
            SearchRunView {
                counts: StreamCounts { neighbors: total(lists) as usize, ..run.counts },
                ..with_more(run, lists, run.tuning.neighbor_weight)
            },
        ),
        (SearchStage::Linking, SearchEventView::Linked(Err(why))) => search_failed(run, why),
        (SearchStage::Identifying, SearchEventView::Identified(list)) => match refused_split(
            list,
            run.splits,
            run.embedder->0,
            0,
        ) {
            Some(why) => search_failed(run, why),
            None => to_stage(
                run,
                SearchStage::Comparing,
                SearchActionView::Compare(run.query),
            ),
        },
        (SearchStage::Comparing, SearchEventView::Compared(Ok(lists))) => to_score(
            SearchRunView {
                counts: StreamCounts { vector: total(lists) as usize, ..run.counts },
                ..with_more(run, lists, run.tuning.vector_weight)
            },
            SearchStage::Fusing,
        ),
        (SearchStage::Comparing, SearchEventView::Compared(Err(why))) => search_failed(run, why),
        (SearchStage::Fusing, SearchEventView::Scored(scores)) => {
            let hits = ordered(rescored(run.groups, scores));
            to_stage(
                SearchRunView { groups: Seq::empty(), hits, ..run },
                SearchStage::Confirming,
                SearchActionView::LoadHeads(paths_of(hits)),
            )
        },
        (SearchStage::Confirming, SearchEventView::Heads(Ok(heads))) => {
            let hits = confirmed(run.hits, heads);
            let next = SearchRunView {
                hits,
                filtered_out: (run.hits.len() - hits.len()) as nat,
                ..run
            };
            if run.tuning.disabled() {
                search_over(next, hits)
            } else {
                to_stage(
                    next,
                    SearchStage::Boosting,
                    SearchActionView::Boost(ages_of(run.tuning, hits)),
                )
            }
        },
        (SearchStage::Confirming, SearchEventView::Heads(Err(why))) => search_failed(run, why),
        (SearchStage::Boosting, SearchEventView::Boosted(boosts)) => search_over(
            run,
            ordered(boosted(run.hits, boosts)),
        ),
        _ => (run, SearchActionView::LoadCatalog),
    }
}

// ---- The steps -----------------------------------------------------------------------------------

proof fn lemma_total_prefix(lists: Seq<Seq<HitView>>, n: int, stream: int)
    requires
        0 <= n <= lists.len(),
    ensures
        total(lists.take(n)) <= total(lists),
        stream_total(lists.take(n), stream) <= total(lists.take(n)),
    decreases lists.len(),
{
    if n < lists.len() {
        lemma_total_prefix(lists.drop_last(), n, stream);
        assert(lists.drop_last().take(n) =~= lists.take(n));
    } else {
        assert(lists.take(n) =~= lists);
        lemma_stream_total(lists, stream);
    }
}

proof fn lemma_stream_total(lists: Seq<Seq<HitView>>, stream: int)
    ensures
        stream_total(lists, stream) <= total(lists),
    decreases lists.len(),
{
    if lists.len() > 0 {
        lemma_stream_total(lists.drop_last(), stream);
    }
}

/// How many hits lists have together.
fn total_of(lists: &Vec<Vec<Hit>>) -> (n: usize)
    requires
        total(lists_view(lists@)) <= usize::MAX,
    ensures
        n == total(lists_view(lists@)),
{
    let ghost all = lists_view(lists@);
    let mut n: usize = 0;
    let mut i: usize = 0;
    assert(all.take(0) =~= Seq::empty());
    while i < lists.len()
        invariant
            all == lists_view(lists@),
            total(all) <= usize::MAX,
            i <= lists@.len(),
            n == total(all.take(i as int)),
        decreases lists@.len() - i,
    {
        proof {
            assert(all.take(i + 1).drop_last() =~= all.take(i as int));
            lemma_total_prefix(all, i + 1, 0);
        }
        n += lists[i].len();
        i += 1;
    }
    assert(all.take(i as int) =~= all);
    n
}

/// How many hits the lists of one of the three direct streams have.
fn stream_total_of(lists: &Vec<Vec<Hit>>, stream: usize) -> (n: usize)
    requires
        total(lists_view(lists@)) <= usize::MAX,
    ensures
        n == stream_total(lists_view(lists@), stream as int),
{
    let ghost all = lists_view(lists@);
    let mut n: usize = 0;
    let mut i: usize = 0;
    assert(all.take(0) =~= Seq::empty());
    while i < lists.len()
        invariant
            all == lists_view(lists@),
            total(all) <= usize::MAX,
            i <= lists@.len(),
            n == stream_total(all.take(i as int), stream as int),
        decreases lists@.len() - i,
    {
        proof {
            assert(all.take(i + 1).drop_last() =~= all.take(i as int));
            lemma_total_prefix(all, i + 1, stream as int);
        }
        if i % 3 == stream {
            n += lists[i].len();
        }
        i += 1;
    }
    assert(all.take(i as int) =~= all);
    n
}

/// Adds those lists that are not empty, each at the same weight.
fn add_filled(
    into: &mut Vec<Vec<Hit>>,
    weights: &mut Vec<u32>,
    more: Vec<Vec<Hit>>,
    weight: u32,
)
    ensures
        lists_view(final(into)@) == lists_view(old(into)@) + filled(lists_view(more@)),
        final(weights)@ == old(weights)@ + same_weight(
            filled(lists_view(more@)).len(),
            weight,
        ),
{
    let ghost start = lists_view(into@);
    let ghost start_weights = weights@;
    let ghost given = more@;
    let ghost all = lists_view(more@);
    let ghost mut i: int = 0;
    let mut left: Vec<Vec<Hit>> = more;
    assert(all.take(0) =~= Seq::empty());
    assert(start + filled(all.take(0)) =~= start);
    assert(start_weights + same_weight(0, weight) =~= start_weights);
    assert(left@ =~= given.skip(0));
    while left.len() > 0
        invariant
            all == lists_view(given),
            0 <= i <= given.len(),
            left@ == given.skip(i),
            lists_view(into@) == start + filled(all.take(i)),
            weights@ == start_weights + same_weight(filled(all.take(i)).len(), weight),
        decreases left@.len(),
    {
        let list: Vec<Hit> = left.remove(0);
        proof {
            assert(list == given[i]);
            assert(left@ =~= given.skip(i + 1));
            assert(all.take(i + 1).drop_last() =~= all.take(i));
            assert(all.take(i + 1).last() == hits_view(list@));
        }
        if list.len() > 0 {
            let ghost before = into@;
            let ghost had = filled(all.take(i));
            into.push(list);
            weights.push(weight);
            proof {
                let now = had.push(hits_view(list@));
                assert(filled(all.take(i + 1)) == now);
                assert(lists_view(into@) =~= lists_view(before).push(hits_view(list@)));
                assert(start + now =~= (start + had).push(hits_view(list@)));
                assert(start_weights + same_weight(now.len(), weight) =~= (start_weights
                    + same_weight(had.len(), weight)).push(weight));
            }
        }
        proof {
            i = i + 1;
        }
    }
    assert(all.take(i) =~= all);
}

/// The places of groups.
fn copy_places_of(groups: &Vec<Group>) -> (places: Vec<Vec<(usize, usize)>>)
    ensures
        places_view(places@) == places_of(groups_view(groups@)),
{
    let ghost owed = places_of(groups_view(groups@));
    let mut places: Vec<Vec<(usize, usize)>> = Vec::new();
    let mut i: usize = 0;
    while i < groups.len()
        invariant
            owed == places_of(groups_view(groups@)),
            i <= groups@.len(),
            places@.len() == i,
            forall|j: int| 0 <= j < i ==> (#[trigger] places@[j])@ == owed[j],
        decreases groups@.len() - i,
    {
        places.push(copy_places(&groups[i].places));
        i += 1;
    }
    assert(places_view(places@) =~= owed);
    places
}

/// Copies weights.
fn copy_weights(list: &Vec<u32>) -> (copy: Vec<u32>)
    ensures
        copy@ == list@,
{
    let mut copy: Vec<u32> = Vec::new();
    let mut i: usize = 0;
    while i < list.len()
        invariant
            i <= list@.len(),
            copy@ == list@.take(i as int),
        decreases list@.len() - i,
    {
        copy.push(list[i]);
        assert(list@.take(i + 1) =~= list@.take(i as int).push(list@[i as int]));
        i += 1;
    }
    assert(list@.take(i as int) =~= list@);
    copy
}

/// The paths of the first `n` hits that have one.
fn seed_paths(hits: &Vec<Hit>, n: usize) -> (paths: Vec<String>)
    ensures
        texts(paths@) == seeds(hits_view(hits@), n as int),
{
    let ghost all = hits_view(hits@);
    let end: usize = if n < hits.len() {
        n
    } else {
        hits.len()
    };
    let mut paths: Vec<String> = Vec::new();
    let mut i: usize = 0;
    assert(texts(paths@) =~= Seq::empty());
    while i < end
        invariant
            all == hits_view(hits@),
            i <= end <= hits@.len(),
            texts(paths@) == seeds(all, i as int),
        decreases end - i,
    {
        if !hits[i].path.as_str().is_empty() {
            let ghost before = paths@;
            let path: String = hits[i].path.clone();
            paths.push(path);
            proof {
                lemma_texts_push(before, path);
            }
        }
        i += 1;
    }
    proof {
        lemma_seeds_end(all, n as int);
    }
    paths
}

proof fn lemma_seeds_end(hits: Seq<HitView>, n: int)
    ensures
        n > hits.len() ==> seeds(hits, n) == seeds(hits, hits.len() as int),
    decreases n,
{
    if n > hits.len() {
        lemma_seeds_end(hits, n - 1);
    }
}

/// The paths of hits.
fn hit_paths(hits: &Vec<Hit>) -> (paths: Vec<String>)
    ensures
        texts(paths@) == paths_of(hits_view(hits@)),
{
    let ghost all = paths_of(hits_view(hits@));
    let mut paths: Vec<String> = Vec::new();
    let mut i: usize = 0;
    assert(texts(paths@) =~= all.take(0));
    while i < hits.len()
        invariant
            all == paths_of(hits_view(hits@)),
            i <= hits@.len(),
            texts(paths@) == all.take(i as int),
        decreases hits@.len() - i,
    {
        let ghost before = paths@;
        let path: String = hits[i].path.clone();
        paths.push(path);
        proof {
            lemma_texts_push(before, path);
            assert(all.take(i + 1) =~= all.take(i as int).push(path@));
        }
        i += 1;
    }
    assert(all.take(i as int) =~= all);
    paths
}

/// Those hits whose version is the one that their path has now.
fn confirm(hits: Vec<Hit>, heads: &Vec<Option<String>>) -> (kept: Vec<Hit>)
    requires
        hits@.len() == heads@.len(),
    ensures
        hits_view(kept@) == confirmed(hits_view(hits@), heads_view(heads@)),
        kept@.len() <= hits@.len(),
{
    let ghost all = hits_view(hits@);
    let ghost now = heads_view(heads@);
    let mut kept: Vec<Hit> = Vec::new();
    let mut i: usize = 0;
    assert(all.take(0) =~= Seq::empty());
    assert(hits_view(kept@) =~= Seq::empty());
    while i < hits.len()
        invariant
            all == hits_view(hits@),
            now == heads_view(heads@),
            hits@.len() == heads@.len(),
            i <= hits@.len(),
            kept@.len() <= i,
            hits_view(kept@) == confirmed(all.take(i as int), now),
        decreases hits@.len() - i,
    {
        proof {
            assert(all.take(i + 1).drop_last() =~= all.take(i as int));
            assert(all.take(i + 1).last() == all[i as int]);
        }
        let current: bool = match &heads[i] {
            Some(id) => same_text(id.as_str(), hits[i].page_id.as_str()),
            None => false,
        };
        if current {
            let ghost before = kept@;
            let hit: Hit = copy_hit(&hits[i]);
            kept.push(hit);
            assert(hits_view(kept@) =~= hits_view(before).push(hit@));
        }
        i += 1;
    }
    assert(all.take(i as int) =~= all);
    kept
}

/// The ages of hits, where they count.
fn hit_ages(tuning: &SearchTuning, hits: &Vec<Hit>) -> (ages: Vec<Option<i64>>)
    ensures
        ages@ == ages_of(*tuning, hits_view(hits@)),
{
    let ghost owed = ages_of(*tuning, hits_view(hits@));
    let mut ages: Vec<Option<i64>> = Vec::new();
    let mut i: usize = 0;
    while i < hits.len()
        invariant
            owed == ages_of(*tuning, hits_view(hits@)),
            i <= hits@.len(),
            ages@ == owed.take(i as int),
        decreases hits@.len() - i,
    {
        ages.push(tuning.age(hits[i].updated_at_ms));
        assert(owed.take(i + 1) =~= owed.take(i as int).push(owed[i as int]));
        i += 1;
    }
    assert(owed.take(i as int) =~= owed);
    ages
}

/// Hits with recency counted in.
fn boost(hits: &Vec<Hit>, boosts: &Vec<(u32, u32)>) -> (list: Vec<Hit>)
    requires
        hits@.len() == boosts@.len(),
    ensures
        hits_view(list@) == boosted(hits_view(hits@), boosts@),
{
    let ghost owed = boosted(hits_view(hits@), boosts@);
    let mut list: Vec<Hit> = Vec::new();
    let mut i: usize = 0;
    while i < hits.len()
        invariant
            hits@.len() == boosts@.len(),
            owed == boosted(hits_view(hits@), boosts@),
            i <= hits@.len(),
            list@.len() == i,
            forall|j: int| 0 <= j < i ==> (#[trigger] list@[j])@ == owed[j],
        decreases hits@.len() - i,
    {
        let mut hit: Hit = copy_hit(&hits[i]);
        hit.recency_multiplier = boosts[i].0;
        hit.fused_score = hit.score;
        hit.score = boosts[i].1;
        list.push(hit);
        assert(list@[i as int]@ == owed[i as int]);
        i += 1;
    }
    assert(hits_view(list@) =~= owed);
    list
}

/// Whether no split is refused, or why the first one is.
fn check_splits(
    identities: &Vec<Result<Option<EmbeddingIdentity>, String>>,
    splits: &Vec<(String, String)>,
    current: &EmbeddingIdentity,
) -> (refused: Option<String>)
    requires
        identities@.len() == splits@.len(),
    ensures
        opt_text(refused) == refused_split(
            identities_view(identities@),
            splits_view(splits@),
            current@,
            0,
        ),
{
    let ghost list = identities_view(identities@);
    let ghost names = splits_view(splits@);
    let mut i: usize = 0;
    while i < identities.len()
        invariant
            list == identities_view(identities@),
            names == splits_view(splits@),
            identities@.len() == splits@.len(),
            i <= identities@.len(),
            refused_split(list, names, current@, 0) == refused_split(
                list,
                names,
                current@,
                i as int,
            ),
        decreases identities@.len() - i,
    {
        match &identities[i] {
            Ok(recorded) => {
                match ensure_split_model_matches(recorded, splits[i].0.as_str(), current) {
                    Ok(_) => {},
                    Err(why) => {
                        return Some(why);
                    },
                }
            },
            Err(why) => {
                return Some(why.clone());
            },
        }
        i += 1;
    }
    None
}

impl SearchRun {
    /// The embedder is there while its splits are checked, and the pages are there while
    /// they are scored.
    pub open spec fn wf(&self) -> bool {
        self.stage == SearchStage::Identifying ==> self.embedder is Some
    }

    /// Whether the event is one that the stage waits for, with as many parts as were asked
    /// for, and no more hits than memory holds.
    pub open spec fn awaits(&self, event: SearchEvent) -> bool {
        match self.stage {
            SearchStage::Loading => event is Catalog,
            SearchStage::Fetching => event is Fetched,
            SearchStage::Searching => event matches SearchEvent::Found(reply) && (reply matches Ok(
                lists,
            ) ==> total(lists_view(lists@)) <= usize::MAX),
            SearchStage::Seeding => event matches SearchEvent::Scored(scores) && scores@.len()
                == self.groups@.len(),
            SearchStage::Linking => event matches SearchEvent::Linked(reply) && (reply matches Ok(
                lists,
            ) ==> total(lists_view(lists@)) <= usize::MAX),
            SearchStage::Identifying => event matches SearchEvent::Identified(list) && list@.len()
                == self.splits@.len(),
            SearchStage::Comparing => event matches SearchEvent::Compared(reply) && (
            reply matches Ok(lists) ==> total(lists_view(lists@)) <= usize::MAX),
            SearchStage::Fusing => event matches SearchEvent::Scored(scores) && scores@.len()
                == self.groups@.len(),
            SearchStage::Confirming => event matches SearchEvent::Heads(reply) && (
            reply matches Ok(heads) ==> heads@.len() == self.hits@.len()),
            SearchStage::Boosting => event matches SearchEvent::Boosted(boosts) && boosts@.len()
                == self.hits@.len(),
            SearchStage::Finished => false,
        }
    }

    /// The start of a search: the first thing to do is to read the catalog.
    pub fn start(
        query: String,
        tuning: SearchTuning,
        limit: usize,
        embedder: Option<EmbeddingIdentity>,
    ) -> (next: (SearchRun, SearchAction))
        ensures
            next.0.wf(),
            next.0@ == (SearchRunView {
                query: query@,
                tuning,
                limit: limit as nat,
                embedder: opt_identity(embedder),
                splits: Seq::empty(),
                lists: Seq::empty(),
                weights: Seq::empty(),
                candidates: 0,
                counts: no_counts(),
                groups: Seq::empty(),
                hits: Seq::empty(),
                filtered_out: 0,
                stage: SearchStage::Loading,
            }),
            next.1@ == SearchActionView::LoadCatalog,
    {
        let run = SearchRun {
            query,
            tuning,
            limit,
            embedder,
            splits: Vec::new(),
            lists: Vec::new(),
            weights: Vec::new(),
            candidates: 0,
            counts: StreamCounts {
                searched: false,
                body: 0,
                entities: 0,
                links: 0,
                neighbors: 0,
                vector: 0,
            },
            groups: Vec::new(),
            hits: Vec::new(),
            filtered_out: 0,
            stage: SearchStage::Loading,
        };
        assert(run@.splits =~= Seq::empty());
        assert(run@.lists =~= Seq::empty());
        assert(run@.weights =~= Seq::empty());
        assert(run@.groups =~= Seq::empty());
        assert(run@.hits =~= Seq::empty());
        (run, SearchAction::LoadCatalog)
    }

    /// Ends with a failure.
    fn fail(self, why: String) -> (next: (SearchRun, SearchAction))
        ensures
            next.0.wf(),
            (next.0@, next.1@) == search_failed(self@, why@),
    {
        let mut run: SearchRun = self;
        run.stage = SearchStage::Finished;
        (run, SearchAction::Finish(Err(why)))
    }

    /// Ends with these hits.
    fn finish(self, hits: Vec<Hit>) -> (next: (SearchRun, SearchAction))
        ensures
            next.0.wf(),
            (next.0@, next.1@) == search_over(self@, hits_view(hits@)),
    {
        let mut run: SearchRun = self;
        let mut kept: Vec<Hit> = hits;
        if kept.len() > run.limit {
            kept.truncate(run.limit);
            assert(hits_view(kept@) =~= hits_view(hits@).take(run.limit as int));
        }
        let outcome = SearchOutcome {
            hits: kept,
            splits_searched: run.splits.len(),
            candidates: run.candidates,
            filtered_out: run.filtered_out,
            streams_active: run.counts.streams(),
            stream_candidates: run.counts,
        };
        run.hits = Vec::new();
        run.stage = SearchStage::Finished;
        assert(run@.hits =~= Seq::empty());
        (run, SearchAction::Finish(Ok(outcome)))
    }

    /// Has the pages of the lists scored.
    fn score(self, stage: SearchStage) -> (next: (SearchRun, SearchAction))
        requires
            stage != SearchStage::Identifying,
        ensures
            next.0.wf(),
            (next.0@, next.1@) == to_score(self@, stage),
    {
        let mut run: SearchRun = self;
        let groups: Vec<Group> = group_hits(&run.lists);
        let places: Vec<Vec<(usize, usize)>> = copy_places_of(&groups);
        let weights: Vec<u32> = copy_weights(&run.weights);
        run.groups = groups;
        run.stage = stage;
        (run, SearchAction::Score(places, weights))
    }

    /// Goes on to the vector stream where it runs, else to the fusion.
    fn vectors(self) -> (next: (SearchRun, SearchAction))
        ensures
            next.0.wf(),
            (next.0@, next.1@) == to_vectors(self@),
    {
        if self.embedder.is_some() && self.tuning.wants_vectors() {
            let mut run: SearchRun = self;
            run.stage = SearchStage::Identifying;
            (run, SearchAction::ReadIdentities)
        } else {
            self.score(SearchStage::Fusing)
        }
    }

    /// Takes in the catalog.
    fn take_splits(self, splits: Vec<(String, String)>) -> (next: (SearchRun, SearchAction))
        requires
            self.stage == SearchStage::Loading,
        ensures
            next.0.wf(),
            (next.0@, next.1@) == search_on(
                self@,
                SearchEventView::Catalog(Ok(splits_view(splits@))),
            ),
    {
        let mut run: SearchRun = self;
        let none: bool = splits.len() == 0;
        run.splits = splits;
        if none {
            let hits: Vec<Hit> = Vec::new();
            assert(hits_view(hits@) =~= Seq::empty());
            run.finish(hits)
        } else {
            run.stage = SearchStage::Fetching;
            (run, SearchAction::Fetch)
        }
    }

    /// Takes in the lists of the direct streams.
    fn take_found(self, lists: Vec<Vec<Hit>>) -> (next: (SearchRun, SearchAction))
        requires
            self.stage == SearchStage::Searching,
            total(lists_view(lists@)) <= usize::MAX,
        ensures
            next.0.wf(),
            (next.0@, next.1@) == search_on(
                self@,
                SearchEventView::Found(Ok(lists_view(lists@))),
            ),
    {
        let mut run: SearchRun = self;
        let ghost all = lists_view(lists@);
        run.candidates = total_of(&lists);
        run.counts = StreamCounts {
            searched: true,
            body: stream_total_of(&lists, 0),
            entities: stream_total_of(&lists, 1),
            links: stream_total_of(&lists, 2),
            neighbors: 0,
            vector: 0,
        };
        let mut kept: Vec<Vec<Hit>> = Vec::new();
        let mut weights: Vec<u32> = Vec::new();
        assert(lists_view(kept@) =~= Seq::empty());
        add_filled(&mut kept, &mut weights, lists, ONE);
        assert(lists_view(kept@) =~= filled(all));
        assert(weights@ =~= same_weight(filled(all).len(), ONE));
        run.lists = kept;
        run.weights = weights;
        assert(run@ == with_found(self@, all));
        if run.tuning.neighbor_expansion {
            run.score(SearchStage::Seeding)
        } else {
            run.vectors()
        }
    }

    /// Takes in the scores of the direct hits.
    fn take_seeds(self, scores: Vec<u32>) -> (next: (SearchRun, SearchAction))
        requires
            self.stage == SearchStage::Seeding,
            scores@.len() == self.groups@.len(),
        ensures
            next.0.wf(),
            (next.0@, next.1@) == after_seeding(self@, scores@),
    {
        let SearchRun {
            query,
            tuning,
            limit,
            embedder,
            splits,
            lists,
            weights,
            candidates,
            counts,
            groups,
            hits,
            filtered_out,
            stage,
        } = self;
        let found: Vec<Hit> = fuse(groups, &scores);
        let paths: Vec<String> = seed_paths(&found, tuning.neighbor_seeds);
        let mut run = SearchRun {
            query,
            tuning,
            limit,
            embedder,
            splits,
            lists,
            weights,
            candidates,
            counts,
            groups: Vec::new(),
            hits,
            filtered_out,
            stage,
        };
        assert(run@.groups =~= Seq::empty());
        assert(run@ == (SearchRunView { groups: Seq::empty(), ..self@ }));
        if paths.len() > 0 {
            run.stage = SearchStage::Linking;
            (run, SearchAction::FindLinks(paths))
        } else {
            run.vectors()
        }
    }

    /// Takes in the pages that link.
    fn take_linked(self, lists: Vec<Vec<Hit>>) -> (next: (SearchRun, SearchAction))
        requires
            self.stage == SearchStage::Linking,
            total(lists_view(lists@)) <= usize::MAX,
        ensures
            next.0.wf(),
            (next.0@, next.1@) == search_on(
                self@,
                SearchEventView::Linked(Ok(lists_view(lists@))),
            ),
    {
        let mut run: SearchRun = self;
        let n: usize = total_of(&lists);
        let weight: u32 = run.tuning.neighbor_weight;
        add_filled(&mut run.lists, &mut run.weights, lists, weight);
        run.counts = StreamCounts {
            searched: run.counts.searched,
            body: run.counts.body,
            entities: run.counts.entities,
            links: run.counts.links,
            neighbors: n,
            vector: run.counts.vector,
        };
        run.vectors()
    }

    /// Takes in what the vector stream found.
    fn take_compared(self, lists: Vec<Vec<Hit>>) -> (next: (SearchRun, SearchAction))
        requires
            self.stage == SearchStage::Comparing,
            total(lists_view(lists@)) <= usize::MAX,
        ensures
            next.0.wf(),
            (next.0@, next.1@) == search_on(
                self@,
                SearchEventView::Compared(Ok(lists_view(lists@))),
            ),
    {
        let mut run: SearchRun = self;
        let n: usize = total_of(&lists);
        let weight: u32 = run.tuning.vector_weight;
        add_filled(&mut run.lists, &mut run.weights, lists, weight);
        run.counts = StreamCounts {
            searched: run.counts.searched,
            body: run.counts.body,
            entities: run.counts.entities,
            links: run.counts.links,
            neighbors: run.counts.neighbors,
            vector: n,
        };
        run.score(SearchStage::Fusing)
    }

    /// Takes in the scores of all hits.
    fn take_fused(self, scores: Vec<u32>) -> (next: (SearchRun, SearchAction))
        requires
            self.stage == SearchStage::Fusing,
            scores@.len() == self.groups@.len(),
        ensures
            next.0.wf(),
            (next.0@, next.1@) == search_on(self@, SearchEventView::Scored(scores@)),
    {
        let SearchRun {
            query,
            tuning,
            limit,
            embedder,
            splits,
            lists,
            weights,
            candidates,
            counts,
            groups,
            hits,
            filtered_out,
            stage,
        } = self;
        let fused: Vec<Hit> = fuse(groups, &scores);
        let paths: Vec<String> = hit_paths(&fused);
        let run = SearchRun {
            query,
            tuning,
            limit,
            embedder,
            splits,
            lists,
            weights,
            candidates,
            counts,
            groups: Vec::new(),
            hits: fused,
            filtered_out,
            stage: SearchStage::Confirming,
        };
        assert(run@.groups =~= Seq::empty());
        (run, SearchAction::LoadHeads(paths))
    }

    /// Takes in what the manifest says.
    fn take_heads(self, heads: Vec<Option<String>>) -> (next: (SearchRun, SearchAction))
        requires
            self.stage == SearchStage::Confirming,
            heads@.len() == self.hits@.len(),
        ensures
            next.0.wf(),
            (next.0@, next.1@) == search_on(
                self@,
                SearchEventView::Heads(Ok(heads_view(heads@))),
            ),
    {
        let SearchRun {
            query,
            tuning,
            limit,
            embedder,
            splits,
            lists,
            weights,
            candidates,
            counts,
            groups,
            hits,
            filtered_out,
            stage,
        } = self;
        let before: usize = hits.len();
        let kept: Vec<Hit> = confirm(hits, &heads);
        let mut run = SearchRun {
            query,
            tuning,
            limit,
            embedder,
            splits,
            lists,
            weights,
            candidates,
            counts,
            groups,
            hits: Vec::new(),
            filtered_out: before - kept.len(),
            stage,
        };
        if run.tuning.is_disabled() {
            run.finish(kept)
        } else {
            let ages: Vec<Option<i64>> = hit_ages(&run.tuning, &kept);
            run.hits = kept;
            run.stage = SearchStage::Boosting;
            (run, SearchAction::Boost(ages))
        }
    }

    /// Takes in what happened and says what to do next.
    pub fn next(self, event: SearchEvent) -> (next: (SearchRun, SearchAction))
        requires
            self.wf(),
            self.awaits(event),
        ensures
            next.0.wf(),
            (next.0@, next.1@) == search_on(self@, event@),
    {
        match event {
            SearchEvent::Catalog(Ok(splits)) => self.take_splits(splits),
            SearchEvent::Catalog(Err(why)) => self.fail(why),
            SearchEvent::Fetched(Ok(_)) => {
                let mut run: SearchRun = self;
                let query: String = run.query.clone();
                run.stage = SearchStage::Searching;
                (run, SearchAction::Search(query))
            },
            SearchEvent::Fetched(Err(why)) => self.fail(why),
            SearchEvent::Found(Ok(lists)) => self.take_found(lists),
            SearchEvent::Found(Err(why)) => self.fail(why),
            SearchEvent::Scored(scores) => {
                if self.stage == SearchStage::Seeding {
                    self.take_seeds(scores)
                } else {
                    self.take_fused(scores)
                }
            },
            SearchEvent::Linked(Ok(lists)) => self.take_linked(lists),
            SearchEvent::Linked(Err(why)) => self.fail(why),
            SearchEvent::Identified(list) => {
                let mut run: SearchRun = self;
                let refused: Option<String> = match &run.embedder {
                    Some(current) => check_splits(&list, &run.splits, current),
                    None => None,
                };
                match refused {
                    Some(why) => run.fail(why),
                    None => {
                        let query: String = run.query.clone();
                        run.stage = SearchStage::Comparing;
                        (run, SearchAction::Compare(query))
                    },
                }
            },
            SearchEvent::Compared(Ok(lists)) => self.take_compared(lists),
            SearchEvent::Compared(Err(why)) => self.fail(why),
            SearchEvent::Heads(Ok(heads)) => self.take_heads(heads),
            SearchEvent::Heads(Err(why)) => self.fail(why),
            SearchEvent::Boosted(boosts) => {
                let list: Vec<Hit> = boost(&self.hits, &boosts);
                let hits: Vec<Hit> = order_hits(list);
                self.finish(hits)
            },
        }
    }
}

// ---- Laws ----------------------------------------------------------------------------------------

/// A hit is confirmed only where the manifest names exactly its version for its path.
pub proof fn law_only_current_versions_are_confirmed(
    hits: Seq<HitView>,
    heads: Seq<Option<Seq<char>>>,
    i: int,
)
    requires
        0 <= i < confirmed(hits, heads).len(),
    ensures
        exists|j: int|
            0 <= j < hits.len() && #[trigger] hits[j] == confirmed(hits, heads)[i] && heads[j]
                == Some(hits[j].page_id),
    decreases hits.len(),
{
    if hits.len() > 0 {
        let front = hits.drop_last();
        let before = confirmed(front, heads);
        if i < before.len() {
            law_only_current_versions_are_confirmed(front, heads, i);
            let j = choose|j: int|
                0 <= j < front.len() && #[trigger] front[j] == before[i] && heads[j] == Some(
                    front[j].page_id,
                );
            assert(hits[j] == front[j]);
        } else {
            assert(hits[hits.len() - 1] == confirmed(hits, heads)[i]);
        }
    }
}

/// What the manifest says of the paths of hits.
pub open spec fn heads_in(manifest: ManifestView, hits: Seq<HitView>) -> Seq<Option<Seq<char>>> {
    Seq::new(hits.len(), |i: int| manifest.head_page_id(hits[i].path))
}

/// What a search ends with, from the fusion on: the pages get these scores, the manifest is
/// asked, and recency gives these factors and scores where it counts.
pub open spec fn search_end(
    run: SearchRunView,
    scores: Seq<u32>,
    manifest: ManifestView,
    boosts: Seq<(u32, u32)>,
) -> SearchActionView {
    let fusing = to_score(run, SearchStage::Fusing).0;
    let fused = search_on(fusing, SearchEventView::Scored(scores)).0;
    let asked = search_on(fused, SearchEventView::Heads(Ok(heads_in(manifest, fused.hits))));
    if run.tuning.disabled() {
        asked.1
    } else {
        search_on(asked.0, SearchEventView::Boosted(boosts)).1
    }
}

proof fn lemma_confirmed_keeps(hits: Seq<HitView>, heads: Seq<Option<Seq<char>>>)
    requires
        listed(hits),
        named_once(hits),
    ensures
        listed(confirmed(hits, heads)),
        named_once(confirmed(hits, heads)),
    decreases hits.len(),
{
    if hits.len() > 0 {
        let front = hits.drop_last();
        let before = confirmed(front, heads);
        let kept = confirmed(hits, heads);
        assert(listed(front)) by {
            assert forall|i: int, j: int| 0 <= i < j < front.len() implies !listed_before(
                #[trigger] front[j],
                #[trigger] front[i],
            ) by {
                assert(!listed_before(hits[j], hits[i]));
            }
        }
        assert(named_once(front)) by {
            assert forall|i: int, j: int| 0 <= i < j < front.len() implies fuse_key(
                #[trigger] front[i],
            ) != fuse_key(#[trigger] front[j]) by {
                assert(fuse_key(hits[i]) != fuse_key(hits[j]));
            }
        }
        lemma_confirmed_keeps(front, heads);
        assert forall|i: int, j: int| 0 <= i < j < kept.len() implies !listed_before(
            #[trigger] kept[j],
            #[trigger] kept[i],
        ) && fuse_key(kept[i]) != fuse_key(kept[j]) by {
            law_only_current_versions_are_confirmed(front, heads, i);
            let k = choose|k: int| 0 <= k < front.len() && #[trigger] front[k] == before[i];
            assert(hits[k] == kept[i]);
            if j < before.len() {
                assert(!listed_before(before[j], before[i]));
                assert(fuse_key(before[i]) != fuse_key(before[j]));
            } else {
                assert(kept[j] == hits[hits.len() - 1]);
                assert(!listed_before(hits[hits.len() - 1], hits[k]));
                assert(fuse_key(hits[k]) != fuse_key(hits[hits.len() - 1]));
            }
        }
    }
}

proof fn lemma_boosted_keeps(hits: Seq<HitView>, boosts: Seq<(u32, u32)>)
    requires
        named_once(hits),
    ensures
        named_once(boosted(hits, boosts)),
{
    let list = boosted(hits, boosts);
    assert forall|i: int, j: int| 0 <= i < j < list.len() implies fuse_key(#[trigger] list[i])
        != fuse_key(#[trigger] list[j]) by {
        assert(fuse_key(hits[i]) != fuse_key(hits[j]));
    }
}

/// A search answers with no more hits than were asked for, the best first; every hit is the
/// version that the manifest names for its path; no page is named twice, neither by its
/// version nor by its path.
pub proof fn law_a_search_answers_with_current_pages_in_order(
    run: SearchRunView,
    scores: Seq<u32>,
    manifest: ManifestView,
    boosts: Seq<(u32, u32)>,
)
    ensures
        search_end(run, scores, manifest, boosts) matches SearchActionView::Finish(Ok(outcome))
            && {
            &&& outcome.hits.len() <= run.limit
            &&& listed(outcome.hits)
            &&& forall|i: int|
                0 <= i < outcome.hits.len() ==> manifest.head_page_id(
                    (#[trigger] outcome.hits[i]).path,
                ) == Some(outcome.hits[i].page_id)
            &&& named_once(outcome.hits)
            &&& forall|i: int, j: int|
                0 <= i < j < outcome.hits.len() && outcome.hits[i].path.len() > 0 ==> (
                #[trigger] outcome.hits[i]).path != (#[trigger] outcome.hits[j]).path
        },
{
    let groups = grouped(run.lists);
    let hits = ordered(rescored(groups, scores));
    let heads = heads_in(manifest, hits);
    let kept = confirmed(hits, heads);
    lemma_grouped_apart(run.lists);
    lemma_rescored_once(groups, scores);
    lemma_ordered_is_listed(rescored(groups, scores));
    lemma_ordered_once(rescored(groups, scores));
    lemma_confirmed_keeps(hits, heads);
    assert forall|i: int| 0 <= i < kept.len() implies manifest.head_page_id(
        (#[trigger] kept[i]).path,
    ) == Some(kept[i].page_id) by {
        law_only_current_versions_are_confirmed(hits, heads, i);
    }
    let list = boosted(kept, boosts);
    lemma_boosted_keeps(kept, boosts);
    lemma_ordered_is_listed(list);
    lemma_ordered_once(list);
    assert forall|i: int| 0 <= i < ordered(list).len() implies manifest.head_page_id(
        (#[trigger] ordered(list)[i]).path,
    ) == Some(ordered(list)[i].page_id) by {
        lemma_ordered_holds(list, i);
        let j = choose|j: int| 0 <= j < list.len() && list[j] == ordered(list)[i];
        assert(kept[j].path == list[j].path && kept[j].page_id == list[j].page_id);
    }
    let outcome = search_end(run, scores, manifest, boosts)->Finish_0->Ok_0;
    let all = if run.tuning.disabled() {
        kept
    } else {
        ordered(list)
    };
    lemma_first_keeps(all, run.limit);
    assert(outcome.hits == first_hits(all, run.limit));
    assert forall|i: int| 0 <= i < outcome.hits.len() implies manifest.head_page_id(
        (#[trigger] outcome.hits[i]).path,
    ) == Some(outcome.hits[i].page_id) by {
        assert(outcome.hits[i] == all[i]);
    }
    assert forall|i: int, j: int|
        0 <= i < j < outcome.hits.len() && outcome.hits[i].path.len() > 0 implies (
    #[trigger] outcome.hits[i]).path != (#[trigger] outcome.hits[j]).path by {
        assert(fuse_key(outcome.hits[i]) != fuse_key(outcome.hits[j]));
    }
}

proof fn lemma_first_keeps(hits: Seq<HitView>, limit: nat)
    requires
        listed(hits),
        named_once(hits),
    ensures
        listed(first_hits(hits, limit)),
        named_once(first_hits(hits, limit)),
        first_hits(hits, limit).len() <= limit,
{
    let kept = first_hits(hits, limit);
    assert forall|i: int, j: int| 0 <= i < j < kept.len() implies !listed_before(
        #[trigger] kept[j],
        #[trigger] kept[i],
    ) && fuse_key(kept[i]) != fuse_key(kept[j]) by {
        assert(!listed_before(hits[j], hits[i]));
        assert(fuse_key(hits[i]) != fuse_key(hits[j]));
    }
}

/// Where recency does not count, a search answers with the fused scores as they are: the
/// score before the adjustment is the final one, and the factor is one.
pub proof fn law_without_recency_nothing_is_adjusted(
    run: SearchRunView,
    scores: Seq<u32>,
    heads: Seq<Option<Seq<char>>>,
)
    requires
        run.stage is Fusing,
        run.tuning.disabled(),
        forall|g: int|
            0 <= g < run.groups.len() ==> (#[trigger] run.groups[g]).hit.recency_multiplier == ONE,
    ensures
        ({
            let fused = search_on(run, SearchEventView::Scored(scores)).0;
            search_on(fused, SearchEventView::Heads(Ok(heads))).1 matches SearchActionView::Finish(
                Ok(outcome),
            ) && forall|i: int|
                0 <= i < outcome.hits.len() ==> (#[trigger] outcome.hits[i]).fused_score
                    == outcome.hits[i].score && outcome.hits[i].recency_multiplier == ONE
        }),
{
    let list = rescored(run.groups, scores);
    let fused = search_on(run, SearchEventView::Scored(scores)).0;
    let kept = confirmed(fused.hits, heads);
    let outcome = search_on(fused, SearchEventView::Heads(Ok(heads))).1->Finish_0->Ok_0;
    assert forall|i: int| 0 <= i < outcome.hits.len() implies (
    #[trigger] outcome.hits[i]).fused_score == outcome.hits[i].score
        && outcome.hits[i].recency_multiplier == ONE by {
        assert(outcome.hits[i] == kept[i]);
        law_only_current_versions_are_confirmed(fused.hits, heads, i);
        let j = choose|j: int| 0 <= j < fused.hits.len() && fused.hits[j] == kept[i];
        lemma_ordered_holds(list, j);
        let k = choose|k: int| 0 <= k < list.len() && list[k] == ordered(list)[j];
        assert(run.groups[k].hit.recency_multiplier == ONE);
    }
}

/// The embedders of splits are looked at only where the vector stream runs: with no
/// embedder, with the stream switched off or without weight, the fusion follows at once.
pub proof fn law_splits_are_judged_only_for_vectors(run: SearchRunView)
    requires
        run.embedder is None || !run.tuning.runs_vectors(),
    ensures
        to_vectors(run) == to_score(run, SearchStage::Fusing),
{
}

// ---- Several projects ----------------------------------------------------------------------------

/// The search of several projects: what was found so far.
#[derive(Debug)]
pub struct WorkspaceSearch {
    /// Hits of each project that had any.
    pub lists: Vec<Vec<Hit>>,
    /// Splits that were searched.
    pub splits_searched: usize,
    /// Candidates of the direct streams.
    pub candidates: usize,
    /// Fused hits that the manifests did not confirm.
    pub filtered_out: usize,
    /// Candidates by stream.
    pub counts: StreamCounts,
}

/// Counts of two searches together.
pub open spec fn added(a: StreamCounts, b: StreamCounts) -> StreamCounts {
    StreamCounts {
        searched: a.searched || b.searched,
        body: (a.body + b.body) as usize,
        entities: (a.entities + b.entities) as usize,
        links: (a.links + b.links) as usize,
        neighbors: (a.neighbors + b.neighbors) as usize,
        vector: (a.vector + b.vector) as usize,
    }
}

impl WorkspaceSearch {
    /// No project yet.
    pub fn new() -> (search: Self)
        ensures
            search.lists@.len() == 0,
            search.splits_searched == 0,
            search.candidates == 0,
            search.filtered_out == 0,
            search.counts == no_counts(),
    {
        WorkspaceSearch {
            lists: Vec::new(),
            splits_searched: 0,
            candidates: 0,
            filtered_out: 0,
            counts: StreamCounts {
                searched: false,
                body: 0,
                entities: 0,
                links: 0,
                neighbors: 0,
                vector: 0,
            },
        }
    }

    /// Whether the counts of one more search fit.
    pub open spec fn has_room(&self, outcome: SearchOutcome) -> bool {
        let more = outcome.stream_candidates;
        &&& self.splits_searched + outcome.splits_searched <= usize::MAX
        &&& self.candidates + outcome.candidates <= usize::MAX
        &&& self.filtered_out + outcome.filtered_out <= usize::MAX
        &&& self.counts.body + more.body <= usize::MAX
        &&& self.counts.entities + more.entities <= usize::MAX
        &&& self.counts.links + more.links <= usize::MAX
        &&& self.counts.neighbors + more.neighbors <= usize::MAX
        &&& self.counts.vector + more.vector <= usize::MAX
    }

    /// Adds what the search of a project found.
    pub fn push(&mut self, outcome: SearchOutcome)
        requires
            old(self).has_room(outcome),
        ensures
            final(self).splits_searched == old(self).splits_searched + outcome.splits_searched,
            final(self).candidates == old(self).candidates + outcome.candidates,
            final(self).filtered_out == old(self).filtered_out + outcome.filtered_out,
            final(self).counts == added(old(self).counts, outcome.stream_candidates),
            final(self).lists@ == (if outcome.hits@.len() > 0 {
                old(self).lists@.push(outcome.hits)
            } else {
                old(self).lists@
            }),
    {
        let more: StreamCounts = outcome.stream_candidates;
        self.splits_searched = self.splits_searched + outcome.splits_searched;
        self.candidates = self.candidates + outcome.candidates;
        self.filtered_out = self.filtered_out + outcome.filtered_out;
        self.counts = StreamCounts {
            searched: self.counts.searched || more.searched,
            body: self.counts.body + more.body,
            entities: self.counts.entities + more.entities,
            links: self.counts.links + more.links,
            neighbors: self.counts.neighbors + more.neighbors,
            vector: self.counts.vector + more.vector,
        };
        if outcome.hits.len() > 0 {
            self.lists.push(outcome.hits);
        }
    }

    /// Whether the counts of one more search fit.
    pub fn fits(&self, outcome: &SearchOutcome) -> (room: bool)
        ensures
            room == self.has_room(*outcome),
    {
        let more: &StreamCounts = &outcome.stream_candidates;
        self.splits_searched <= usize::MAX - outcome.splits_searched
            && self.candidates <= usize::MAX - outcome.candidates
            && self.filtered_out <= usize::MAX - outcome.filtered_out
            && self.counts.body <= usize::MAX - more.body
            && self.counts.entities <= usize::MAX - more.entities
            && self.counts.links <= usize::MAX - more.links
            && self.counts.neighbors <= usize::MAX - more.neighbors
            && self.counts.vector <= usize::MAX - more.vector
    }

    /// What is to be scored: the places of each page that the projects found, and the weights
    /// of their lists, which all count the same.
    pub fn to_score(&self) -> (asked: (Vec<Vec<(usize, usize)>>, Vec<u32>))
        ensures
            places_view(asked.0@) == places_of(grouped(lists_view(self.lists@))),
            asked.1@ == same_weight(self.lists@.len(), ONE),
    {
        let places: Vec<Vec<(usize, usize)>> = copy_places_of(&group_hits(&self.lists));
        let mut weights: Vec<u32> = Vec::new();
        while weights.len() < self.lists.len()
            invariant
                weights@.len() <= self.lists@.len(),
                weights@ == same_weight(weights@.len(), ONE),
            decreases self.lists@.len() - weights@.len(),
        {
            let ghost before = weights@;
            weights.push(ONE);
            assert(weights@ =~= same_weight(before.len() + 1, ONE));
        }
        (places, weights)
    }

    /// The pages that the projects found, with these scores.
    pub fn fused(&self, scores: &Vec<u32>) -> (hits: Vec<Hit>)
        requires
            scores@.len() == grouped(lists_view(self.lists@)).len(),
        ensures
            hits_view(hits@) == across_projects(lists_view(self.lists@), scores@),
    {
        let groups: Vec<Group> = group_hits(&self.lists);
        assert(groups@.len() == groups_view(groups@).len());
        fuse(groups, scores)
    }

    /// The ages of hits, where recency counts.
    pub fn ages(hits: &Vec<Hit>, tuning: &SearchTuning) -> (ages: Option<Vec<Option<i64>>>)
        ensures
            match ages {
                Some(list) => !tuning.disabled() && list@ == ages_of(*tuning, hits_view(hits@)),
                None => tuning.disabled(),
            },
    {
        if tuning.is_disabled() {
            None
        } else {
            Some(hit_ages(tuning, hits))
        }
    }

    /// The outcome, given the fused hits and, where recency counts, the factor and the new
    /// score of each.
    pub fn finish(
        self,
        hits: Vec<Hit>,
        tuning: &SearchTuning,
        boosts: &Vec<(u32, u32)>,
        limit: usize,
    ) -> (outcome: SearchOutcome)
        requires
            !tuning.disabled() ==> boosts@.len() == hits@.len(),
        ensures
            outcome@ == (OutcomeView {
                hits: workspace_hits(hits_view(hits@), *tuning, boosts@, limit as nat),
                splits_searched: self.splits_searched as nat,
                candidates: self.candidates as nat,
                filtered_out: self.filtered_out as nat,
                streams_active: active(counted(self.counts)),
                stream_candidates: self.counts,
            }),
    {
        let mut kept: Vec<Hit> = if tuning.is_disabled() {
            hits
        } else {
            order_hits(boost(&hits, boosts))
        };
        let ghost all = hits_view(kept@);
        if kept.len() > limit {
            kept.truncate(limit);
            assert(hits_view(kept@) =~= all.take(limit as int));
        }
        SearchOutcome {
            hits: kept,
            splits_searched: self.splits_searched,
            candidates: self.candidates,
            filtered_out: self.filtered_out,
            streams_active: self.counts.streams(),
            stream_candidates: self.counts,
        }
    }
}

/// What several projects found, fused: the best first.
pub open spec fn across_projects(lists: Seq<Seq<HitView>>, scores: Seq<u32>) -> Seq<HitView> {
    ordered(rescored(grouped(lists), scores))
}

/// The answer of a workspace out of the fused hits: recency is counted in once, where it
/// counts.
pub open spec fn workspace_hits(
    hits: Seq<HitView>,
    tuning: SearchTuning,
    boosts: Seq<(u32, u32)>,
    limit: nat,
) -> Seq<HitView> {
    first_hits(
        if tuning.disabled() {
            hits
        } else {
            ordered(boosted(hits, boosts))
        },
        limit,
    )
}

/// The search of several projects answers with no more hits than were asked for, the best
/// first, and names no page twice.
pub proof fn law_a_workspace_answers_in_order(
    lists: Seq<Seq<HitView>>,
    scores: Seq<u32>,
    tuning: SearchTuning,
    boosts: Seq<(u32, u32)>,
    limit: nat,
)
    ensures
        ({
            let answer = workspace_hits(across_projects(lists, scores), tuning, boosts, limit);
            answer.len() <= limit && listed(answer) && named_once(answer)
        }),
{
    let groups = grouped(lists);
    let hits = across_projects(lists, scores);
    lemma_grouped_apart(lists);
    lemma_rescored_once(groups, scores);
    lemma_ordered_is_listed(rescored(groups, scores));
    lemma_ordered_once(rescored(groups, scores));
    if tuning.disabled() {
        lemma_first_keeps(hits, limit);
    } else {
        let list = boosted(hits, boosts);
        lemma_boosted_keeps(hits, boosts);
        lemma_ordered_is_listed(list);
        lemma_ordered_once(list);
        lemma_first_keeps(ordered(list), limit);
    }
}

} // verus!
