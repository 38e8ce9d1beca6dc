//! Search hits, and the fusion of several lists of them.
//!
//! Lists are fused by rank: a page that several lists agree on comes before one that a
//! single list happens to score highly. Scores are IEEE 754 single precision; here they
//! are kept as their bits.

use vstd::prelude::*;

use crate::search::tuning::ONE;
use crate::search::vector::SIGN_BIT;
use crate::sort::{sort, stable_sorted, Ranked};
use crate::text::{
    comes_before, lemma_lex_asymmetric, lemma_texts_push, lex_less, same_text, texts,
};

verus! {

/// One hit.
#[derive(Debug)]
pub struct Hit {
    /// Workspace.
    pub workspace_id: String,
    /// Project.
    pub project_id: String,
    /// Path of the page.
    pub path: String,
    /// Version of the page.
    pub page_id: String,
    /// Title.
    pub title: String,
    /// Bits of the final score.
    pub score: u32,
    /// Bits of the fused score, before recency was counted in; of a hit that was not fused
    /// yet, its only score.
    pub fused_score: u32,
    /// Bits of the factor that recency gave.
    pub recency_multiplier: u32,
    /// When the version was committed.
    pub updated_at_ms: i64,
    /// Streams that found it.
    pub streams: Vec<String>,
}

/// What a `Hit` says.
#[verifier::ext_equal]
pub struct HitView {
    pub workspace_id: Seq<char>,
    pub project_id: Seq<char>,
    pub path: Seq<char>,
    pub page_id: Seq<char>,
    pub title: Seq<char>,
    pub score: u32,
    pub fused_score: u32,
    pub recency_multiplier: u32,
    pub updated_at_ms: i64,
    pub streams: Seq<Seq<char>>,
}

impl View for Hit {
    type V = HitView;

    open spec fn view(&self) -> HitView {
        HitView {
            workspace_id: self.workspace_id@,
            project_id: self.project_id@,
            path: self.path@,
            page_id: self.page_id@,
            title: self.title@,
            score: self.score,
            fused_score: self.fused_score,
            recency_multiplier: self.recency_multiplier,
            updated_at_ms: self.updated_at_ms,
            streams: texts(self.streams@),
        }
    }
}

/// What a list of hits says.
pub open spec fn hits_view(hits: Seq<Hit>) -> Seq<HitView> {
    Seq::new(hits.len(), |i: int| hits[i]@)
}

/// A hit as one stream found it. A split of another indexer may have no title: the text
/// that stands in for it then tells the hit.
pub fn found_hit(
    place: (&str, &str, &str, &str),
    title: &str,
    fallback: &str,
    score: u32,
    updated_at_ms: i64,
    stream: &str,
) -> (hit: Hit)
    ensures
        hit@ == (HitView {
            workspace_id: place.0@,
            project_id: place.1@,
            path: place.2@,
            page_id: place.3@,
            title: if title@.len() == 0 {
                fallback@
            } else {
                title@
            },
            score,
            fused_score: score,
            recency_multiplier: ONE,
            updated_at_ms,
            streams: seq![stream@],
        }),
{
    let mut streams: Vec<String> = Vec::new();
    let named: String = stream.to_owned();
    streams.push(named);
    assert(texts(streams@) =~= seq![stream@]);
    let shown: &str = if title.is_empty() {
        fallback
    } else {
        title
    };
    Hit {
        workspace_id: place.0.to_owned(),
        project_id: place.1.to_owned(),
        path: place.2.to_owned(),
        page_id: place.3.to_owned(),
        title: shown.to_owned(),
        score,
        fused_score: score,
        recency_multiplier: ONE,
        updated_at_ms,
        streams,
    }
}

// ---- Order -------------------------------------------------------------------------------------

/// A number that orders as the score does whose bits these are. The two zeros are equal.
pub open spec fn order_key(bits: u32) -> u32 {
    if bits > SIGN_BIT {
        (u32::MAX - bits) as u32
    } else if bits == SIGN_BIT {
        SIGN_BIT
    } else {
        (bits + SIGN_BIT) as u32
    }
}

/// A number that orders as the score does whose bits these are.
pub fn key_of(bits: u32) -> (key: u32)
    ensures
        key == order_key(bits),
{
    if bits > SIGN_BIT {
        u32::MAX - bits
    } else if bits == SIGN_BIT {
        SIGN_BIT
    } else {
        bits + SIGN_BIT
    }
}

/// Whether a hit is listed before another: by score, the highest first, then by page
/// version.
pub open spec fn listed_before(a: HitView, b: HitView) -> bool {
    ||| order_key(a.score) > order_key(b.score)
    ||| order_key(a.score) == order_key(b.score) && lex_less(a.page_id, b.page_id)
}

impl Ranked for Hit {
    open spec fn precedes(self, other: Self) -> bool {
        listed_before(self@, other@)
    }

    fn ranks_before(&self, other: &Self) -> (before: bool) {
        let a: u32 = key_of(self.score);
        let b: u32 = key_of(other.score);
        a > b || (a == b && comes_before(self.page_id.as_str(), other.page_id.as_str()))
    }

    proof fn precedes_is_asymmetric(a: Self, b: Self) {
        if lex_less(a.page_id@, b.page_id@) {
            lemma_lex_asymmetric(a.page_id@, b.page_id@);
        }
    }

    proof fn precedes_has_no_gaps(a: Self, b: Self, c: Self) {
        if lex_less(a.page_id@, c.page_id@) {
            crate::sort::lemma_lex_no_gaps(a.page_id@, b.page_id@, c.page_id@);
        }
    }
}

/// A hit put into an ordered list.
pub open spec fn put(hit: HitView, list: Seq<HitView>) -> Seq<HitView>
    decreases list.len(),
{
    if list.len() > 0 && listed_before(list[0], hit) {
        seq![list[0]] + put(hit, list.skip(1))
    } else {
        seq![hit] + list
    }
}

/// Hits in their order, those of one rank as they came.
pub open spec fn ordered(list: Seq<HitView>) -> Seq<HitView>
    decreases list.len(),
{
    if list.len() == 0 {
        Seq::empty()
    } else {
        put(list[0], ordered(list.skip(1)))
    }
}

proof fn lemma_put(hit: Hit, list: Seq<Hit>)
    ensures
        hits_view(crate::sort::placed(hit, list)) == put(hit@, hits_view(list)),
    decreases list.len(),
{
    if list.len() > 0 && list[0].precedes(hit) {
        lemma_put(hit, list.skip(1));
        assert(hits_view(list).skip(1) =~= hits_view(list.skip(1)));
        assert(hits_view(seq![list[0]] + crate::sort::placed(hit, list.skip(1))) =~= seq![list[0]@]
            + hits_view(crate::sort::placed(hit, list.skip(1))));
    } else {
        assert(hits_view(seq![hit] + list) =~= seq![hit@] + hits_view(list));
    }
}

proof fn lemma_ordered(list: Seq<Hit>)
    ensures
        hits_view(stable_sorted(list)) == ordered(hits_view(list)),
    decreases list.len(),
{
    if list.len() > 0 {
        lemma_ordered(list.skip(1));
        lemma_put(list[0], stable_sorted(list.skip(1)));
        assert(hits_view(list).skip(1) =~= hits_view(list.skip(1)));
    } else {
        assert(hits_view(stable_sorted(list)) =~= ordered(hits_view(list)));
    }
}

/// Puts hits in their order.
pub fn order_hits(hits: Vec<Hit>) -> (list: Vec<Hit>)
    ensures
        hits_view(list@) == ordered(hits_view(hits@)),
{
    proof {
        lemma_ordered(hits@);
    }
    sort(hits)
}

// ---- Fusion ------------------------------------------------------------------------------------

/// What is added to a rank, counted from one, before a weight is divided by it: the larger it
/// is, the less the first ranks stand out.
pub const FUSION_OFFSET: u16 = 60;

/// What a page is known by across lists: its version; where a split gives none, its path,
/// and where it has none either, its title.
pub open spec fn fuse_key(hit: HitView) -> Seq<char> {
    if hit.page_id.len() > 0 {
        hit.page_id
    } else if hit.path.len() > 0 {
        hit.path
    } else {
        hit.title
    }
}

/// What a page is known by across lists.
pub fn key_of_hit(hit: &Hit) -> (key: &str)
    ensures
        key@ == fuse_key(hit@),
{
    if !hit.page_id.as_str().is_empty() {
        hit.page_id.as_str()
    } else if !hit.path.as_str().is_empty() {
        hit.path.as_str()
    } else {
        hit.title.as_str()
    }
}

/// A page that some lists found.
#[derive(Debug)]
pub struct Group {
    /// The hit that was seen first, with the streams of all of them.
    pub hit: Hit,
    /// The lists that found it, and its rank in each, in the order they were seen.
    pub places: Vec<(usize, usize)>,
}

/// What a `Group` says.
#[verifier::ext_equal]
pub struct GroupView {
    pub hit: HitView,
    pub places: Seq<(usize, usize)>,
}

impl View for Group {
    type V = GroupView;

    open spec fn view(&self) -> GroupView {
        GroupView { hit: self.hit@, places: self.places@ }
    }
}

/// What a list of groups says.
pub open spec fn groups_view(groups: Seq<Group>) -> Seq<GroupView> {
    Seq::new(groups.len(), |i: int| groups[i]@)
}

/// What lists of hits say.
pub open spec fn lists_view(lists: Seq<Vec<Hit>>) -> Seq<Seq<HitView>> {
    Seq::new(lists.len(), |i: int| hits_view(lists[i]@))
}

/// A list of streams with those of another that it does not hold.
pub open spec fn with_streams(streams: Seq<Seq<char>>, more: Seq<Seq<char>>) -> Seq<Seq<char>>
    decreases more.len(),
{
    if more.len() == 0 {
        streams
    } else {
        let before = with_streams(streams, more.drop_last());
        if before.contains(more.last()) {
            before
        } else {
            before.push(more.last())
        }
    }
}

/// The place of the group with this key, or the number of groups.
pub open spec fn group_at(groups: Seq<GroupView>, key: Seq<char>, from: int) -> int
    decreases groups.len() - from,
{
    if 0 <= from < groups.len() && fuse_key(groups[from].hit) != key {
        group_at(groups, key, from + 1)
    } else {
        from
    }
}

/// Groups with one more hit, which a list has at a rank.
pub open spec fn with_hit(groups: Seq<GroupView>, hit: HitView, place: (usize, usize)) -> Seq<
    GroupView,
> {
    let at = group_at(groups, fuse_key(hit), 0);
    if at < groups.len() {
        groups.update(
            at,
            GroupView {
                hit: HitView {
                    streams: with_streams(groups[at].hit.streams, hit.streams),
                    ..groups[at].hit
                },
                places: groups[at].places.push(place),
            },
        )
    } else {
        groups.push(GroupView { hit, places: seq![place] })
    }
}

/// Groups with the hits of one list.
pub open spec fn with_list(groups: Seq<GroupView>, list: Seq<HitView>, index: usize) -> Seq<
    GroupView,
>
    decreases list.len(),
{
    if list.len() == 0 {
        groups
    } else {
        with_hit(
            with_list(groups, list.drop_last(), index),
            list.last(),
            (index, (list.len() - 1) as usize),
        )
    }
}

/// The pages that lists found, each once, in the order they were first seen.
pub open spec fn grouped(lists: Seq<Seq<HitView>>) -> Seq<GroupView>
    decreases lists.len(),
{
    if lists.len() == 0 {
        Seq::empty()
    } else {
        with_list(grouped(lists.drop_last()), lists.last(), (lists.len() - 1) as usize)
    }
}

/// Whether a list of texts holds one.
fn holds_text(list: &Vec<String>, text: &str) -> (found: bool)
    ensures
        found == texts(list@).contains(text@),
{
    let mut i: usize = 0;
    while i < list.len()
        invariant
            i <= list@.len(),
            forall|j: int| 0 <= j < i ==> (#[trigger] texts(list@)[j]) != text@,
        decreases list@.len() - i,
    {
        if same_text(list[i].as_str(), text) {
            assert(texts(list@)[i as int] == text@);
            return true;
        }
        i += 1;
    }
    false
}

/// Adds the streams that a list does not hold.
fn add_streams(streams: &mut Vec<String>, more: &Vec<String>)
    ensures
        texts(final(streams)@) == with_streams(texts(old(streams)@), texts(more@)),
{
    let ghost start = texts(streams@);
    let ghost all = texts(more@);
    let mut i: usize = 0;
    assert(all.take(0) =~= Seq::empty());
    while i < more.len()
        invariant
            all == texts(more@),
            i <= more@.len(),
            texts(streams@) == with_streams(start, all.take(i as int)),
        decreases more@.len() - i,
    {
        assert(all.take(i + 1).drop_last() =~= all.take(i as int));
        if !holds_text(streams, more[i].as_str()) {
            let ghost before = streams@;
            let stream: String = more[i].clone();
            streams.push(stream);
            proof {
                lemma_texts_push(before, stream);
            }
        }
        i += 1;
    }
    assert(all.take(i as int) =~= all);
}

/// Copies a text list.
fn copy_texts(list: &Vec<String>) -> (copy: Vec<String>)
    ensures
        texts(copy@) == texts(list@),
{
    let mut copy: Vec<String> = Vec::new();
    let mut i: usize = 0;
    assert(texts(copy@) =~= texts(list@).take(0));
    while i < list.len()
        invariant
            i <= list@.len(),
            texts(copy@) == texts(list@).take(i as int),
        decreases list@.len() - i,
    {
        let ghost before = copy@;
        let text: String = list[i].clone();
        copy.push(text);
        proof {
            lemma_texts_push(before, text);
            assert(texts(list@).take(i + 1) =~= texts(list@).take(i as int).push(text@));
        }
        i += 1;
    }
    assert(texts(list@).take(i as int) =~= texts(list@));
    copy
}

/// Copies a hit.
pub fn copy_hit(hit: &Hit) -> (copy: Hit)
    ensures
        copy@ == hit@,
{
    Hit {
        workspace_id: hit.workspace_id.clone(),
        project_id: hit.project_id.clone(),
        path: hit.path.clone(),
        page_id: hit.page_id.clone(),
        title: hit.title.clone(),
        score: hit.score,
        fused_score: hit.fused_score,
        recency_multiplier: hit.recency_multiplier,
        updated_at_ms: hit.updated_at_ms,
        streams: copy_texts(&hit.streams),
    }
}

/// Copies a list of places.
pub fn copy_places(list: &Vec<(usize, usize)>) -> (copy: Vec<(usize, usize)>)
    ensures
        copy@ == list@,
{
    let mut copy: Vec<(usize, usize)> = Vec::new();
    let mut i: usize = 0;
    while i < list.len()
        invariant
            i <= list@.len(),
            copy@ == list@.take(i as int),
        decreases list@.len() - i,
    {
        copy.push(list[i]);
        assert(list@.take(i + 1) =~= list@.take(i as int).push(list@[i as int]));
        i += 1;
    }
    assert(list@.take(i as int) =~= list@);
    copy
}

/// The place of the group with this key, or the number of groups.
fn find_group(groups: &Vec<Group>, key: &str) -> (at: usize)
    ensures
        at == group_at(groups_view(groups@), key@, 0),
        at <= groups@.len(),
{
    let ghost all = groups_view(groups@);
    let mut i: usize = 0;
    while i < groups.len()
        invariant
            all == groups_view(groups@),
            i <= groups@.len(),
            group_at(all, key@, 0) == group_at(all, key@, i as int),
        decreases groups@.len() - i,
    {
        if same_text(key_of_hit(&groups[i].hit), key) {
            return i;
        }
        i += 1;
    }
    i
}

/// Adds one hit, which a list has at a rank.
fn add_hit(groups: &mut Vec<Group>, hit: &Hit, place: (usize, usize))
    ensures
        groups_view(final(groups)@) == with_hit(groups_view(old(groups)@), hit@, place),
{
    let ghost before = groups@;
    let at: usize = find_group(groups, key_of_hit(hit));
    if at < groups.len() {
        let mut group: Group = Group {
            hit: copy_hit(&groups[at].hit),
            places: copy_places(&groups[at].places),
        };
        add_streams(&mut group.hit.streams, &hit.streams);
        group.places.push(place);
        groups.set(at, group);
        assert(groups_view(groups@) =~= with_hit(groups_view(before), hit@, place));
    } else {
        let mut places: Vec<(usize, usize)> = Vec::new();
        places.push(place);
        groups.push(Group { hit: copy_hit(hit), places });
        assert(groups@.last().places@ =~= seq![place]);
        assert(groups_view(groups@) =~= with_hit(groups_view(before), hit@, place));
    }
}

/// The pages that lists found, each once.
pub fn group_hits(lists: &Vec<Vec<Hit>>) -> (groups: Vec<Group>)
    ensures
        groups_view(groups@) == grouped(lists_view(lists@)),
{
    let ghost all = lists_view(lists@);
    let mut groups: Vec<Group> = Vec::new();
    let mut i: usize = 0;
    assert(all.take(0) =~= Seq::empty());
    assert(groups_view(groups@) =~= Seq::empty());
    while i < lists.len()
        invariant
            all == lists_view(lists@),
            i <= lists@.len(),
            groups_view(groups@) == grouped(all.take(i as int)),
        decreases lists@.len() - i,
    {
        assert(all.take(i + 1).drop_last() =~= all.take(i as int));
        let list: &Vec<Hit> = &lists[i];
        let ghost start = groups_view(groups@);
        let ghost hits = hits_view(list@);
        let mut j: usize = 0;
        assert(hits.take(0) =~= Seq::empty());
        while j < list.len()
            invariant
                hits == hits_view(list@),
                j <= list@.len(),
                groups_view(groups@) == with_list(start, hits.take(j as int), i),
            decreases list@.len() - j,
        {
            assert(hits.take(j + 1).drop_last() =~= hits.take(j as int));
            add_hit(&mut groups, &list[j], (i, j));
            j += 1;
        }
        assert(hits.take(j as int) =~= hits);
        assert(all.take(i + 1).last() == hits);
        i += 1;
    }
    assert(all.take(i as int) =~= all);
    groups
}

/// Groups as hits with their fused scores, which no recency has changed yet.
pub open spec fn rescored(groups: Seq<GroupView>, scores: Seq<u32>) -> Seq<HitView> {
    Seq::new(
        groups.len(),
        |i: int| HitView { score: scores[i], fused_score: scores[i], ..groups[i].hit },
    )
}

/// The fused list: the pages that lists found, in the order of the scores that their
/// places gave them.
pub fn fuse(groups: Vec<Group>, scores: &Vec<u32>) -> (hits: Vec<Hit>)
    requires
        scores@.len() == groups@.len(),
    ensures
        hits_view(hits@) == ordered(rescored(groups_view(groups@), scores@)),
{
    let ghost all = groups_view(groups@);
    let count: usize = groups.len();
    let mut left: Vec<Group> = groups;
    let mut back: Vec<Hit> = Vec::new();
    let mut i: usize = count;
    assert(left@ =~= groups@.take(count as int));
    while i > 0
        invariant
            count == groups@.len(),
            all == groups_view(groups@),
            scores@.len() == count,
            i <= count,
            left@ == groups@.take(i as int),
            back@.len() == count - i,
            forall|j: int|
                0 <= j < count - i ==> (#[trigger] back@[j])@ == rescored(all, scores@)[count - 1
                    - j],
        decreases i,
    {
        i -= 1;
        match left.pop() {
            Some(group) => {
                assert(group == groups@[i as int]);
                let mut hit: Hit = group.hit;
                hit.score = scores[i];
                hit.fused_score = scores[i];
                assert(all[i as int] == group@);
                back.push(hit);
                assert(back@[count - 1 - i]@ == rescored(all, scores@)[i as int]);
                assert(left@ =~= groups@.take(i as int));
            },
            None => {},
        }
    }
    let mut list: Vec<Hit> = Vec::new();
    let mut k: usize = 0;
    let ghost reversed = back@;
    while k < count
        invariant
            k <= count,
            count == reversed.len(),
            count == all.len(),
            back@ == reversed.take(count - k),
            list@.len() == k,
            forall|j: int|
                0 <= j < count ==> (#[trigger] reversed[j])@ == rescored(all, scores@)[count - 1
                    - j],
            forall|j: int| 0 <= j < k ==> (#[trigger] list@[j])@ == rescored(all, scores@)[j],
        decreases count - k,
    {
        match back.pop() {
            Some(hit) => {
                assert(hit == reversed[count - 1 - k]);
                list.push(hit);
                assert(back@ =~= reversed.take(count - (k + 1)));
            },
            None => {},
        }
        k += 1;
    }
    assert(hits_view(list@) =~= rescored(all, scores@));
    order_hits(list)
}

// ---- Laws --------------------------------------------------------------------------------------

proof fn lemma_group_at(groups: Seq<GroupView>, key: Seq<char>, from: int)
    requires
        0 <= from <= groups.len(),
    ensures
        from <= group_at(groups, key, from) <= groups.len(),
        group_at(groups, key, from) < groups.len() ==> fuse_key(
            groups[group_at(groups, key, from)].hit,
        ) == key,
        forall|j: int|
            from <= j < group_at(groups, key, from) ==> fuse_key((#[trigger] groups[j]).hit) != key,
    decreases groups.len() - from,
{
    if from < groups.len() && fuse_key(groups[from].hit) != key {
        lemma_group_at(groups, key, from + 1);
    }
}

/// Whether no two groups are known by the same key.
pub open spec fn apart(groups: Seq<GroupView>) -> bool {
    forall|i: int, j: int|
        0 <= i < j < groups.len() ==> fuse_key((#[trigger] groups[i]).hit) != fuse_key(
            (#[trigger] groups[j]).hit,
        )
}

/// Whether some group is known by this key and has this place.
pub open spec fn has_place(groups: Seq<GroupView>, key: Seq<char>, place: (usize, usize)) -> bool {
    exists|i: int|
        0 <= i < groups.len() && fuse_key((#[trigger] groups[i]).hit) == key
            && groups[i].places.contains(place)
}

proof fn lemma_with_hit(groups: Seq<GroupView>, hit: HitView, place: (usize, usize))
    requires
        apart(groups),
    ensures
        apart(with_hit(groups, hit, place)),
        has_place(with_hit(groups, hit, place), fuse_key(hit), place),
        forall|key: Seq<char>, p: (usize, usize)|
            has_place(groups, key, p) ==> #[trigger] has_place(
                with_hit(groups, hit, place),
                key,
                p,
            ),
{
    let key = fuse_key(hit);
    let at = group_at(groups, key, 0);
    let after = with_hit(groups, hit, place);
    lemma_group_at(groups, key, 0);
    assert forall|i: int| 0 <= i < groups.len() implies fuse_key((#[trigger] after[i]).hit)
        == fuse_key(groups[i].hit) by {}
    assert(fuse_key(after[at].hit) == key);
    let last: int = after[at].places.len() - 1;
    assert(after[at].places[last] == place);
    assert forall|k: Seq<char>, p: (usize, usize)|
        has_place(groups, k, p) implies #[trigger] has_place(after, k, p) by {
        let i = choose|i: int|
            0 <= i < groups.len() && fuse_key((#[trigger] groups[i]).hit) == k
                && groups[i].places.contains(p);
        let n = choose|n: int| 0 <= n < groups[i].places.len() && groups[i].places[n] == p;
        assert(after[i].places[n] == p);
        assert(fuse_key(after[i].hit) == k);
    }
}

proof fn lemma_with_list(groups: Seq<GroupView>, list: Seq<HitView>, index: usize)
    requires
        apart(groups),
    ensures
        apart(with_list(groups, list, index)),
        forall|key: Seq<char>, p: (usize, usize)|
            has_place(groups, key, p) ==> #[trigger] has_place(
                with_list(groups, list, index),
                key,
                p,
            ),
        forall|r: int|
            0 <= r < list.len() ==> has_place(
                with_list(groups, list, index),
                fuse_key(#[trigger] list[r]),
                (index, r as usize),
            ),
    decreases list.len(),
{
    if list.len() > 0 {
        let front = list.drop_last();
        let before = with_list(groups, front, index);
        lemma_with_list(groups, front, index);
        lemma_with_hit(before, list.last(), (index, (list.len() - 1) as usize));
        assert forall|r: int| 0 <= r < list.len() implies has_place(
            with_list(groups, list, index),
            fuse_key(#[trigger] list[r]),
            (index, r as usize),
        ) by {
            if r < front.len() {
                assert(front[r] == list[r]);
                assert(has_place(before, fuse_key(front[r]), (index, r as usize)));
            }
        }
    }
}

/// Fusing lists keeps each page once, and every hit of every list counts for its page, at
/// the rank it has there.
pub proof fn law_fusion_counts_every_hit_once(lists: Seq<Seq<HitView>>, i: int, r: int)
    requires
        0 <= i < lists.len(),
        0 <= r < lists[i].len(),
    ensures
        apart(grouped(lists)),
        has_place(grouped(lists), fuse_key(lists[i][r]), (i as usize, r as usize)),
    decreases lists.len(),
{
    let front = lists.drop_last();
    lemma_grouped_apart(front);
    lemma_with_list(grouped(front), lists.last(), (lists.len() - 1) as usize);
    if i < front.len() {
        law_fusion_counts_every_hit_once(front, i, r);
        assert(has_place(grouped(front), fuse_key(lists[i][r]), (i as usize, r as usize)));
    } else {
        assert(lists.last()[r] == lists[i][r]);
    }
}

/// Fusing lists keeps each page once.
pub proof fn lemma_grouped_apart(lists: Seq<Seq<HitView>>)
    ensures
        apart(grouped(lists)),
    decreases lists.len(),
{
    if lists.len() > 0 {
        lemma_grouped_apart(lists.drop_last());
        lemma_with_list(
            grouped(lists.drop_last()),
            lists.last(),
            (lists.len() - 1) as usize,
        );
    }
}

// ---- What order and fusion keep ----------------------------------------------------------------

/// Whether hits stand in their order: none is listed before one that it follows.
pub open spec fn listed(hits: Seq<HitView>) -> bool {
    forall|i: int, j: int|
        0 <= i < j < hits.len() ==> !listed_before(#[trigger] hits[j], #[trigger] hits[i])
}

/// Whether no two hits are known by the same key.
pub open spec fn named_once(hits: Seq<HitView>) -> bool {
    forall|i: int, j: int|
        0 <= i < j < hits.len() ==> fuse_key(#[trigger] hits[i]) != fuse_key(#[trigger] hits[j])
}

proof fn lemma_put_holds(hit: HitView, list: Seq<HitView>, i: int)
    requires
        0 <= i < put(hit, list).len(),
    ensures
        put(hit, list)[i] == hit || list.contains(put(hit, list)[i]),
        put(hit, list).len() == list.len() + 1,
    decreases list.len(),
{
    if list.len() > 0 && listed_before(list[0], hit) {
        let rest = list.skip(1);
        if i == 0 {
            assert(list[0] == put(hit, list)[0]);
            lemma_put_len(hit, rest);
        } else {
            lemma_put_holds(hit, rest, i - 1);
            let found = put(hit, rest)[i - 1];
            assert(put(hit, list)[i] == found);
            if rest.contains(found) {
                let j = choose|j: int| 0 <= j < rest.len() && rest[j] == found;
                assert(list[j + 1] == found);
            }
        }
    } else if i > 0 {
        assert(put(hit, list)[i] == list[i - 1]);
    }
}

proof fn lemma_put_len(hit: HitView, list: Seq<HitView>)
    ensures
        put(hit, list).len() == list.len() + 1,
    decreases list.len(),
{
    if list.len() > 0 && listed_before(list[0], hit) {
        lemma_put_len(hit, list.skip(1));
    }
}

pub proof fn lemma_ordered_holds(list: Seq<HitView>, i: int)
    requires
        0 <= i < ordered(list).len(),
    ensures
        list.contains(ordered(list)[i]),
    decreases list.len(),
{
    if list.len() > 0 {
        let rest = ordered(list.skip(1));
        lemma_put_holds(list[0], rest, i);
        let found = ordered(list)[i];
        if found == list[0] {
            assert(list[0] == found);
        } else {
            let j = choose|j: int| 0 <= j < rest.len() && rest[j] == found;
            lemma_ordered_holds(list.skip(1), j);
            let k = choose|k: int| 0 <= k < list.skip(1).len() && list.skip(1)[k] == found;
            assert(list[k + 1] == found);
        }
    }
}

proof fn lemma_listed_apart(a: HitView, b: HitView, c: HitView)
    ensures
        listed_before(a, b) ==> !listed_before(b, a),
        listed_before(a, c) ==> listed_before(a, b) || listed_before(b, c),
{
    if lex_less(a.page_id, b.page_id) {
        lemma_lex_asymmetric(a.page_id, b.page_id);
    }
    if lex_less(a.page_id, c.page_id) {
        crate::sort::lemma_lex_no_gaps(a.page_id, b.page_id, c.page_id);
    }
}

proof fn lemma_put_is_listed(hit: HitView, list: Seq<HitView>)
    requires
        listed(list),
    ensures
        listed(put(hit, list)),
    decreases list.len(),
{
    let result = put(hit, list);
    if list.len() > 0 && listed_before(list[0], hit) {
        let rest = list.skip(1);
        let tail = put(hit, rest);
        assert forall|i: int, j: int| 0 <= i < j < rest.len() implies !listed_before(
            #[trigger] rest[j],
            #[trigger] rest[i],
        ) by {
            assert(!listed_before(list[j + 1], list[i + 1]));
        }
        lemma_put_is_listed(hit, rest);
        assert forall|i: int, j: int| 0 <= i < j < result.len() implies !listed_before(
            #[trigger] result[j],
            #[trigger] result[i],
        ) by {
            assert(result[j] == tail[j - 1]);
            if i > 0 {
                assert(result[i] == tail[i - 1]);
            } else {
                lemma_put_holds(hit, rest, j - 1);
                lemma_listed_apart(list[0], hit, hit);
                if tail[j - 1] != hit {
                    let k = choose|k: int| 0 <= k < rest.len() && rest[k] == tail[j - 1];
                    assert(!listed_before(list[k + 1], list[0]));
                }
            }
        }
    } else {
        assert forall|i: int, j: int| 0 <= i < j < result.len() implies !listed_before(
            #[trigger] result[j],
            #[trigger] result[i],
        ) by {
            assert(result[j] == list[j - 1]);
            if i > 0 {
                assert(result[i] == list[i - 1]);
            } else if j > 1 {
                assert(!listed_before(list[j - 1], list[0]));
                lemma_listed_apart(list[j - 1], list[0], hit);
            }
        }
    }
}

/// Hits that are put in their order stand in it.
pub proof fn lemma_ordered_is_listed(list: Seq<HitView>)
    ensures
        listed(ordered(list)),
    decreases list.len(),
{
    if list.len() > 0 {
        lemma_ordered_is_listed(list.skip(1));
        lemma_put_is_listed(list[0], ordered(list.skip(1)));
    }
}

proof fn lemma_put_once(hit: HitView, list: Seq<HitView>)
    requires
        named_once(list),
        forall|i: int| 0 <= i < list.len() ==> fuse_key(#[trigger] list[i]) != fuse_key(hit),
    ensures
        named_once(put(hit, list)),
    decreases list.len(),
{
    let result = put(hit, list);
    if list.len() > 0 && listed_before(list[0], hit) {
        let rest = list.skip(1);
        let tail = put(hit, rest);
        assert forall|i: int, j: int| 0 <= i < j < rest.len() implies fuse_key(#[trigger] rest[i])
            != fuse_key(#[trigger] rest[j]) by {
            assert(fuse_key(list[i + 1]) != fuse_key(list[j + 1]));
        }
        assert forall|i: int| 0 <= i < rest.len() implies fuse_key(#[trigger] rest[i]) != fuse_key(
            hit,
        ) by {
            assert(fuse_key(list[i + 1]) != fuse_key(hit));
        }
        lemma_put_once(hit, rest);
        assert forall|i: int, j: int| 0 <= i < j < result.len() implies fuse_key(
            #[trigger] result[i],
        ) != fuse_key(#[trigger] result[j]) by {
            assert(result[j] == tail[j - 1]);
            if i > 0 {
                assert(result[i] == tail[i - 1]);
            } else {
                lemma_put_holds(hit, rest, j - 1);
                assert(fuse_key(list[0]) != fuse_key(hit));
                if tail[j - 1] != hit {
                    let k = choose|k: int| 0 <= k < rest.len() && rest[k] == tail[j - 1];
                    assert(fuse_key(list[0]) != fuse_key(list[k + 1]));
                }
            }
        }
    } else {
        assert forall|i: int, j: int| 0 <= i < j < result.len() implies fuse_key(
            #[trigger] result[i],
        ) != fuse_key(#[trigger] result[j]) by {
            assert(result[j] == list[j - 1]);
            if i > 0 {
                assert(result[i] == list[i - 1]);
            }
        }
    }
}

/// Putting hits in their order names none of them twice.
pub proof fn lemma_ordered_once(list: Seq<HitView>)
    requires
        named_once(list),
    ensures
        named_once(ordered(list)),
    decreases list.len(),
{
    if list.len() > 0 {
        let rest = list.skip(1);
        assert forall|i: int, j: int| 0 <= i < j < rest.len() implies fuse_key(#[trigger] rest[i])
            != fuse_key(#[trigger] rest[j]) by {
            assert(fuse_key(list[i + 1]) != fuse_key(list[j + 1]));
        }
        lemma_ordered_once(rest);
        assert forall|i: int| 0 <= i < ordered(rest).len() implies fuse_key(
            #[trigger] ordered(rest)[i],
        ) != fuse_key(list[0]) by {
            lemma_ordered_holds(rest, i);
            let k = choose|k: int| 0 <= k < rest.len() && rest[k] == ordered(rest)[i];
            assert(fuse_key(list[0]) != fuse_key(list[k + 1]));
        }
        lemma_put_once(list[0], ordered(rest));
    }
}

/// Groups that are known by different keys make hits that are.
pub proof fn lemma_rescored_once(groups: Seq<GroupView>, scores: Seq<u32>)
    requires
        apart(groups),
    ensures
        named_once(rescored(groups, scores)),
{
    let hits = rescored(groups, scores);
    assert forall|i: int, j: int| 0 <= i < j < hits.len() implies fuse_key(#[trigger] hits[i])
        != fuse_key(#[trigger] hits[j]) by {
        assert(fuse_key(groups[i].hit) != fuse_key(groups[j].hit));
    }
}

} // verus!
