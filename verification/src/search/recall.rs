//! What a search keeps of what its streams found.

use vstd::prelude::*;

use crate::numbers::decimal;
use crate::search::hits::{
    fuse_key, group_at, grouped, has_place, law_fusion_counts_every_hit_once, listed,
    listed_before, order_key, ordered, put, rescored, with_hit, with_list, with_streams, GroupView,
    HitView,
};
use crate::search::project::{
    across_projects, active, added, boosted, confirmed, counted, filled, first_hits, heads_in, no_counts,
    refused_split, same_weight, search_on, seeds, stream_total, total, workspace_hits,
    SearchActionView, SearchEventView, SearchRunView, SearchStage, StreamCounts,
};
use crate::search::tuning::SearchTuning;
use crate::store::records::ManifestView;
use crate::text::lex_less;

verus! {

// ---- The lists of the streams -------------------------------------------------------------

/// The lists that are kept of two answers are those of the first and then those of the
/// second, and of a list alone it is that list, unless it is empty.
pub proof fn law_every_answer_adds_its_lists(a: Seq<Seq<HitView>>, b: Seq<Seq<HitView>>, one: Seq<
    HitView,
>)
    ensures
        filled(a + b) == filled(a) + filled(b),
        one.len() > 0 ==> filled(seq![one]) == seq![one],
        one.len() == 0 ==> filled(seq![one]).len() == 0,
        total(a + b) == total(a) + total(b),
        total(seq![one]) == one.len(),
    decreases b.len(),
{
    assert(seq![one].drop_last() =~= Seq::empty());
    assert(filled(Seq::<Seq<HitView>>::empty()) =~= Seq::empty());
    assert(filled(seq![one]) =~= if one.len() > 0 {
        seq![one]
    } else {
        Seq::empty()
    });
    reveal_with_fuel(total, 2);
    if b.len() == 0 {
        assert(a + b =~= a);
        assert(filled(a) + filled(b) =~= filled(a));
    } else {
        law_every_answer_adds_its_lists(a, b.drop_last(), one);
        assert((a + b).drop_last() =~= a + b.drop_last());
        assert((a + b).last() == b.last());
        assert(filled(a + b) =~= filled(a) + filled(b));
    }
}

proof fn lemma_kept(lists: Seq<Seq<HitView>>, i: int)
    requires
        0 <= i < lists.len(),
        lists[i].len() > 0,
    ensures
        exists|j: int| 0 <= j < filled(lists).len() && #[trigger] filled(lists)[j] == lists[i],
    decreases lists.len(),
{
    let front = lists.drop_last();
    if i < front.len() {
        lemma_kept(front, i);
        let j = choose|j: int| 0 <= j < filled(front).len() && #[trigger] filled(front)[j]
            == front[i];
        assert(filled(lists)[j] == lists[i]);
    } else {
        assert(filled(lists)[filled(front).len() as int] == lists[i]);
    }
}

/// No list that a split answers with is lost, for any number of splits: every hit that was
/// found stands, at its rank, in a list of the run, and that list has the weight one.
pub proof fn law_no_found_list_is_lost(
    run: SearchRunView,
    lists: Seq<Seq<HitView>>,
    i: int,
    r: int,
)
    requires
        run.stage is Searching,
        0 <= i < lists.len(),
        0 <= r < lists[i].len(),
    ensures
        ({
            let next = search_on(run, SearchEventView::Found(Ok(lists))).0;
            &&& next.weights.len() == next.lists.len()
            &&& exists|j: int|
                0 <= j < next.lists.len() && #[trigger] next.lists[j] == lists[i]
                    && next.lists[j][r] == lists[i][r] && next.weights[j] == 0x3f80_0000u32
        }),
{
    lemma_kept(lists, i);
    let next = search_on(run, SearchEventView::Found(Ok(lists))).0;
    assert(next.lists == filled(lists));
    let j = choose|j: int| 0 <= j < filled(lists).len() && #[trigger] filled(lists)[j] == lists[i];
    assert(next.lists[j] == lists[i]);
}

/// The pages that link to the pages found join the lists: those that are there stay at their
/// places with their weights, and each of the new ones is added with the weight of pages that
/// link.
pub proof fn law_linked_lists_join(run: SearchRunView, lists: Seq<Seq<HitView>>, i: int)
    requires
        run.stage is Linking,
        run.weights.len() == run.lists.len(),
        0 <= i < lists.len(),
        lists[i].len() > 0,
        total(lists) <= usize::MAX,
    ensures
        ({
            let next = search_on(run, SearchEventView::Linked(Ok(lists))).0;
            &&& next.lists.take(run.lists.len() as int) == run.lists
            &&& next.weights.take(run.lists.len() as int) == run.weights
            &&& next.weights.len() == next.lists.len()
            &&& next.counts.neighbors == total(lists)
            &&& exists|j: int|
                run.lists.len() <= j < next.lists.len() && #[trigger] next.lists[j] == lists[i]
                    && next.weights[j] == run.tuning.neighbor_weight
        }),
{
    lemma_kept(lists, i);
    let j = choose|j: int| 0 <= j < filled(lists).len() && #[trigger] filled(lists)[j] == lists[i];
    let next = search_on(run, SearchEventView::Linked(Ok(lists))).0;
    let k: int = run.lists.len() + j;
    assert(next.lists == run.lists + filled(lists));
    assert(next.lists[k] == lists[i]);
    assert(next.weights[k] == run.tuning.neighbor_weight);
    assert(next.lists.take(run.lists.len() as int) =~= run.lists);
    assert(next.weights.take(run.lists.len() as int) =~= run.weights);
}

/// The pages of the vector stream join the lists in the same way, with its weight.
pub proof fn law_vector_lists_join(run: SearchRunView, lists: Seq<Seq<HitView>>, i: int)
    requires
        run.stage is Comparing,
        run.weights.len() == run.lists.len(),
        0 <= i < lists.len(),
        lists[i].len() > 0,
        total(lists) <= usize::MAX,
    ensures
        ({
            let next = search_on(run, SearchEventView::Compared(Ok(lists))).0;
            &&& next.lists.take(run.lists.len() as int) == run.lists
            &&& next.weights.take(run.lists.len() as int) == run.weights
            &&& next.weights.len() == next.lists.len()
            &&& next.counts.vector == total(lists)
            &&& exists|j: int|
                run.lists.len() <= j < next.lists.len() && #[trigger] next.lists[j] == lists[i]
                    && next.weights[j] == run.tuning.vector_weight
        }),
{
    lemma_kept(lists, i);
    let j = choose|j: int| 0 <= j < filled(lists).len() && #[trigger] filled(lists)[j] == lists[i];
    let next = search_on(run, SearchEventView::Compared(Ok(lists))).0;
    let k: int = run.lists.len() + j;
    assert(next.lists == run.lists + filled(lists));
    assert(next.lists[k] == lists[i]);
    assert(next.weights[k] == run.tuning.vector_weight);
    assert(next.lists.take(run.lists.len() as int) =~= run.lists);
    assert(next.weights.take(run.lists.len() as int) =~= run.weights);
}

proof fn lemma_within(lists: Seq<Seq<HitView>>, b: int)
    ensures
        stream_total(lists, b) <= total(lists),
    decreases lists.len(),
{
    if lists.len() > 0 {
        lemma_within(lists.drop_last(), b);
    }
}

/// Of every split three lists are counted, for bodies, for entities and for links, in this
/// order: one more split adds the length of each to its own count, and the three together to
/// the candidates.
pub proof fn law_every_split_is_counted(
    run: SearchRunView,
    lists: Seq<Seq<HitView>>,
    bodies: Seq<HitView>,
    entities: Seq<HitView>,
    links: Seq<HitView>,
)
    requires
        run.stage is Searching,
        lists.len() % 3 == 0,
        total(lists) + bodies.len() + entities.len() + links.len() <= usize::MAX,
    ensures
        ({
            let before = search_on(run, SearchEventView::Found(Ok(lists))).0;
            let more = lists.push(bodies).push(entities).push(links);
            let after = search_on(run, SearchEventView::Found(Ok(more))).0;
            &&& after.counts.searched
            &&& after.counts.body == before.counts.body + bodies.len()
            &&& after.counts.entities == before.counts.entities + entities.len()
            &&& after.counts.links == before.counts.links + links.len()
            &&& after.counts.neighbors == 0
            &&& after.counts.vector == 0
            &&& after.candidates == before.candidates + bodies.len() + entities.len() + links.len()
            &&& lists.len() == 0 ==> before.candidates == 0 && before.counts.body == 0
                && before.counts.entities == 0 && before.counts.links == 0
        }),
{
    let one = lists.push(bodies);
    let two = one.push(entities);
    let more = two.push(links);
    assert(one.drop_last() =~= lists);
    assert(two.drop_last() =~= one);
    assert(more.drop_last() =~= two);
    assert(one.last() == bodies && two.last() == entities && more.last() == links);
    assert(one.len() % 3 == 1 && two.len() % 3 == 2);
    assert(total(one) == total(lists) + bodies.len());
    assert(total(two) == total(one) + entities.len());
    assert(total(more) == total(lists) + bodies.len() + entities.len() + links.len());
    assert forall|b: int| 0 <= b < 3 implies #[trigger] stream_total(more, b) == stream_total(
        lists,
        b,
    ) + (if b == 0 {
        bodies.len()
    } else if b == 1 {
        entities.len()
    } else {
        links.len()
    }) by {
        assert(stream_total(one, b) == stream_total(lists, b) + (if b == 0 {
            bodies.len()
        } else {
            0
        }));
        assert(stream_total(two, b) == stream_total(one, b) + (if b == 1 {
            entities.len()
        } else {
            0
        }));
        lemma_within(more, b);
        lemma_within(lists, b);
    }
    lemma_within(more, 0);
    lemma_within(more, 1);
    lemma_within(more, 2);
    lemma_within(lists, 0);
    lemma_within(lists, 1);
    lemma_within(lists, 2);
}

/// Once the streams were asked, no step takes a list or a weight away, and none changes what
/// was asked for.
pub proof fn law_no_step_forgets_a_list(run: SearchRunView, event: SearchEventView)
    requires
        run.weights.len() == run.lists.len(),
        run.stage is Seeding || run.stage is Linking || run.stage is Identifying || run.stage
            is Comparing || run.stage is Fusing || run.stage is Confirming || run.stage is Boosting,
    ensures
        ({
            let next = search_on(run, event).0;
            &&& run.lists.len() <= next.lists.len()
            &&& next.lists.take(run.lists.len() as int) == run.lists
            &&& next.weights.take(run.lists.len() as int) == run.weights
            &&& next.weights.len() == next.lists.len()
            &&& next.query == run.query
            &&& next.tuning == run.tuning
            &&& next.limit == run.limit
            &&& next.embedder == run.embedder
            &&& next.splits == run.splits
            &&& next.candidates == run.candidates
            &&& next.counts.body == run.counts.body
            &&& next.counts.entities == run.counts.entities
            &&& next.counts.links == run.counts.links
        }),
{
    let next = search_on(run, event).0;
    assert(next.lists.take(run.lists.len() as int) =~= run.lists);
    assert(next.weights.take(run.lists.len() as int) =~= run.weights);
}

/// The fusion takes all lists, each with its weight: whenever it is about to begin, the
/// groups are those of all the lists of the run, and the scores are asked for by the places
/// of every group and the weight of every list.
pub proof fn law_the_fusion_takes_every_list(run: SearchRunView, event: SearchEventView)
    requires
        !(run.stage is Fusing),
    ensures
        ({
            let next = search_on(run, event);
            next.0.stage is Fusing ==> {
                &&& next.0.groups == grouped(next.0.lists)
                &&& next.1 matches SearchActionView::Score(places, weights)
                &&& weights == next.0.weights
                &&& places.len() == next.0.groups.len()
                &&& forall|g: int|
                    0 <= g < places.len() ==> #[trigger] places[g] == next.0.groups[g].places
            }
        }),
{
}

// ---- The pages of the lists ---------------------------------------------------------------

/// A hit is known by its version, without one by its path, and without both by its title.
pub proof fn law_a_hit_is_known_by_its_version(hit: HitView)
    ensures
        hit.page_id.len() > 0 ==> fuse_key(hit) == hit.page_id,
        hit.page_id.len() == 0 && hit.path.len() > 0 ==> fuse_key(hit) == hit.path,
        hit.page_id.len() == 0 && hit.path.len() == 0 ==> fuse_key(hit) == hit.title,
{
}

/// How many places groups have.
pub open spec fn places_in(groups: Seq<GroupView>) -> nat
    decreases groups.len(),
{
    if groups.len() == 0 {
        0
    } else {
        places_in(groups.drop_last()) + groups.last().places.len()
    }
}

/// Whether a place is one of a hit of the lists that is known by the key.
pub open spec fn is_place(lists: Seq<Seq<HitView>>, place: (usize, usize), key: Seq<char>) -> bool {
    &&& place.0 < lists.len()
    &&& place.1 < lists[place.0 as int].len()
    &&& fuse_key(lists[place.0 as int][place.1 as int]) == key
}

/// Whether a stream found the hit at one of the places.
pub open spec fn found_by(
    lists: Seq<Seq<HitView>>,
    places: Seq<(usize, usize)>,
    stream: Seq<char>,
) -> bool {
    exists|n: int|
        0 <= n < places.len() && lists[(#[trigger] places[n]).0 as int][places[n].1 as int]
            .streams.contains(stream)
}

/// Whether a group stands for hits of the lists: it is the hit at its first place, but for
/// the streams, all its places are of hits that are known by its key, and its streams are
/// those that found one of these hits.
pub open spec fn stands_for(lists: Seq<Seq<HitView>>, group: GroupView) -> bool {
    &&& group.places.len() > 0
    &&& forall|n: int|
        0 <= n < group.places.len() ==> is_place(
            lists,
            #[trigger] group.places[n],
            fuse_key(group.hit),
        )
    &&& group.hit == HitView {
        streams: group.hit.streams,
        ..lists[group.places[0].0 as int][group.places[0].1 as int]
    }
    &&& forall|stream: Seq<char>| #[trigger]
        group.hit.streams.contains(stream) <==> found_by(lists, group.places, stream)
}

proof fn lemma_streams_found(
    lists: Seq<Seq<HitView>>,
    group: GroupView,
    hit: HitView,
    place: (usize, usize),
)
    requires
        stands_for(lists, group),
        lists[place.0 as int][place.1 as int] == hit,
    ensures
        forall|stream: Seq<char>| #[trigger]
            with_streams(group.hit.streams, hit.streams).contains(stream) <==> found_by(
                lists,
                group.places.push(place),
                stream,
            ),
{
    let more = group.places.push(place);
    law_streams_are_joined(group.hit.streams, hit.streams);
    assert forall|stream: Seq<char>| #[trigger]
        with_streams(group.hit.streams, hit.streams).contains(stream) <==> found_by(
            lists,
            more,
            stream,
        ) by {
        if group.hit.streams.contains(stream) {
            assert(found_by(lists, group.places, stream));
            let n = choose|n: int|
                0 <= n < group.places.len() && lists[(
                #[trigger] group.places[n]).0 as int][group.places[n].1 as int].streams.contains(
                    stream,
                );
            assert(more[n] == group.places[n]);
        }
        if hit.streams.contains(stream) {
            assert(more[group.places.len() as int] == place);
        }
        if found_by(lists, more, stream) {
            let n = choose|n: int|
                0 <= n < more.len() && lists[(
                #[trigger] more[n]).0 as int][more[n].1 as int].streams.contains(stream);
            if n < group.places.len() {
                assert(group.places[n] == more[n]);
                assert(found_by(lists, group.places, stream));
                assert(group.hit.streams.contains(stream));
            }
        }
    }
}

proof fn lemma_group_found(groups: Seq<GroupView>, key: Seq<char>, from: int)
    requires
        0 <= from <= groups.len(),
    ensures
        from <= group_at(groups, key, from) <= groups.len(),
        group_at(groups, key, from) < groups.len() ==> fuse_key(
            groups[group_at(groups, key, from)].hit,
        ) == key,
    decreases groups.len() - from,
{
    if from < groups.len() && fuse_key(groups[from].hit) != key {
        lemma_group_found(groups, key, from + 1);
    }
}

proof fn lemma_places_update(groups: Seq<GroupView>, at: int, group: GroupView)
    requires
        0 <= at < groups.len(),
    ensures
        places_in(groups.update(at, group)) == places_in(groups) - groups[at].places.len()
            + group.places.len(),
    decreases groups.len(),
{
    let after = groups.update(at, group);
    if at == groups.len() - 1 {
        assert(after.drop_last() =~= groups.drop_last());
    } else {
        assert(after.drop_last() =~= groups.drop_last().update(at, group));
        lemma_places_update(groups.drop_last(), at, group);
    }
}

proof fn lemma_one_more(
    lists: Seq<Seq<HitView>>,
    groups: Seq<GroupView>,
    hit: HitView,
    place: (usize, usize),
)
    requires
        forall|g: int| 0 <= g < groups.len() ==> stands_for(lists, #[trigger] groups[g]),
        place.0 < lists.len(),
        place.1 < lists[place.0 as int].len(),
        lists[place.0 as int][place.1 as int] == hit,
    ensures
        ({
            let after = with_hit(groups, hit, place);
            &&& forall|g: int| 0 <= g < after.len() ==> stands_for(lists, #[trigger] after[g])
            &&& places_in(after) == places_in(groups) + 1
        }),
{
    let key = fuse_key(hit);
    let at = group_at(groups, key, 0);
    let after = with_hit(groups, hit, place);
    lemma_group_found(groups, key, 0);
    if at < groups.len() {
        assert(stands_for(lists, groups[at]));
        let group = after[at];
        lemma_places_update(groups, at, group);
        assert(fuse_key(group.hit) == key);
        assert forall|n: int| 0 <= n < group.places.len() implies is_place(
            lists,
            #[trigger] group.places[n],
            fuse_key(group.hit),
        ) by {
            if n < groups[at].places.len() {
                assert(group.places[n] == groups[at].places[n]);
            }
        }
        assert(group.places[0] == groups[at].places[0]);
        lemma_streams_found(lists, groups[at], hit, place);
        assert(stands_for(lists, group));
    } else {
        let group = GroupView { hit, places: seq![place] };
        assert(after == groups.push(group));
        assert(after.drop_last() =~= groups);
        assert forall|stream: Seq<char>| #[trigger]
            group.hit.streams.contains(stream) <==> found_by(lists, group.places, stream) by {
            assert(group.places[0] == place);
        }
        assert(stands_for(lists, group));
    }
}

proof fn lemma_list_stands(
    lists: Seq<Seq<HitView>>,
    groups: Seq<GroupView>,
    list: Seq<HitView>,
    index: usize,
)
    requires
        forall|g: int| 0 <= g < groups.len() ==> stands_for(lists, #[trigger] groups[g]),
        index < lists.len(),
        list.len() <= lists[index as int].len() <= usize::MAX,
        list == lists[index as int].take(list.len() as int),
    ensures
        ({
            let after = with_list(groups, list, index);
            &&& forall|g: int| 0 <= g < after.len() ==> stands_for(lists, #[trigger] after[g])
            &&& places_in(after) == places_in(groups) + list.len()
        }),
    decreases list.len(),
{
    if list.len() > 0 {
        let front = list.drop_last();
        assert(front =~= lists[index as int].take(front.len() as int));
        lemma_list_stands(lists, groups, front, index);
        let r: int = list.len() - 1;
        assert(list[r] == lists[index as int][r]);
        lemma_one_more(
            lists,
            with_list(groups, front, index),
            list.last(),
            (index, r as usize),
        );
    }
}

proof fn lemma_grouped_stands(lists: Seq<Seq<HitView>>, n: int)
    requires
        0 <= n <= lists.len() <= usize::MAX,
        forall|i: int| 0 <= i < lists.len() ==> (#[trigger] lists[i]).len() <= usize::MAX,
    ensures
        ({
            let groups = grouped(lists.take(n));
            &&& forall|g: int| 0 <= g < groups.len() ==> stands_for(lists, #[trigger] groups[g])
            &&& places_in(groups) == total(lists.take(n))
        }),
    decreases n,
{
    if n > 0 {
        let part = lists.take(n);
        lemma_grouped_stands(lists, n - 1);
        assert(part.drop_last() =~= lists.take(n - 1));
        assert(part.last() == lists[n - 1]);
        assert(lists[n - 1].take(lists[n - 1].len() as int) =~= lists[n - 1]);
        lemma_list_stands(lists, grouped(part.drop_last()), part.last(), (n - 1) as usize);
    }
}

/// The groups of lists are their pages: each is the first of the hits that are known by its
/// key, all its places are of such hits, its streams are those that found them, and there are
/// as many places as there are hits, so that none counts twice.
pub proof fn law_every_group_stands_for_its_hits(lists: Seq<Seq<HitView>>)
    requires
        lists.len() <= usize::MAX,
        forall|i: int| 0 <= i < lists.len() ==> (#[trigger] lists[i]).len() <= usize::MAX,
    ensures
        forall|g: int|
            0 <= g < grouped(lists).len() ==> stands_for(lists, #[trigger] grouped(lists)[g]),
        places_in(grouped(lists)) == total(lists),
{
    assert(lists.take(lists.len() as int) =~= lists);
    lemma_grouped_stands(lists, lists.len() as int);
}

proof fn lemma_groups_within(groups: Seq<GroupView>)
    requires
        forall|g: int| 0 <= g < groups.len() ==> (#[trigger] groups[g]).places.len() > 0,
    ensures
        groups.len() <= places_in(groups),
    decreases groups.len(),
{
    if groups.len() > 0 {
        let front = groups.drop_last();
        assert forall|g: int| 0 <= g < front.len() implies (#[trigger] front[g]).places.len()
            > 0 by {
            assert(groups[g].places.len() > 0);
        }
        lemma_groups_within(front);
        assert(groups[groups.len() - 1].places.len() > 0);
    }
}

/// The streams of a page are those it had and those that are added, each once.
pub proof fn law_streams_are_joined(streams: Seq<Seq<char>>, more: Seq<Seq<char>>)
    ensures
        with_streams(streams, more).take(streams.len() as int) == streams,
        streams.len() <= with_streams(streams, more).len(),
        forall|name: Seq<char>| #[trigger]
            with_streams(streams, more).contains(name) <==> streams.contains(name)
                || more.contains(name),
        streams.no_duplicates() ==> with_streams(streams, more).no_duplicates(),
    decreases more.len(),
{
    let all = with_streams(streams, more);
    if more.len() == 0 {
        assert(all.take(streams.len() as int) =~= streams);
    } else {
        let front = more.drop_last();
        let before = with_streams(streams, front);
        law_streams_are_joined(streams, front);
        assert(all.take(streams.len() as int) =~= before.take(streams.len() as int));
        assert forall|name: Seq<char>| #[trigger]
            all.contains(name) <==> streams.contains(name) || more.contains(name) by {
            if front.contains(name) {
                let n = choose|n: int| 0 <= n < front.len() && front[n] == name;
                assert(more[n] == name);
            }
            if more.contains(name) {
                let n = choose|n: int| 0 <= n < more.len() && more[n] == name;
                if n < front.len() {
                    assert(front[n] == name);
                }
            }
            if before.contains(name) {
                let n = choose|n: int| 0 <= n < before.len() && before[n] == name;
                assert(all[n] == name);
            }
            if all.contains(name) {
                let n = choose|n: int| 0 <= n < all.len() && all[n] == name;
                if n < before.len() {
                    assert(before[n] == name);
                }
            }
            assert(more[more.len() - 1] == more.last());
            if !before.contains(more.last()) {
                assert(all[before.len() as int] == more.last());
            }
        }
    }
}

// ---- The order of the hits ----------------------------------------------------------------

/// Scores are ordered as the numbers are whose bits they are: positive ones by their bits,
/// negative ones the other way round, and both zeros are equal and stand between them.
pub proof fn law_scores_are_ordered_as_numbers(a: u32, b: u32)
    ensures
        a < 0x8000_0000 && b < 0x8000_0000 ==> (order_key(a) < order_key(b) <==> a < b),
        a > 0x8000_0000 && b > 0x8000_0000 ==> (order_key(a) < order_key(b) <==> a > b),
        a > 0x8000_0000 && b < 0x8000_0000 ==> order_key(a) < order_key(b),
        a > 0x8000_0000 ==> order_key(a) < order_key(0x8000_0000),
        order_key(0x8000_0000) == order_key(0),
{
}

/// Of two hits the one with the higher score comes first, and of two with the same score
/// the one whose version comes first as a text.
pub proof fn law_the_higher_score_comes_first(hits: Seq<HitView>, i: int, j: int)
    requires
        listed(hits),
        0 <= i < j < hits.len(),
    ensures
        order_key(hits[i].score) >= order_key(hits[j].score),
        hits[i].score < 0x8000_0000 && hits[j].score < 0x8000_0000 ==> hits[i].score
            >= hits[j].score,
        hits[i].score == hits[j].score ==> !lex_less(hits[j].page_id, hits[i].page_id),
{
    assert(!listed_before(hits[j], hits[i]));
    law_scores_are_ordered_as_numbers(hits[i].score, hits[j].score);
}

proof fn lemma_put_same(hit: HitView, list: Seq<HitView>)
    ensures
        put(hit, list).to_multiset() == list.to_multiset().insert(hit),
        put(hit, list).len() == list.len() + 1,
    decreases list.len(),
{
    broadcast use vstd::seq_lib::group_to_multiset_ensures;

    if list.len() > 0 && listed_before(list[0], hit) {
        let rest = list.skip(1);
        lemma_put_same(hit, rest);
        assert(list =~= seq![list[0]] + rest);
        vstd::seq_lib::lemma_multiset_commutative(seq![list[0]], rest);
        vstd::seq_lib::lemma_multiset_commutative(seq![list[0]], put(hit, rest));
        assert(put(hit, list).to_multiset() =~= list.to_multiset().insert(hit));
    } else {
        vstd::seq_lib::lemma_multiset_commutative(seq![hit], list);
        assert(seq![hit] =~= Seq::empty().push(hit));
        assert(seq![hit].to_multiset() =~= vstd::multiset::Multiset::empty().insert(hit));
        assert(put(hit, list).to_multiset() =~= list.to_multiset().insert(hit));
    }
}

/// Putting hits in their order keeps every one of them as often as it was there.
pub proof fn law_ordering_keeps_every_hit(list: Seq<HitView>)
    ensures
        ordered(list).to_multiset() == list.to_multiset(),
        ordered(list).len() == list.len(),
        forall|hit: HitView| #[trigger] ordered(list).contains(hit) <==> list.contains(hit),
    decreases list.len(),
{
    broadcast use vstd::seq_lib::group_to_multiset_ensures;

    if list.len() > 0 {
        let rest = list.skip(1);
        law_ordering_keeps_every_hit(rest);
        lemma_put_same(list[0], ordered(rest));
        assert(list =~= seq![list[0]] + rest);
        vstd::seq_lib::lemma_multiset_commutative(seq![list[0]], rest);
        assert(seq![list[0]] =~= Seq::empty().push(list[0]));
        assert(seq![list[0]].to_multiset() =~= vstd::multiset::Multiset::empty().insert(list[0]));
        assert(ordered(list).to_multiset() =~= list.to_multiset());
    } else {
        assert(ordered(list) =~= list);
    }
    assert forall|hit: HitView| #[trigger] ordered(list).contains(hit) <==> list.contains(hit) by {
        assert(ordered(list).to_multiset().count(hit) == list.to_multiset().count(hit));
    }
}

// ---- What the manifest confirms -----------------------------------------------------------

/// Every hit whose version is the one that the manifest names for its path is confirmed, and
/// the hits that are confirmed stay in their order.
pub proof fn law_every_current_hit_is_confirmed(
    hits: Seq<HitView>,
    heads: Seq<Option<Seq<char>>>,
    i: int,
)
    requires
        0 <= i < hits.len(),
        heads[i] == Some(hits[i].page_id),
    ensures
        confirmed(hits, heads).contains(hits[i]),
        confirmed(hits.take(i + 1), heads) == confirmed(hits.take(i), heads).push(hits[i]),
    decreases hits.len(),
{
    assert(hits.take(i + 1).drop_last() =~= hits.take(i));
    assert(hits.take(i + 1).last() == hits[i]);
    let front = hits.drop_last();
    let kept = confirmed(hits, heads);
    if i < front.len() {
        law_every_current_hit_is_confirmed(front, heads, i);
        let before = confirmed(front, heads);
        let n = choose|n: int| 0 <= n < before.len() && before[n] == front[i];
        assert(kept[n] == hits[i]);
    } else {
        assert(kept[kept.len() - 1] == hits[i]);
    }
}

proof fn lemma_no_more_confirmed(hits: Seq<HitView>, heads: Seq<Option<Seq<char>>>)
    ensures
        confirmed(hits, heads).len() <= hits.len(),
    decreases hits.len(),
{
    if hits.len() > 0 {
        lemma_no_more_confirmed(hits.drop_last(), heads);
    }
}

/// Whether two hits are of the same version of the same page.
pub open spec fn same_page(a: HitView, b: HitView) -> bool {
    a.path == b.path && a.page_id == b.page_id
}

/// What a search says at its end, when it is about to fuse: the pages get these scores, the
/// manifest is asked for their paths, and recency gives these factors and scores where it
/// counts.
pub open spec fn answer_of(
    fusing: SearchRunView,
    scores: Seq<u32>,
    manifest: ManifestView,
    boosts: Seq<(u32, u32)>,
) -> SearchActionView {
    let fused = search_on(fusing, SearchEventView::Scored(scores)).0;
    let heads = heads_in(manifest, fused.hits);
    let asked = search_on(fused, SearchEventView::Heads(Ok(heads)));
    if asked.0.stage is Boosting {
        search_on(asked.0, SearchEventView::Boosted(boosts)).1
    } else {
        asked.1
    }
}

/// Nothing that was found and is current is left out: with a limit that is large enough,
/// every hit of every list whose version the manifest names for its path is among the hits
/// of the answer, where hits that are known by one key are of one page.
pub proof fn law_every_current_hit_is_answered(
    fusing: SearchRunView,
    scores: Seq<u32>,
    manifest: ManifestView,
    boosts: Seq<(u32, u32)>,
    i: int,
    r: int,
)
    requires
        fusing.stage is Fusing,
        fusing.groups == grouped(fusing.lists),
        fusing.lists.len() <= usize::MAX,
        forall|n: int|
            0 <= n < fusing.lists.len() ==> (#[trigger] fusing.lists[n]).len() <= usize::MAX,
        0 <= i < fusing.lists.len(),
        0 <= r < fusing.lists[i].len(),
        manifest.pages.dom().contains(fusing.lists[i][r].path),
        manifest.pages[fusing.lists[i][r].path].page_id == fusing.lists[i][r].page_id,
        forall|n: int, m: int|
            0 <= n < fusing.lists.len() && 0 <= m < fusing.lists[n].len() && fuse_key(
                #[trigger] fusing.lists[n][m],
            ) == fuse_key(fusing.lists[i][r]) ==> same_page(
                fusing.lists[n][m],
                fusing.lists[i][r],
            ),
        total(fusing.lists) <= fusing.limit,
    ensures
        answer_of(fusing, scores, manifest, boosts) matches SearchActionView::Finish(Ok(outcome))
            && exists|k: int|
            0 <= k < outcome.hits.len() && same_page(
                #[trigger] outcome.hits[k],
                fusing.lists[i][r],
            ),
{
    let hit = fusing.lists[i][r];
    let groups = fusing.groups;
    law_fusion_counts_every_hit_once(fusing.lists, i, r);
    law_every_group_stands_for_its_hits(fusing.lists);
    let g = choose|g: int|
        0 <= g < groups.len() && fuse_key((#[trigger] groups[g]).hit) == fuse_key(hit)
            && groups[g].places.contains((i as usize, r as usize));
    assert(stands_for(fusing.lists, groups[g]));
    let first = groups[g].places[0];
    assert(is_place(fusing.lists, first, fuse_key(groups[g].hit)));
    let found = fusing.lists[first.0 as int][first.1 as int];
    assert(same_page(found, hit));
    assert(same_page(groups[g].hit, hit));
    let list = rescored(groups, scores);
    let hits = ordered(list);
    law_ordering_keeps_every_hit(list);
    assert(list[g].path == hit.path && list[g].page_id == hit.page_id);
    assert(list.contains(list[g]));
    assert(hits.contains(list[g]));
    let n = choose|n: int| 0 <= n < hits.len() && hits[n] == list[g];
    let heads = heads_in(manifest, hits);
    assert(heads[n] == Some(hits[n].page_id));
    law_every_current_hit_is_confirmed(hits, heads, n);
    let kept = confirmed(hits, heads);
    let m = choose|m: int| 0 <= m < kept.len() && kept[m] == hits[n];
    lemma_no_more_confirmed(hits, heads);
    assert forall|q: int| 0 <= q < groups.len() implies (#[trigger] groups[q]).places.len()
        > 0 by {
        assert(stands_for(fusing.lists, groups[q]));
    }
    lemma_groups_within(groups);
    assert(kept.len() <= fusing.limit);
    let outcome = answer_of(fusing, scores, manifest, boosts)->Finish_0->Ok_0;
    if fusing.tuning.disabled() {
        assert(outcome.hits == kept);
        assert(same_page(outcome.hits[m], hit));
    } else {
        let raised = boosted(kept, boosts);
        law_ordering_keeps_every_hit(raised);
        assert(raised.contains(raised[m]));
        assert(ordered(raised).contains(raised[m]));
        let k = choose|k: int| 0 <= k < ordered(raised).len() && ordered(raised)[k] == raised[m];
        assert(outcome.hits == ordered(raised));
        assert(same_page(outcome.hits[k], hit));
    }
}

// ---- The answer ---------------------------------------------------------------------------

/// An answer counts what the search did: the splits of the catalogue, the candidates of the
/// direct streams, the fused pages that the manifest does not confirm, and the hits of each
/// stream.
pub proof fn law_an_answer_counts_the_search(
    fusing: SearchRunView,
    scores: Seq<u32>,
    manifest: ManifestView,
    boosts: Seq<(u32, u32)>,
)
    requires
        fusing.stage is Fusing,
    ensures
        ({
            let fused = search_on(fusing, SearchEventView::Scored(scores));
            &&& fused.1 matches SearchActionView::LoadHeads(paths)
            &&& paths.len() == fused.0.hits.len()
            &&& forall|n: int| 0 <= n < paths.len() ==> #[trigger] paths[n] == fused.0.hits[n].path
            &&& fused.0.hits.len() == fusing.groups.len()
            &&& answer_of(fusing, scores, manifest, boosts) matches SearchActionView::Finish(
                Ok(outcome),
            )
            &&& outcome.splits_searched == fusing.splits.len()
            &&& outcome.candidates == fusing.candidates
            &&& outcome.stream_candidates == fusing.counts
            &&& outcome.hits.len() <= fusing.limit
            &&& outcome.filtered_out + outcome.hits.len() <= fusing.groups.len()
            &&& fusing.groups.len() <= fusing.limit ==> outcome.filtered_out + outcome.hits.len()
                == fusing.groups.len()
        }),
{
    let list = rescored(fusing.groups, scores);
    let hits = ordered(list);
    law_ordering_keeps_every_hit(list);
    let heads = heads_in(manifest, hits);
    lemma_no_more_confirmed(hits, heads);
    let kept = confirmed(hits, heads);
    law_ordering_keeps_every_hit(boosted(kept, boosts));
}

/// The streams that an answer names are those that found something, in the order body,
/// entities, links, neighbors, vector.
pub proof fn law_active_streams_found_something(counts: StreamCounts)
    ensures
        active(counted(counts)) == (if counts.searched && counts.body > 0 {
            seq!["body"@]
        } else {
            Seq::empty()
        }) + (if counts.searched && counts.entities > 0 {
            seq!["entities"@]
        } else {
            Seq::empty()
        }) + (if counts.searched && counts.links > 0 {
            seq!["links"@]
        } else {
            Seq::empty()
        }) + (if counts.neighbors > 0 {
            seq!["neighbors"@]
        } else {
            Seq::empty()
        }) + (if counts.vector > 0 {
            seq!["vector"@]
        } else {
            Seq::empty()
        }),
{
    let list = counted(counts);
    reveal_with_fuel(active, 6);
    let n: int = list.len() as int;
    assert(n <= 5);
    if n >= 1 {
        assert(list.drop_last() =~= list.take(n - 1));
    }
    if n >= 2 {
        assert(list.take(n - 1).drop_last() =~= list.take(n - 2));
    }
    if n >= 3 {
        assert(list.take(n - 2).drop_last() =~= list.take(n - 3));
    }
    if n >= 4 {
        assert(list.take(n - 3).drop_last() =~= list.take(n - 4));
    }
    if n >= 5 {
        assert(list.take(n - 4).drop_last() =~= list.take(n - 5));
    }
}

/// Recency changes the score of a hit and says by which factor; all else of it stays, and
/// the score it had is kept beside the new one.
pub proof fn law_a_boost_keeps_the_page(hits: Seq<HitView>, boosts: Seq<(u32, u32)>, i: int)
    requires
        0 <= i < hits.len(),
    ensures
        boosted(hits, boosts).len() == hits.len(),
        boosted(hits, boosts)[i].workspace_id == hits[i].workspace_id,
        boosted(hits, boosts)[i].project_id == hits[i].project_id,
        boosted(hits, boosts)[i].path == hits[i].path,
        boosted(hits, boosts)[i].page_id == hits[i].page_id,
        boosted(hits, boosts)[i].title == hits[i].title,
        boosted(hits, boosts)[i].updated_at_ms == hits[i].updated_at_ms,
        boosted(hits, boosts)[i].streams == hits[i].streams,
        boosted(hits, boosts)[i].fused_score == hits[i].score,
        boosted(hits, boosts)[i].score == boosts[i].1,
        boosted(hits, boosts)[i].recency_multiplier == boosts[i].0,
{
}

/// A fused page has the score that it was given, and all else of the hit that it stands for.
pub proof fn law_a_score_keeps_the_page(groups: Seq<GroupView>, scores: Seq<u32>, g: int)
    requires
        0 <= g < groups.len(),
    ensures
        rescored(groups, scores).len() == groups.len(),
        rescored(groups, scores)[g].score == scores[g],
        rescored(groups, scores)[g].fused_score == scores[g],
        rescored(groups, scores)[g].workspace_id == groups[g].hit.workspace_id,
        rescored(groups, scores)[g].project_id == groups[g].hit.project_id,
        rescored(groups, scores)[g].path == groups[g].hit.path,
        rescored(groups, scores)[g].page_id == groups[g].hit.page_id,
        rescored(groups, scores)[g].title == groups[g].hit.title,
        rescored(groups, scores)[g].updated_at_ms == groups[g].hit.updated_at_ms,
        rescored(groups, scores)[g].recency_multiplier == groups[g].hit.recency_multiplier,
        rescored(groups, scores)[g].streams == groups[g].hit.streams,
{
}

/// Of the hits that there are, an answer gives the first, as many as were asked for.
pub proof fn law_an_answer_is_cut_at_its_limit(hits: Seq<HitView>, limit: nat, i: int)
    requires
        0 <= i < hits.len(),
        i < limit,
    ensures
        i < first_hits(hits, limit).len(),
        first_hits(hits, limit)[i] == hits[i],
        first_hits(hits, limit).len() == (if hits.len() < limit {
            hits.len()
        } else {
            limit
        }),
{
}

// ---- Recency ------------------------------------------------------------------------------

/// The age of a page is counted from now to its change, and is none for a page from the
/// future; without a half-life, a boost above zero, a clock, or a time of change, recency
/// does nothing.
pub proof fn law_ages_are_counted_from_now(tuning: SearchTuning, updated_at_ms: i64)
    ensures
        tuning.disabled() <==> tuning.recency_half_life_ms <= 0 || tuning.now_ms <= 0
            || tuning.max_boost == 0 || 0x8000_0000 <= tuning.max_boost <= 0xff80_0000,
        tuning.age_of(updated_at_ms) is Some <==> tuning.recency_half_life_ms > 0 && tuning.now_ms
            > 0 && updated_at_ms > 0 && tuning.max_boost != 0 && !(0x8000_0000 <= tuning.max_boost
            <= 0xff80_0000),
        tuning.age_of(updated_at_ms) matches Some(age) ==> age >= 0 && (updated_at_ms
            <= tuning.now_ms ==> updated_at_ms + age == tuning.now_ms) && (updated_at_ms
            > tuning.now_ms ==> age == 0),
        tuning.runs_vectors() <==> tuning.vector_search && 0 < tuning.vector_weight
            <= 0x7f80_0000,
{
}

// ---- The pages that link ------------------------------------------------------------------

/// The pages that are looked up for their links are the first of the hits, as many as the
/// tuning says, those without a path left out: each of them is looked up, and no other.
pub proof fn law_the_best_hits_are_looked_up(hits: Seq<HitView>, n: int, i: int)
    requires
        0 <= n,
    ensures
        0 <= i < n && i < hits.len() && hits[i].path.len() > 0 ==> seeds(hits, n).contains(
            hits[i].path,
        ),
        0 <= i < seeds(hits, n).len() ==> exists|k: int|
            0 <= k < n && k < hits.len() && (#[trigger] hits[k]).path.len() > 0 && hits[k].path
                == seeds(hits, n)[i],
        n < hits.len() && hits[n].path.len() > 0 ==> seeds(hits, n + 1) == seeds(hits, n).push(
            hits[n].path,
        ),
        n < hits.len() && hits[n].path.len() == 0 ==> seeds(hits, n + 1) == seeds(hits, n),
        n == 0 ==> seeds(hits, n).len() == 0,
    decreases n,
{
    if n > 0 {
        law_the_best_hits_are_looked_up(hits, n - 1, i);
        let before = seeds(hits, n - 1);
        let all = seeds(hits, n);
        if 0 <= i < n && i < hits.len() && hits[i].path.len() > 0 {
            if i < n - 1 {
                let k = choose|k: int| 0 <= k < before.len() && before[k] == hits[i].path;
                assert(all[k] == hits[i].path);
            } else {
                assert(all[before.len() as int] == hits[i].path);
            }
        }
        if 0 <= i < all.len() {
            if i < before.len() {
                assert(all[i] == before[i]);
            } else {
                assert(hits[n - 1].path == all[i]);
            }
        }
    }
}

/// With pages that link switched off none are looked up; where no hit has a path, the search
/// goes on without them; otherwise the paths of the best hits are handed on.
pub proof fn law_links_are_looked_up_where_they_count(
    run: SearchRunView,
    lists: Seq<Seq<HitView>>,
    scores: Seq<u32>,
)
    requires
        run.stage is Searching,
        run.embedder is None,
    ensures
        ({
            let next = search_on(run, SearchEventView::Found(Ok(lists)));
            let seeded = search_on(next.0, SearchEventView::Scored(scores));
            let paths = seeds(
                ordered(rescored(grouped(next.0.lists), scores)),
                run.tuning.neighbor_seeds as int,
            );
            &&& !run.tuning.neighbor_expansion ==> next.0.stage is Fusing
            &&& run.tuning.neighbor_expansion ==> next.0.stage is Seeding && next.1 is Score
            &&& run.tuning.neighbor_expansion && paths.len() > 0 ==> seeded.1
                == SearchActionView::FindLinks(paths) && seeded.0.stage is Linking
            &&& run.tuning.neighbor_expansion && paths.len() == 0 ==> seeded.0.stage is Fusing
        }),
{
}

// ---- The embedders of splits --------------------------------------------------------------

/// The vector stream goes on only where every split that names its embedder names the same
/// model, and none could not be read; the first that does not is the one that is named.
pub proof fn law_every_split_must_match_the_embedder(
    identities: Seq<Result<Option<crate::search::documents::IdentityView>, Seq<char>>>,
    splits: Seq<(Seq<char>, Seq<char>)>,
    current: crate::search::documents::IdentityView,
    from: int,
    i: int,
)
    requires
        0 <= from <= i < identities.len(),
    ensures
        refused_split(identities, splits, current, from) is None ==> match identities[i] {
            Ok(Some(recorded)) => recorded.provider == current.provider && recorded.model
                == current.model,
            Ok(None) => true,
            Err(_) => false,
        },
    decreases identities.len() - from,
{
    if from < i && refused_split(identities, splits, current, from) is None {
        law_every_split_must_match_the_embedder(identities, splits, current, from + 1, i);
    }
}

// ---- Several projects ---------------------------------------------------------------------

/// The answer of a workspace leaves nothing out: with a limit that is large enough, every
/// hit of every project is known by its key in the answer.
pub proof fn law_a_workspace_leaves_nothing_out(
    lists: Seq<Seq<HitView>>,
    scores: Seq<u32>,
    tuning: SearchTuning,
    boosts: Seq<(u32, u32)>,
    limit: nat,
    i: int,
    r: int,
)
    requires
        0 <= i < lists.len() <= usize::MAX,
        forall|n: int| 0 <= n < lists.len() ==> (#[trigger] lists[n]).len() <= usize::MAX,
        0 <= r < lists[i].len(),
        total(lists) <= limit,
    ensures
        exists|k: int|
            0 <= k < workspace_hits(across_projects(lists, scores), tuning, boosts, limit).len()
                && fuse_key(
                #[trigger] workspace_hits(
                    across_projects(lists, scores),
                    tuning,
                    boosts,
                    limit,
                )[k],
            ) == fuse_key(lists[i][r]),
{
    let groups = grouped(lists);
    let list = rescored(groups, scores);
    let hits = ordered(list);
    law_fusion_counts_every_hit_once(lists, i, r);
    law_every_group_stands_for_its_hits(lists);
    let g = choose|g: int|
        0 <= g < groups.len() && fuse_key((#[trigger] groups[g]).hit) == fuse_key(lists[i][r])
            && groups[g].places.contains((i as usize, r as usize));
    assert forall|q: int| 0 <= q < groups.len() implies (#[trigger] groups[q]).places.len()
        > 0 by {
        assert(stands_for(lists, groups[q]));
    }
    lemma_groups_within(groups);
    law_ordering_keeps_every_hit(list);
    assert(list.contains(list[g]));
    assert(hits.contains(list[g]));
    let n = choose|n: int| 0 <= n < hits.len() && hits[n] == list[g];
    let answer = workspace_hits(across_projects(lists, scores), tuning, boosts, limit);
    if tuning.disabled() {
        assert(fuse_key(answer[n]) == fuse_key(lists[i][r]));
    } else {
        let raised = boosted(hits, boosts);
        law_ordering_keeps_every_hit(raised);
        assert(raised.contains(raised[n]));
        assert(ordered(raised).contains(raised[n]));
        let k = choose|k: int| 0 <= k < ordered(raised).len() && ordered(raised)[k] == raised[n];
        assert(answer == ordered(raised));
        assert(fuse_key(answer[k]) == fuse_key(lists[i][r]));
    }
}

// ---- The course of a search ---------------------------------------------------------------

/// A search reads the catalogue, fetches its splits and asks them the query; with an embedder
/// it looks at who made the vectors and then compares the query.
pub proof fn law_the_course_of_a_search(
    start: SearchRunView,
    splits: Seq<(Seq<char>, Seq<char>)>,
    lists: Seq<Seq<HitView>>,
)
    requires
        start.stage is Loading,
    ensures
        ({
            let loaded = search_on(start, SearchEventView::Catalog(Ok(splits)));
            let fetched = search_on(loaded.0, SearchEventView::Fetched(Ok(())));
            let found = search_on(fetched.0, SearchEventView::Found(Ok(lists)));
            let wanted = start.embedder is Some && start.tuning.vector_search && 0
                < start.tuning.vector_weight <= 0x7f80_0000;
            &&& splits.len() > 0 ==> {
                &&& loaded.1 is Fetch
                &&& loaded.0.splits == splits
                &&& fetched.1 == SearchActionView::Search(start.query)
                &&& fetched.0.splits == splits
                &&& found.0.query == start.query
                &&& found.0.limit == start.limit
                &&& found.0.tuning == start.tuning
                &&& found.0.splits == splits
                &&& !start.tuning.neighbor_expansion && wanted ==> found.1 is ReadIdentities
                    && found.0.stage is Identifying
                &&& !start.tuning.neighbor_expansion && !wanted ==> found.1 is Score
                    && found.0.stage is Fusing
            }
            &&& splits.len() == 0 ==> (loaded.1 matches SearchActionView::Finish(Ok(outcome))
                && outcome.hits.len() == 0 && outcome.splits_searched == 0 && outcome.candidates
                == start.candidates && outcome.stream_candidates == start.counts)
        }),
{
    assert(first_hits(Seq::<HitView>::empty(), start.limit).len() == 0);
}

/// The query is compared with the vectors where every split is of the embedder's model, and
/// otherwise the search ends with what is wrong.
pub proof fn law_the_query_is_compared_or_refused(
    run: SearchRunView,
    identities: Seq<Result<Option<crate::search::documents::IdentityView>, Seq<char>>>,
)
    requires
        run.stage is Identifying,
        run.embedder is Some,
    ensures
        ({
            let next = search_on(run, SearchEventView::Identified(identities));
            match refused_split(identities, run.splits, run.embedder->0, 0) {
                Some(why) => next.1 == SearchActionView::Finish(Err(why)),
                None => next.1 == SearchActionView::Compare(run.query) && next.0.stage is Comparing,
            }
        }),
{
}

/// The split that is refused is the first that names another model or cannot be read, and
/// what is said names it, its embedder and the one that would be asked.
pub proof fn law_the_first_odd_split_is_named(
    identities: Seq<Result<Option<crate::search::documents::IdentityView>, Seq<char>>>,
    splits: Seq<(Seq<char>, Seq<char>)>,
    current: crate::search::documents::IdentityView,
    from: int,
    at: int,
)
    requires
        0 <= from <= at < identities.len(),
        forall|i: int|
            from <= i < at ==> match #[trigger] identities[i] {
                Ok(Some(recorded)) => recorded.provider == current.provider && recorded.model
                    == current.model,
                Ok(None) => true,
                Err(_) => false,
            },
        match identities[at] {
            Ok(Some(recorded)) => recorded.provider != current.provider || recorded.model
                != current.model,
            Ok(None) => false,
            Err(_) => true,
        },
    ensures
        identities[at] matches Err(why) ==> refused_split(identities, splits, current, from)
            == Some(why),
        identities[at] matches Ok(Some(recorded)) ==> refused_split(
            identities,
            splits,
            current,
            from,
        ) == Some(
            "the split "@ + splits[at].0 + " was indexed with provider '"@ + recorded.provider
                + "', model '"@ + recorded.model + "', dim "@ + decimal(recorded.dim)
                + ", but this machine would query with provider '"@ + current.provider
                + "', model '"@ + current.model + "', dim "@ + decimal(current.dim)
                + "; embeddings from two models are not comparable, so the vector stream is refused rather than ranked \u{2014} re-embed the index by running `qm compact` with the current provider"@,
        ),
    decreases at - from,
{
    if from < at {
        let here = identities[from];
        assert(refused_split(identities, splits, current, from) == refused_split(
            identities,
            splits,
            current,
            from + 1,
        ));
        law_the_first_odd_split_is_named(identities, splits, current, from + 1, at);
    }
}

/// A search that fails says why.
pub proof fn law_a_failed_search_says_why(run: SearchRunView, why: Seq<char>)
    ensures
        run.stage is Loading ==> search_on(run, SearchEventView::Catalog(Err(why))).1
            == SearchActionView::Finish(Err(why)),
        run.stage is Fetching ==> search_on(run, SearchEventView::Fetched(Err(why))).1
            == SearchActionView::Finish(Err(why)),
        run.stage is Searching ==> search_on(run, SearchEventView::Found(Err(why))).1
            == SearchActionView::Finish(Err(why)),
        run.stage is Linking ==> search_on(run, SearchEventView::Linked(Err(why))).1
            == SearchActionView::Finish(Err(why)),
        run.stage is Comparing ==> search_on(run, SearchEventView::Compared(Err(why))).1
            == SearchActionView::Finish(Err(why)),
        run.stage is Confirming ==> search_on(run, SearchEventView::Heads(Err(why))).1
            == SearchActionView::Finish(Err(why)),
{
}

/// Recency is asked for the age of every confirmed hit, in their order.
pub proof fn law_every_confirmed_hit_is_aged(
    run: SearchRunView,
    heads: Seq<Option<Seq<char>>>,
    i: int,
)
    requires
        run.stage is Confirming,
        !run.tuning.disabled(),
        0 <= i < confirmed(run.hits, heads).len(),
    ensures
        search_on(run, SearchEventView::Heads(Ok(heads))).1 matches SearchActionView::Boost(ages)
            && ages.len() == confirmed(run.hits, heads).len() && ages[i] == run.tuning.age_of(
            confirmed(run.hits, heads)[i].updated_at_ms,
        ),
{
}

/// Before a search nothing is counted, and the counts of several projects add up stream by
/// stream.
pub proof fn law_counts_start_at_none_and_add_up(a: StreamCounts, b: StreamCounts)
    requires
        a.body + b.body <= usize::MAX,
        a.entities + b.entities <= usize::MAX,
        a.links + b.links <= usize::MAX,
        a.neighbors + b.neighbors <= usize::MAX,
        a.vector + b.vector <= usize::MAX,
    ensures
        !no_counts().searched,
        no_counts().body == 0 && no_counts().entities == 0 && no_counts().links == 0,
        no_counts().neighbors == 0 && no_counts().vector == 0,
        added(a, b).searched <==> a.searched || b.searched,
        added(a, b).body == a.body + b.body,
        added(a, b).entities == a.entities + b.entities,
        added(a, b).links == a.links + b.links,
        added(a, b).neighbors == a.neighbors + b.neighbors,
        added(a, b).vector == a.vector + b.vector,
{
}

} // verus!
