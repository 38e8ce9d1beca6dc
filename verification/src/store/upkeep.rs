//! What is collected, what is reported, and how keys and errors are spelled.

use vstd::prelude::*;

use crate::numbers::decimal;
use crate::store::gc::{
    fate, is_live, names_key, names_prefix, passed, reaches, Fate, LinkKeys, LiveFacts, LiveSet,
    SessionKeys,
};
use crate::store::live_run::{live_on, LiveEvent, LiveRun, LiveStage};
use crate::store::records::ManifestView;
use crate::store::verify::{
    chain_problem, failed_reply, page_failure, pages_failure, predecessor_problem, project_failure,
    project_problems, root_problems, session_problem, sessions_failure, shard_problem,
    split_problem, splits_failure, version_problem, with_catalog_facts, with_page, with_pages,
    with_session_facts, with_sessions, with_shards, with_splits, PageFact, PageFinding,
    PredecessorFact, ProblemView, ProjectFacts, SessionFact, ShardFact, SplitFact,
};
use crate::store::verify_run::{verify_on, VerifyEvent, VerifyRun, VerifyStage};
use crate::store::version::{
    bare_path, checked_path, error_message, failure_view, full_key, full_prefix, is_object_path,
    is_segment, named_as, BackendFailure, ErrorView, HandoffState, Listed, RawListed, StoreError,
};
use crate::text::{
    find_from, has_prefix, has_suffix, lemma_find_from, lex_less, opt_text, split_all, split_first,
    texts, without_prefix, without_suffix,
};
use crate::trim::{trimmed, without_start, CharClass};

verus! {

// ---- Garbage ------------------------------------------------------------------------------

/// A key is live if and only if it is one of the live keys, a live prefix, or lies under a
/// live prefix and a slash.
pub proof fn law_a_key_is_live_by_itself_or_by_its_prefix(
    live: LiveSet,
    key: Seq<char>,
    prefix: Seq<char>,
    rest: Seq<char>,
)
    ensures
        live.keys@.dom().contains(key) ==> is_live(live, key),
        live.prefixes@.dom().contains(prefix) ==> is_live(live, prefix) && is_live(
            live,
            prefix + "/"@ + rest,
        ),
        is_live(live, key) ==> live.keys@.dom().contains(key) || live.prefixes@.dom().contains(key)
            || exists|p: Seq<char>, r: Seq<char>|
            live.prefixes@.dom().contains(p) && key == #[trigger] (p + "/"@ + r),
{
    let under = prefix + "/"@ + rest;
    assert(under.take((prefix + "/"@).len() as int) =~= prefix + "/"@);
    if is_live(live, key) && !live.keys@.dom().contains(key) {
        let p = choose|p: Seq<char>| #[trigger]
            live.prefixes@.dom().contains(p) && (key == p || has_prefix(key, p + "/"@));
        if key != p {
            let r = key.skip((p + "/"@).len() as int);
            assert(key =~= p + "/"@ + r);
        }
    }
}

/// What is live is kept; of the rest, what is gone is left alone, what was changed within
/// the grace period is kept for now, and everything else is collected. Without a grace period
/// nothing is recent.
pub proof fn law_the_fate_of_a_key(
    live: LiveSet,
    key: Seq<char>,
    modified: Option<i64>,
    now_ms: i64,
    grace_ms: i64,
)
    ensures
        fate(live, key, modified, now_ms, grace_ms) == Fate::Live <==> is_live(live, key),
        fate(live, key, modified, now_ms, grace_ms) == Fate::Gone <==> !is_live(live, key)
            && modified is None,
        fate(live, key, modified, now_ms, grace_ms) == Fate::Recent <==> !is_live(live, key)
            && modified is Some && grace_ms > 0 && now_ms < modified->0 + grace_ms,
        fate(live, key, modified, now_ms, grace_ms) == Fate::Collect <==> !is_live(live, key)
            && modified is Some && (grace_ms <= 0 || now_ms >= modified->0 + grace_ms),
{
}

/// A pass that is applied deletes every key that is to be collected, in their order, and
/// nothing else; one that is not applied deletes nothing; and both count the same.
pub proof fn law_a_pass_deletes_all_that_is_collected(
    live: LiveSet,
    keys: Seq<Seq<char>>,
    modified: Seq<Option<i64>>,
    now_ms: i64,
    grace_ms: i64,
    n: int,
    k: int,
)
    requires
        0 <= k < n <= keys.len(),
        !is_live(live, keys[k]),
        modified[k] is Some,
        grace_ms <= 0 || now_ms >= modified[k]->0 + grace_ms,
    ensures
        passed(live, keys, modified, now_ms, grace_ms, true, n).deleted.contains(keys[k]),
        passed(live, keys, modified, now_ms, grace_ms, true, n).deleted.len() == passed(
            live,
            keys,
            modified,
            now_ms,
            grace_ms,
            true,
            n,
        ).collectable,
        passed(live, keys, modified, now_ms, grace_ms, false, n).deleted.len() == 0,
        passed(live, keys, modified, now_ms, grace_ms, false, n).collectable == passed(
            live,
            keys,
            modified,
            now_ms,
            grace_ms,
            true,
            n,
        ).collectable,
    decreases n,
{
    lemma_pass_counts(live, keys, modified, now_ms, grace_ms, n);
    let all = passed(live, keys, modified, now_ms, grace_ms, true, n).deleted;
    if k < n - 1 {
        law_a_pass_deletes_all_that_is_collected(live, keys, modified, now_ms, grace_ms, n - 1, k);
        let before = passed(live, keys, modified, now_ms, grace_ms, true, n - 1).deleted;
        let i = choose|i: int| 0 <= i < before.len() && before[i] == keys[k];
        assert(all[i] == keys[k]);
    } else {
        assert(all.last() == keys[k]);
    }
}

proof fn lemma_pass_counts(
    live: LiveSet,
    keys: Seq<Seq<char>>,
    modified: Seq<Option<i64>>,
    now_ms: i64,
    grace_ms: i64,
    n: int,
)
    requires
        0 <= n <= keys.len(),
    ensures
        ({
            let done = passed(live, keys, modified, now_ms, grace_ms, true, n);
            let tried = passed(live, keys, modified, now_ms, grace_ms, false, n);
            &&& done.deleted.len() == done.collectable
            &&& tried.deleted.len() == 0
            &&& tried.live == done.live
            &&& tried.collectable == done.collectable
            &&& tried.kept_recent == done.kept_recent
            &&& tried.gone == done.gone
            &&& done.live + done.collectable + done.kept_recent + done.gone == n
        }),
    decreases n,
{
    if n > 0 {
        lemma_pass_counts(live, keys, modified, now_ms, grace_ms, n - 1);
    }
}

/// A pass counts each of the keys once: as live, as collectable, as recent or as gone.
pub proof fn law_a_pass_counts_every_key(
    live: LiveSet,
    keys: Seq<Seq<char>>,
    modified: Seq<Option<i64>>,
    now_ms: i64,
    grace_ms: i64,
    apply: bool,
    n: int,
)
    requires
        0 <= n <= keys.len(),
    ensures
        ({
            let done = passed(live, keys, modified, now_ms, grace_ms, apply, n);
            done.live + done.collectable + done.kept_recent + done.gone == n
        }),
{
    lemma_pass_counts(live, keys, modified, now_ms, grace_ms, n);
}

/// Everything that a project is made of is live: its manifest with its shards and its
/// predecessor, the record and the version of every link of every chain, the commits, the
/// head of the catalogue, the catalogue and its splits, and every session with its segments.
pub proof fn law_everything_of_a_project_is_live(
    facts: LiveFacts,
    live: LiveSet,
    c: int,
    i: int,
    n: int,
    s: int,
)
    requires
        reaches(facts, live),
    ensures
        is_live(live, facts.manifest_key@),
        0 <= n < facts.shard_keys@.len() ==> is_live(live, facts.shard_keys@[n]@),
        facts.predecessor_key matches Some(key) ==> is_live(live, key@),
        0 <= c < facts.chains@.len() ==> (facts.chains@[c].current matches Some(key) ==> is_live(
            live,
            key@,
        )),
        0 <= c < facts.chains@.len() && 0 <= i < facts.chains@[c].links@.len() ==> is_live(
            live,
            facts.chains@[c].links@[i].wal@,
        ) && is_live(live, facts.chains@[c].links@[i].page@),
        0 <= n < facts.commit_keys@.len() ==> is_live(live, facts.commit_keys@[n]@),
        is_live(live, facts.catalog_head_key@),
        facts.catalog_key matches Some(key) ==> is_live(live, key@),
        facts.catalog_key is Some && 0 <= n < facts.split_prefixes@.len() ==> is_live(
            live,
            facts.split_prefixes@[n]@,
        ),
        0 <= s < facts.sessions@.len() ==> is_live(live, facts.sessions@[s].head@),
        0 <= s < facts.sessions@.len() && 0 <= n < facts.sessions@[s].segments@.len() ==> is_live(
            live,
            facts.sessions@[s].segments@[n]@,
        ),
{
    assert(names_key(facts, facts.manifest_key@));
    assert(names_key(facts, facts.catalog_head_key@));
    if 0 <= n < facts.shard_keys@.len() {
        assert(texts(facts.shard_keys@)[n] == facts.shard_keys@[n]@);
        assert(names_key(facts, facts.shard_keys@[n]@));
    }
    if 0 <= n < facts.commit_keys@.len() {
        assert(texts(facts.commit_keys@)[n] == facts.commit_keys@[n]@);
        assert(names_key(facts, facts.commit_keys@[n]@));
    }
    if let Some(key) = facts.predecessor_key {
        assert(names_key(facts, key@));
    }
    if let Some(key) = facts.catalog_key {
        assert(names_key(facts, key@));
    }
    if facts.catalog_key is Some && 0 <= n < facts.split_prefixes@.len() {
        let prefix = facts.split_prefixes@[n]@;
        assert(texts(facts.split_prefixes@)[n] == prefix);
        assert(names_prefix(facts, prefix));
        assert(live.prefixes@.dom().contains(prefix));
    }
    if 0 <= c < facts.chains@.len() {
        let chain = facts.chains@[c];
        if let Some(key) = chain.current {
            assert(crate::store::gc::chain_names(chain, key@));
            assert(names_key(facts, key@));
        }
        if 0 <= i < chain.links@.len() {
            let link = chain.links@[i];
            assert(crate::store::gc::link_names(link, link.wal@));
            assert(crate::store::gc::link_names(link, link.page@));
            assert(crate::store::gc::chain_names(chain, link.wal@));
            assert(crate::store::gc::chain_names(chain, link.page@));
            assert(names_key(facts, link.wal@));
            assert(names_key(facts, link.page@));
        }
    }
    if 0 <= s < facts.sessions@.len() {
        let session = facts.sessions@[s];
        assert(crate::store::gc::session_names(session, session.head@));
        assert(names_key(facts, session.head@));
        if 0 <= n < session.segments@.len() {
            assert(texts(session.segments@)[n] == session.segments@[n]@);
            assert(crate::store::gc::session_names(session, session.segments@[n]@));
            assert(names_key(facts, session.segments@[n]@));
        }
    }
}

// ---- Reports ------------------------------------------------------------------------------

/// What is said of a shard, a predecessor, a chain, a version, a session and a split: nothing
/// where it is sound, and otherwise its kind, what it is about, and what is wrong with it.
pub proof fn law_problems_are_named(
    shard: ShardFact,
    predecessor: PredecessorFact,
    path: Seq<char>,
    page_id: Seq<char>,
    end: Result<Option<String>, StoreError>,
    read: Result<String, StoreError>,
    session: SessionFact,
    split: SplitFact,
)
    ensures
        shard.key@ == shard.canonical@ <==> shard_problem(shard) is None,
        shard.key@ != shard.canonical@ ==> (shard_problem(shard) matches Some(p) && p.kind
            == "manifest_shard_key"@ && p.subject == shard.key@),
        predecessor_problem(predecessor) is None <==> (predecessor.actual matches Ok(actual)
            && actual@ == predecessor.content_hash@),
        predecessor_problem(predecessor) matches Some(p) ==> p.kind == "manifest_predecessor"@
            && p.subject == predecessor.key@,
        chain_problem(path, page_id, end) is None <==> (end matches Ok(Some(last)) && last@
            == page_id),
        chain_problem(path, page_id, end) matches Some(p) ==> p.kind == "page_chain"@ && p.subject
            == path && (end matches Ok(_) ==> p.detail
            == "the chain does not end at the manifest head"@),
        version_problem(path, page_id, read) is None <==> (read matches Ok(derived) && derived@
            == page_id),
        version_problem(path, page_id, read) matches Some(p) ==> p.kind == "page_version"@
            && p.subject == path + " ("@ + page_id + ")"@ && (read matches Ok(derived) ==> p.detail
            == "the content hashes to "@ + derived@),
        session_problem(session) is None <==> session.chain is Ok,
        session_problem(session) matches Some(p) ==> p.kind == "session_chain"@ && p.subject
            == session.session@,
        split_problem(split) is None <==> (split.objects matches Ok(n) && n > 0),
        split_problem(split) matches Some(p) ==> p.subject == split.prefix@ && (split.objects is Ok
            ==> p.kind == "split_missing"@) && (split.objects is Err ==> p.kind
            == "split_unreadable"@),
{
}

proof fn lemma_pages_add(list: Seq<ProblemView>, facts: Seq<PageFact>)
    ensures
        list.len() <= with_pages(list, facts).len(),
        with_pages(list, facts).take(list.len() as int) == list,
    decreases facts.len(),
{
    if facts.len() > 0 {
        lemma_pages_add(list, facts.drop_last());
        let before = with_pages(list, facts.drop_last());
        let all = with_pages(list, facts);
        assert(all.take(list.len() as int) =~= before.take(list.len() as int));
    } else {
        assert(list.take(list.len() as int) =~= list);
    }
}

proof fn lemma_sessions_add(list: Seq<ProblemView>, facts: Seq<SessionFact>)
    ensures
        list.len() <= with_sessions(list, facts).len(),
        with_sessions(list, facts).take(list.len() as int) == list,
    decreases facts.len(),
{
    if facts.len() > 0 {
        lemma_sessions_add(list, facts.drop_last());
        let before = with_sessions(list, facts.drop_last());
        let all = with_sessions(list, facts);
        assert(all.take(list.len() as int) =~= before.take(list.len() as int));
    } else {
        assert(list.take(list.len() as int) =~= list);
    }
}

proof fn lemma_splits_add(list: Seq<ProblemView>, facts: Seq<SplitFact>)
    ensures
        list.len() <= with_splits(list, facts).len(),
        with_splits(list, facts).take(list.len() as int) == list,
    decreases facts.len(),
{
    if facts.len() > 0 {
        lemma_splits_add(list, facts.drop_last());
        let before = with_splits(list, facts.drop_last());
        let all = with_splits(list, facts);
        assert(all.take(list.len() as int) =~= before.take(list.len() as int));
    } else {
        assert(list.take(list.len() as int) =~= list);
    }
}

proof fn lemma_kept(list: Seq<ProblemView>, all: Seq<ProblemView>, p: ProblemView)
    requires
        list.len() <= all.len(),
        all.take(list.len() as int) == list,
        list.contains(p),
    ensures
        all.contains(p),
{
    let i = choose|i: int| 0 <= i < list.len() && list[i] == p;
    assert(all.take(list.len() as int)[i] == all[i]);
}

proof fn lemma_rest_keeps(facts: ProjectFacts, p: ProblemView)
    ensures
        root_problems(facts).contains(p) ==> project_problems(facts).contains(p),
        with_pages(root_problems(facts), facts.pages@).contains(p) ==> project_problems(
            facts,
        ).contains(p),
        with_session_facts(with_pages(root_problems(facts), facts.pages@), facts).contains(p)
            ==> project_problems(facts).contains(p),
{
    let root = root_problems(facts);
    let pages = with_pages(root, facts.pages@);
    let sessions = with_session_facts(pages, facts);
    let all = project_problems(facts);
    lemma_pages_add(root, facts.pages@);
    if let Ok(found) = facts.sessions {
        lemma_sessions_add(pages, found@);
    } else {
        assert(sessions.take(pages.len() as int) =~= pages);
    }
    if let Ok(found) = facts.splits {
        lemma_splits_add(sessions, found@);
    } else {
        assert(all.take(sessions.len() as int) =~= sessions);
    }
    if root.contains(p) {
        lemma_kept(root, pages, p);
    }
    if pages.contains(p) {
        lemma_kept(pages, sessions, p);
    }
    if sessions.contains(p) {
        lemma_kept(sessions, all, p);
    }
}

proof fn lemma_shard_told(list: Seq<ProblemView>, facts: Seq<ShardFact>, i: int)
    requires
        0 <= i < facts.len(),
        shard_problem(facts[i]) is Some,
    ensures
        with_shards(list, facts).contains(shard_problem(facts[i])->0),
    decreases facts.len(),
{
    let before = with_shards(list, facts.drop_last());
    let all = with_shards(list, facts);
    let p = shard_problem(facts[i])->0;
    if i < facts.len() - 1 {
        lemma_shard_told(list, facts.drop_last(), i);
        let k = choose|k: int| 0 <= k < before.len() && before[k] == p;
        assert(all[k] == p);
    } else {
        assert(all.last() == p);
    }
}

proof fn lemma_page_told(list: Seq<ProblemView>, facts: Seq<PageFact>, i: int, p: ProblemView)
    requires
        0 <= i < facts.len(),
        with_page(Seq::empty(), facts[i]).contains(p),
    ensures
        with_pages(list, facts).contains(p),
    decreases facts.len(),
{
    let before = with_pages(list, facts.drop_last());
    let all = with_pages(list, facts);
    if i < facts.len() - 1 {
        lemma_page_told(list, facts.drop_last(), i, p);
        let k = choose|k: int| 0 <= k < before.len() && before[k] == p;
        assert(all[k] == p);
    } else {
        let here = with_page(Seq::empty(), facts[i]);
        assert(all =~= before + here);
        let k = choose|k: int| 0 <= k < here.len() && here[k] == p;
        assert(all[before.len() + k] == p);
    }
}

proof fn lemma_session_told(list: Seq<ProblemView>, facts: Seq<SessionFact>, i: int)
    requires
        0 <= i < facts.len(),
        session_problem(facts[i]) is Some,
    ensures
        with_sessions(list, facts).contains(session_problem(facts[i])->0),
    decreases facts.len(),
{
    let before = with_sessions(list, facts.drop_last());
    let all = with_sessions(list, facts);
    let p = session_problem(facts[i])->0;
    if i < facts.len() - 1 {
        lemma_session_told(list, facts.drop_last(), i);
        let k = choose|k: int| 0 <= k < before.len() && before[k] == p;
        assert(all[k] == p);
    } else {
        assert(all.last() == p);
    }
}

proof fn lemma_split_told(list: Seq<ProblemView>, facts: Seq<SplitFact>, i: int)
    requires
        0 <= i < facts.len(),
        split_problem(facts[i]) is Some,
    ensures
        with_splits(list, facts).contains(split_problem(facts[i])->0),
    decreases facts.len(),
{
    let before = with_splits(list, facts.drop_last());
    let all = with_splits(list, facts);
    let p = split_problem(facts[i])->0;
    if i < facts.len() - 1 {
        lemma_split_told(list, facts.drop_last(), i);
        let k = choose|k: int| 0 <= k < before.len() && before[k] == p;
        assert(all[k] == p);
    } else {
        assert(all.last() == p);
    }
}

/// Whether a report names a problem of this kind with this subject.
pub open spec fn tells(list: Seq<ProblemView>, kind: Seq<char>, subject: Seq<char>) -> bool {
    exists|i: int|
        0 <= i < list.len() && (#[trigger] list[i]).kind == kind && list[i].subject == subject
}

proof fn lemma_tells(list: Seq<ProblemView>, p: ProblemView)
    requires
        list.contains(p),
    ensures
        tells(list, p.kind, p.subject),
{
    let i = choose|i: int| 0 <= i < list.len() && list[i] == p;
    assert(list[i].kind == p.kind);
}

/// A report names every shard under the wrong key, a predecessor that is not what the root
/// says, and every page whose path, chain or content is wrong.
pub proof fn law_every_damage_to_pages_is_reported(facts: ProjectFacts, i: int)
    ensures
        0 <= i < facts.shards@.len() && facts.shards@[i].key@ != facts.shards@[i].canonical@
            ==> tells(project_problems(facts), "manifest_shard_key"@, facts.shards@[i].key@),
        facts.predecessor matches Some(fact) ==> ((fact.actual matches Ok(actual) ==> actual@
            != fact.content_hash@) ==> tells(
            project_problems(facts),
            "manifest_predecessor"@,
            fact.key@,
        )),
        0 <= i < facts.pages@.len() && facts.pages@[i].finding is BadPath ==> tells(
            project_problems(facts),
            "page_path"@,
            facts.pages@[i].path@,
        ),
        0 <= i < facts.pages@.len() ==> (facts.pages@[i].finding matches PageFinding::Walked(
            end,
            read,
        ) ==> ((end matches Ok(Some(last)) ==> last@ != facts.pages@[i].page_id@) ==> tells(
            project_problems(facts),
            "page_chain"@,
            facts.pages@[i].path@,
        )) && ((read matches Ok(derived) ==> derived@ != facts.pages@[i].page_id@) ==> tells(
            project_problems(facts),
            "page_version"@,
            facts.pages@[i].path@ + " ("@ + facts.pages@[i].page_id@ + ")"@,
        ))),
{
    let all = project_problems(facts);
    let root = root_problems(facts);
    if 0 <= i < facts.shards@.len() && facts.shards@[i].key@ != facts.shards@[i].canonical@ {
        lemma_shard_told(Seq::empty(), facts.shards@, i);
        let p = shard_problem(facts.shards@[i])->0;
        let shards = with_shards(Seq::empty(), facts.shards@);
        assert(root.take(shards.len() as int) =~= shards);
        lemma_kept(shards, root, p);
        lemma_rest_keeps(facts, p);
        lemma_tells(all, p);
    }
    if let Some(fact) = facts.predecessor {
        if predecessor_problem(fact) is Some {
            let p = predecessor_problem(fact)->0;
            assert(root.last() == p);
            lemma_rest_keeps(facts, p);
            lemma_tells(all, p);
        }
    }
    if 0 <= i < facts.pages@.len() {
        let fact = facts.pages@[i];
        let here = with_page(Seq::empty(), fact);
        match fact.finding {
            PageFinding::BadPath(what) => {
                let p = here[0];
                assert(here.contains(p));
                lemma_page_told(root, facts.pages@, i, p);
                lemma_rest_keeps(facts, p);
                lemma_tells(all, p);
            },
            PageFinding::Walked(end, read) => {
                let chain = chain_problem(fact.path@, fact.page_id@, end);
                let version = version_problem(fact.path@, fact.page_id@, read);
                if chain is Some {
                    assert(here[0] == chain->0);
                    assert(here.contains(chain->0));
                    lemma_page_told(root, facts.pages@, i, chain->0);
                    lemma_rest_keeps(facts, chain->0);
                    lemma_tells(all, chain->0);
                }
                if version is Some {
                    assert(here.last() == version->0);
                    assert(here.contains(version->0));
                    lemma_page_told(root, facts.pages@, i, version->0);
                    lemma_rest_keeps(facts, version->0);
                    lemma_tells(all, version->0);
                }
            },
        }
    }
}

/// A report names every session whose chain cannot be read, every split without objects or
/// that cannot be listed, and sessions or a catalogue that cannot be listed at all.
pub proof fn law_every_damage_to_sessions_and_splits_is_reported(facts: ProjectFacts, i: int)
    ensures
        facts.sessions is Err ==> tells(
            project_problems(facts),
            "sessions"@,
            facts.session_prefix@,
        ),
        facts.sessions matches Ok(found) ==> (0 <= i < found@.len() && found@[i].chain is Err
            ==> tells(project_problems(facts), "session_chain"@, found@[i].session@)),
        facts.splits is Err ==> tells(project_problems(facts), "catalog"@, facts.catalog_head_key@),
        facts.splits matches Ok(found) ==> (0 <= i < found@.len() && found@[i].objects is Err
            ==> tells(project_problems(facts), "split_unreadable"@, found@[i].prefix@)),
        facts.splits matches Ok(found) ==> (0 <= i < found@.len() && (found@[i].objects matches Ok(
            n,
        ) && n == 0) ==> tells(project_problems(facts), "split_missing"@, found@[i].prefix@)),
{
    let all = project_problems(facts);
    let pages = with_pages(root_problems(facts), facts.pages@);
    let sessions = with_session_facts(pages, facts);
    match facts.sessions {
        Err(error) => {
            let p = sessions.last();
            assert(sessions.contains(p));
            lemma_rest_keeps(facts, p);
            lemma_tells(all, p);
        },
        Ok(found) => {
            if 0 <= i < found@.len() && found@[i].chain is Err {
                lemma_session_told(pages, found@, i);
                let p = session_problem(found@[i])->0;
                lemma_rest_keeps(facts, p);
                lemma_tells(all, p);
            }
        },
    }
    match facts.splits {
        Err(error) => {
            let p = all.last();
            assert(all.contains(p));
            lemma_tells(all, p);
        },
        Ok(found) => {
            if 0 <= i < found@.len() && split_problem(found@[i]) is Some {
                lemma_split_told(sessions, found@, i);
                lemma_tells(all, split_problem(found@[i])->0);
            }
        },
    }
}

/// A failure of the backend is never taken for damage: wherever one occurs, the check has no
/// report but fails.
pub proof fn law_a_backend_failure_ends_the_check(facts: ProjectFacts, i: int)
    ensures
        facts.predecessor matches Some(fact) ==> (fact.actual matches Err(error) ==> (error@
            is Backend ==> project_failure(facts) is Some)),
        0 <= i < facts.pages@.len() ==> (facts.pages@[i].finding matches PageFinding::Walked(
            end,
            read,
        ) ==> (end matches Err(error) ==> (error@ is Backend ==> project_failure(facts) is Some))
            && (read matches Err(error) ==> (error@ is Backend ==> project_failure(facts)
            is Some))),
        facts.sessions matches Err(error) ==> (error@ is Backend ==> project_failure(facts)
            is Some),
        facts.sessions matches Ok(found) ==> (0 <= i < found@.len() ==> (
        found@[i].chain matches Err(error) ==> (error@ is Backend ==> project_failure(facts)
            is Some))),
        facts.splits matches Err(error) ==> (error@ is Backend ==> project_failure(facts) is Some),
        facts.splits matches Ok(found) ==> (0 <= i < found@.len() ==> (
        found@[i].objects matches Err(error) ==> (error@ is Backend ==> project_failure(facts)
            is Some))),
        project_failure(facts) matches Some(error) ==> error is Backend,
{
    lemma_failures_are_of_the_backend(facts);
    if 0 <= i < facts.pages@.len() && page_failure(facts.pages@[i]) is Some {
        lemma_pages_fail(facts.pages@, i);
    }
    if let Ok(found) = facts.sessions {
        if 0 <= i < found@.len() && failed_reply(found@[i].chain) is Some {
            lemma_sessions_fail(found@, i);
        }
    }
    if let Ok(found) = facts.splits {
        if 0 <= i < found@.len() && failed_reply(found@[i].objects) is Some {
            lemma_splits_fail(found@, i);
        }
    }
}

proof fn lemma_pages_fail(facts: Seq<PageFact>, i: int)
    requires
        0 <= i < facts.len(),
        page_failure(facts[i]) is Some,
    ensures
        pages_failure(facts) is Some,
    decreases facts.len(),
{
    if i < facts.len() - 1 {
        lemma_pages_fail(facts.drop_last(), i);
    }
}

proof fn lemma_sessions_fail(facts: Seq<SessionFact>, i: int)
    requires
        0 <= i < facts.len(),
        failed_reply(facts[i].chain) is Some,
    ensures
        sessions_failure(facts) is Some,
    decreases facts.len(),
{
    if i < facts.len() - 1 {
        lemma_sessions_fail(facts.drop_last(), i);
    }
}

proof fn lemma_splits_fail(facts: Seq<SplitFact>, i: int)
    requires
        0 <= i < facts.len(),
        failed_reply(facts[i].objects) is Some,
    ensures
        splits_failure(facts) is Some,
    decreases facts.len(),
{
    if i < facts.len() - 1 {
        lemma_splits_fail(facts.drop_last(), i);
    }
}

proof fn lemma_backend_pages(facts: Seq<PageFact>)
    ensures
        pages_failure(facts) matches Some(error) ==> error is Backend,
    decreases facts.len(),
{
    if facts.len() > 0 {
        lemma_backend_pages(facts.drop_last());
    }
}

proof fn lemma_backend_sessions(facts: Seq<SessionFact>)
    ensures
        sessions_failure(facts) matches Some(error) ==> error is Backend,
    decreases facts.len(),
{
    if facts.len() > 0 {
        lemma_backend_sessions(facts.drop_last());
    }
}

proof fn lemma_backend_splits(facts: Seq<SplitFact>)
    ensures
        splits_failure(facts) matches Some(error) ==> error is Backend,
    decreases facts.len(),
{
    if facts.len() > 0 {
        lemma_backend_splits(facts.drop_last());
    }
}

proof fn lemma_failures_are_of_the_backend(facts: ProjectFacts)
    ensures
        project_failure(facts) matches Some(error) ==> error is Backend,
{
    lemma_backend_pages(facts.pages@);
    if let Ok(found) = facts.sessions {
        lemma_backend_sessions(found@);
    }
    if let Ok(found) = facts.splits {
        lemma_backend_splits(found@);
    }
}

// ---- Errors -------------------------------------------------------------------------------

/// What each error says.
pub proof fn law_errors_say_what_happened(
    attempts: nat,
    what: Seq<char>,
    id: Seq<char>,
    owner: Seq<char>,
)
    ensures
        error_message(ErrorView::NotFound) == "object not found"@,
        error_message(ErrorView::Precondition) == "precondition failed"@,
        error_message(ErrorView::AlreadyExists) == "object already exists"@,
        error_message(ErrorView::MissingEtag)
            == "backend returned no ETag for a conditional operation"@,
        error_message(ErrorView::Conflict(attempts)) == "commit conflict after "@ + decimal(
            attempts,
        ) + " attempts"@,
        error_message(ErrorView::Corrupt(what)) == "corrupt object: "@ + what,
        error_message(ErrorView::HandoffNotOpen(id, HandoffState::Open)) == "handoff "@ + id
            + " is not open (state: "@ + "Open"@ + ")"@,
        error_message(ErrorView::HandoffNotOpen(id, HandoffState::Claimed)) == "handoff "@ + id
            + " is not open (state: "@ + "Claimed"@ + ")"@,
        error_message(ErrorView::HandoffNotOpen(id, HandoffState::Done)) == "handoff "@ + id
            + " is not open (state: "@ + "Done"@ + ")"@,
        error_message(ErrorView::HandoffOwnedByAnother(id, owner)) == "handoff "@ + id
            + " is claimed by "@ + owner,
        error_message(ErrorView::Backend(what)) == "object store error: "@ + what,
{
}

/// The failures of a backend keep their meaning, and what is not told apart keeps its text.
pub proof fn law_backend_failures_keep_their_meaning(what: String)
    ensures
        failure_view(BackendFailure::NotFound) == ErrorView::NotFound,
        failure_view(BackendFailure::Precondition) == ErrorView::Precondition,
        failure_view(BackendFailure::AlreadyExists) == ErrorView::AlreadyExists,
        failure_view(BackendFailure::Other(what)) == ErrorView::Backend(what@),
{
}

// ---- Keys ---------------------------------------------------------------------------------

/// A text is split at every separator, and only there: the parts of two texts with a
/// separator between them are those of the one and then those of the other, and a text
/// without one is its only part.
pub proof fn law_a_text_is_split_at_every_separator(a: Seq<char>, b: Seq<char>, c: char)
    ensures
        split_all(a.push(c) + b, c) == split_all(a, c) + split_all(b, c),
        !a.contains(c) ==> split_all(a, c) == seq![a],
    decreases a.len(),
{
    let whole = a.push(c) + b;
    lemma_find_from(whole, c, 0);
    lemma_find_from(a, c, 0);
    let at = find_from(a, c, 0);
    let first = find_from(whole, c, 0);
    assert(whole[a.len() as int] == c);
    assert(first == at) by {
        if first < at {
            assert(a[first] == whole[first]);
        }
        if at < first {
            assert(whole[at] == c);
        }
    }
    if at < a.len() {
        assert(a.contains(a[at]));
        let rest = a.skip(at + 1);
        law_a_text_is_split_at_every_separator(rest, b, c);
        assert(whole.skip(at + 1) =~= rest.push(c) + b);
        assert(whole.take(at) =~= a.take(at));
        assert(split_all(whole, c) =~= split_all(a, c) + split_all(b, c));
    } else {
        assert(whole.skip(first + 1) =~= b);
        assert(whole.take(first) =~= a);
        assert(split_all(whole, c) =~= split_all(a, c) + split_all(b, c));
    }
}

/// A text is taken apart at its first separator, and put together again it is the same.
pub proof fn law_a_text_is_taken_apart_at_its_first_separator(
    a: Seq<char>,
    b: Seq<char>,
    c: char,
)
    requires
        !a.contains(c),
    ensures
        split_first(a.push(c) + b, c) == Some((a, b)),
        split_first(a, c) is None,
{
    let whole = a.push(c) + b;
    lemma_find_from(whole, c, 0);
    lemma_find_from(a, c, 0);
    let first = find_from(whole, c, 0);
    assert(whole[a.len() as int] == c);
    if first < a.len() {
        assert(a[first] == whole[first]);
        assert(a.contains(a[first]));
    }
    assert(whole.take(first) =~= a);
    assert(whole.skip(first + 1) =~= b);
    let at = find_from(a, c, 0);
    if at < a.len() {
        assert(a.contains(a[at]));
    }
}

/// Text comes before text by the first character in which they differ, and what is cut off
/// comes before the whole.
pub proof fn law_text_is_ordered_by_code_points(
    common: Seq<char>,
    a: Seq<char>,
    b: Seq<char>,
    x: char,
    y: char,
)
    requires
        (x as int) < (y as int),
    ensures
        lex_less(common.push(x) + a, common.push(y) + b),
        !lex_less(common.push(y) + b, common.push(x) + a),
        lex_less(common, common.push(x) + a),
        !lex_less(common.push(x) + a, common),
        !lex_less(common, common),
    decreases common.len(),
{
    let small = common.push(x) + a;
    let large = common.push(y) + b;
    if common.len() > 0 {
        let rest = common.skip(1);
        law_text_is_ordered_by_code_points(rest, a, b, x, y);
        assert(small.skip(1) =~= rest.push(x) + a);
        assert(large.skip(1) =~= rest.push(y) + b);
        assert(small[0] == common[0] && large[0] == common[0]);
    } else {
        assert(small[0] == x && large[0] == y);
    }
}

/// A key stands under its prefix and a slash, without the slashes that it starts with; where
/// there is no prefix it stands alone.
pub proof fn law_a_key_stands_under_its_prefix(prefix: Seq<char>, slashes: Seq<char>, key: Seq<char>)
    requires
        forall|i: int| 0 <= i < slashes.len() ==> #[trigger] slashes[i] == '/',
        key.len() > 0 ==> key[0] != '/',
    ensures
        prefix.len() > 0 ==> full_key(prefix, slashes + key) == prefix + "/"@ + key,
        prefix.len() == 0 ==> full_key(prefix, slashes + key) == key,
{
    lemma_leading(slashes, key);
}

proof fn lemma_leading(slashes: Seq<char>, key: Seq<char>)
    requires
        forall|i: int| 0 <= i < slashes.len() ==> #[trigger] slashes[i] == '/',
        key.len() > 0 ==> key[0] != '/',
    ensures
        without_start(slashes + key, CharClass::Char('/')) == key,
    decreases slashes.len(),
{
    let whole = slashes + key;
    if slashes.len() > 0 {
        assert(whole[0] == slashes[0]);
        assert(whole.skip(1) =~= slashes.skip(1) + key);
        lemma_leading(slashes.skip(1), key);
    } else {
        assert(whole =~= key);
    }
}

/// A part of a path is accepted unless it is empty, a single or a double full stop, or holds
/// a control character.
pub proof fn law_the_parts_of_a_path(segment: Seq<char>)
    ensures
        is_segment(segment) <==> segment.len() > 0 && segment != "."@ && segment != ".."@
            && forall|i: int|
            0 <= i < segment.len() ==> 0x20 <= (#[trigger] segment[i] as int) && segment[i] as int
                != 0x7f,
{
    reveal_strlit(".");
    reveal_strlit("..");
    assert(seq!['.'] =~= "."@);
    assert(seq!['.', '.'] =~= ".."@);
    if is_segment(segment) {
        assert forall|i: int| 0 <= i < segment.len() implies 0x20 <= (#[trigger] segment[i] as int)
            && segment[i] as int != 0x7f by {
            assert(!crate::store::version::is_control(segment[i]));
        }
    }
}

/// A path loses one slash at its start and one at its end; it is accepted where it is then
/// empty or all its parts are.
pub proof fn law_a_path_is_bare_and_made_of_parts(path: Seq<char>)
    requires
        path.len() > 0,
        path[0] != '/',
        path.last() != '/',
    ensures
        bare_path(path) == path,
        bare_path("/"@ + path) == path,
        bare_path(path + "/"@) == path,
        bare_path("/"@ + path + "/"@) == path,
        is_object_path(path) <==> forall|i: int|
            0 <= i < split_all(path, '/').len() ==> is_segment(#[trigger] split_all(path, '/')[i]),
        checked_path(path) == (if is_object_path(path) {
            Ok::<Seq<char>, ErrorView>(path)
        } else {
            Err(ErrorView::Backend(crate::store::version::path_complaint(path)))
        }),
{
    reveal_strlit("/");
    let slash = seq!['/'];
    assert(slash =~= "/"@);
    assert(path.take(1)[0] == path[0]);
    assert(path.skip(path.len() - 1)[0] == path.last());
    let front = "/"@ + path;
    assert(front.take(1) =~= slash);
    assert(front.skip(1) =~= path);
    let back = path + "/"@;
    assert(back.take(1)[0] == path[0]);
    assert(back.skip(back.len() - 1) =~= slash);
    assert(back.take(back.len() - 1) =~= path);
    let both = "/"@ + path + "/"@;
    assert(both.take(1) =~= slash);
    assert(both.skip(1) =~= back);
}

// ---- What a check gathers -----------------------------------------------------------------

/// A check keeps what it is told of a page with the path and the version that the manifest
/// has for it, behind what it knew before: that the path is bad, or where its chain ended and
/// what its content derives to.
pub proof fn law_a_check_keeps_what_it_is_told_of_pages(
    run: VerifyRun,
    after: VerifyRun,
    why: String,
    end: Result<Option<String>, StoreError>,
    read: Result<String, StoreError>,
)
    ensures
        ({
            let n = run.facts.pages@.len() as int;
            let told = PageFinding::Walked(end, read);
            let bad = run.stage is Path && verify_on(run, VerifyEvent::Path(Err(why)), after);
            let walked = run.stage == VerifyStage::Read(end) && verify_on(
                run,
                VerifyEvent::Read(read),
                after,
            );
            bad || walked ==> {
                &&& after.facts.pages@.len() == n + 1
                &&& after.facts.pages@.take(n) == run.facts.pages@
                &&& after.facts.pages@[n].path@ == run.manifest.pages.entries@[n].0@
                &&& after.facts.pages@[n].page_id@ == run.manifest.pages.entries@[n].1.page_id@
                &&& bad ==> after.facts.pages@[n].finding == PageFinding::BadPath(why)
                &&& walked ==> after.facts.pages@[n].finding == told
                &&& after.facts.shards == run.facts.shards
                &&& after.facts.predecessor == run.facts.predecessor
                &&& after.facts.sessions == run.facts.sessions
                &&& after.facts.splits == run.facts.splits
                &&& after.manifest == run.manifest
            }
        }),
{
}

/// A chain ends at the last of the versions that were walked.
pub proof fn law_a_chain_ends_at_its_last_version(
    run: VerifyRun,
    after: VerifyRun,
    ids: Vec<String>,
    error: StoreError,
)
    requires
        run.stage is Walk,
    ensures
        verify_on(run, VerifyEvent::Walked(Ok(ids)), after) && ids@.len() > 0 ==> after.stage
            == VerifyStage::Read(Ok(Some(ids@[ids@.len() - 1]))),
        verify_on(run, VerifyEvent::Walked(Ok(ids)), after) && ids@.len() == 0 ==> after.stage
            == VerifyStage::Read(Ok(None)),
        verify_on(run, VerifyEvent::Walked(Err(error)), after) ==> after.stage
            == VerifyStage::Read(Err(error)),
        verify_on(run, VerifyEvent::Walked(Ok(ids)), after) ==> after.facts == run.facts,
{
}

/// A check keeps what it is told of every session and of every split, under its name and
/// behind what it knew before, and what could not be listed at all.
pub proof fn law_a_check_keeps_what_it_is_told_of_sessions_and_splits(
    run: VerifyRun,
    after: VerifyRun,
    chain: Result<(), StoreError>,
    objects: Result<usize, StoreError>,
    error: StoreError,
)
    ensures
        run.stage is Session && run.facts.sessions is Ok && verify_on(
            run,
            VerifyEvent::Session(chain),
            after,
        ) ==> (after.facts.sessions matches Ok(found) && found@.len()
            == run.facts.sessions->Ok_0@.len() + 1 && found@.drop_last()
            == run.facts.sessions->Ok_0@ && found@.last().chain == chain && found@.last().session@
            == run.sessions@[run.facts.sessions->Ok_0@.len() as int]@ && after.facts.pages
            == run.facts.pages && after.facts.splits == run.facts.splits),
        run.stage is Split && run.facts.splits is Ok && verify_on(
            run,
            VerifyEvent::Split(objects),
            after,
        ) ==> (after.facts.splits matches Ok(found) && found@.len()
            == run.facts.splits->Ok_0@.len() + 1 && found@.drop_last() == run.facts.splits->Ok_0@
            && found@.last().objects == objects && found@.last().prefix@
            == run.splits@[run.facts.splits->Ok_0@.len() as int]@ && after.facts.pages
            == run.facts.pages && after.facts.sessions == run.facts.sessions),
        run.stage is Sessions && verify_on(run, VerifyEvent::Sessions(Err(error)), after)
            ==> after.facts.sessions == Err::<Vec<SessionFact>, StoreError>(error)
            && after.facts.pages == run.facts.pages,
        run.stage is Catalog && verify_on(run, VerifyEvent::Catalog(Err(error)), after)
            ==> after.facts.splits == Err::<Vec<SplitFact>, StoreError>(error) && after.facts.pages
            == run.facts.pages,
{
}

/// A check asks for every page of the manifest before it turns to the sessions, and for every
/// session and every split that was listed.
pub proof fn law_a_check_asks_for_everything(run: VerifyRun, after: VerifyRun, event: VerifyEvent)
    requires
        verify_on(run, event, after),
        project_failure(after.facts) is None,
    ensures
        event is Read || (event matches VerifyEvent::Path(Err(_))) ==> (after.stage is Path
            <==> after.facts.pages@.len() != after.manifest.pages.entries@.len()) && (after.stage
            is Sessions <==> after.facts.pages@.len() == after.manifest.pages.entries@.len()),
        event is Session ==> (after.facts.sessions matches Ok(found) && (after.stage is Session
            <==> found@.len() != after.sessions@.len()) && (after.stage is Catalog
            <==> found@.len() == after.sessions@.len())),
        event is Split ==> (after.facts.splits matches Ok(found) && (after.stage is Split
            <==> found@.len() != after.splits@.len()) && (after.stage is Done <==> found@.len()
            == after.splits@.len())),
{
}

// ---- What is found alive ------------------------------------------------------------------

/// A run that looks for what is alive keeps every key that it is told: the links of each
/// chain, and the version at its head where that is current; the commits; the catalogue with
/// its splits; and each session.
pub proof fn law_a_live_run_keeps_every_key(
    run: LiveRun,
    after: LiveRun,
    start: String,
    links: Vec<LinkKeys>,
    keys: Vec<String>,
    catalog: Option<String>,
    session: SessionKeys,
)
    ensures
        run.stage is Chain && live_on(run, LiveEvent::Chain(Ok((start, links))), after) ==> {
            let n = run.facts.chains@.len() as int;
            &&& after.facts.chains@.len() == n + 1
            &&& after.facts.chains@.take(n) == run.facts.chains@
            &&& after.facts.chains@[n].links == links
            &&& run.heads@[n].current ==> after.facts.chains@[n].current == Some(start)
            &&& !run.heads@[n].current ==> after.facts.chains@[n].current is None
            &&& after.heads == run.heads
            &&& after.facts.commit_keys == run.facts.commit_keys
        },
        run.stage is Commits && live_on(run, LiveEvent::Commits(Ok(keys)), after)
            ==> after.facts.commit_keys == keys && after.facts.chains == run.facts.chains
            && after.stage is Catalog,
        run.stage is Catalog && live_on(run, LiveEvent::Catalog(Ok((catalog, keys))), after)
            ==> after.facts.catalog_key == catalog && after.facts.split_prefixes == keys
            && after.facts.chains == run.facts.chains && after.facts.commit_keys
            == run.facts.commit_keys && after.stage is Sessions,
        run.stage is Sessions && live_on(run, LiveEvent::Sessions(Ok(keys)), after)
            ==> after.sessions == keys && after.facts == run.facts,
        run.stage is Session && live_on(run, LiveEvent::Session(Ok(session)), after)
            ==> after.facts.sessions@ == run.facts.sessions@.push(session) && after.facts.chains
            == run.facts.chains && after.facts.split_prefixes == run.facts.split_prefixes,
{
    if run.stage is Chain && live_on(run, LiveEvent::Chain(Ok((start, links))), after) {
        let n = run.facts.chains@.len() as int;
        assert(after.facts.chains@.take(n) =~= run.facts.chains@);
    }
}

/// A live run walks every chain before it lists the commits, and reads every session that was
/// listed before it ends.
pub proof fn law_a_live_run_asks_for_everything(run: LiveRun, after: LiveRun, event: LiveEvent)
    requires
        live_on(run, event, after),
    ensures
        event is Chain ==> (after.stage is Chain <==> after.facts.chains@.len()
            < after.heads@.len()) && (after.stage is Commits <==> after.facts.chains@.len()
            >= after.heads@.len()),
        event is Sessions || event is Session ==> (after.stage is Session
            <==> after.facts.sessions@.len() < after.sessions@.len()) && (after.stage is Done
            <==> after.facts.sessions@.len() >= after.sessions@.len()),
{
}

// ---- Listings of a scope ------------------------------------------------------------------

/// A prefix within a scope stands under the prefix of the scope without the slashes around
/// it; without one it is the scope itself.
pub proof fn law_a_prefix_stands_under_its_scope(prefix: Seq<char>, within: Seq<char>)
    requires
        within.len() > 0,
        within[0] != '/',
        within.last() != '/',
        prefix.len() > 0,
    ensures
        full_prefix(prefix, within) == prefix + "/"@ + within,
        full_prefix(prefix, "/"@ + within + "/"@) == prefix + "/"@ + within,
        full_prefix(prefix, ""@) == prefix,
{
    reveal_strlit("/");
    reveal_strlit("");
    let n: int = within.len() as int;
    crate::search::mentions::law_a_trim_takes_both_ends(within, CharClass::Char('/'), 0, n);
    assert(within.subrange(0, n) =~= within);
    let both = "/"@ + within + "/"@;
    assert(both[1] == within[0] && both[n] == within.last());
    crate::search::mentions::law_a_trim_takes_both_ends(both, CharClass::Char('/'), 1, n + 1);
    assert(both.subrange(1, n + 1) =~= within);
    law_a_key_stands_under_its_prefix(prefix, Seq::empty(), within);
    assert(Seq::<char>::empty() + within =~= within);
    crate::search::mentions::law_a_trim_can_leave_nothing(""@, CharClass::Char('/'));
}

/// A listing names every object that the backend has, each by its key within the scope and
/// with its own tag and version.
pub proof fn law_a_listing_names_every_object(
    prefix: Seq<char>,
    raw: Seq<RawListed>,
    named: Seq<Listed>,
    i: int,
)
    requires
        named_as(prefix, raw, named),
        0 <= i < raw.len(),
    ensures
        named.len() == raw.len(),
        named[i].version.etag == raw[i].etag,
        named[i].version.version == raw[i].version,
        raw[i].etag is Some || raw[i].version is Some,
        prefix.len() == 0 ==> named[i].key@ == raw[i].location@,
{
    assert(named[i].key@ == crate::store::version::relative_key(prefix, raw[i].location@));
}

/// What is said of a path that is not accepted: an empty part, or the part and what is wrong
/// with it.
pub proof fn law_a_refused_path_is_told_why(part: Seq<char>)
    requires
        part.len() > 0,
        part[0] != '/',
        part.last() != '/',
        !part.contains('/'),
    ensures
        part == "."@ || part == ".."@ ==> checked_path(part) == Err::<Seq<char>, ErrorView>(
            ErrorView::Backend(
                "Error parsing Path \""@ + part
                    + "\": Encountered illegal character sequence \""@ + part
                    + "\" whilst parsing path segment \""@ + part + "\""@,
            ),
        ),
        is_segment(part) ==> checked_path(part) == Ok::<Seq<char>, ErrorView>(part),
{
    reveal_strlit(".");
    reveal_strlit("..");
    assert(seq!['.'] =~= "."@);
    assert(seq!['.', '.'] =~= ".."@);
    law_a_path_is_bare_and_made_of_parts(part);
    law_a_text_is_split_at_every_separator(part, Seq::empty(), '/');
    let parts = split_all(part, '/');
    assert(parts == seq![part]);
    assert(parts[0] == part);
    reveal_with_fuel(crate::store::version::bad_segment, 2);
    if is_segment(part) {
        assert forall|i: int| 0 <= i < parts.len() implies is_segment(#[trigger] parts[i]) by {}
    }
}

/// A part with a control character is refused: what is told names the first such character
/// and the part.
pub proof fn law_a_control_character_is_named(before: Seq<char>, c: char, after: Seq<char>)
    requires
        (c as int) < 32 || c as int == 127,
        forall|i: int|
            0 <= i < before.len() ==> 32 <= (#[trigger] before[i]) as int && before[i] as int != 127
                && before[i] != '/',
        !after.contains('/'),
    ensures
        ({
            let part = before + seq![c] + after;
            checked_path(part) == Err::<Seq<char>, ErrorView>(
                ErrorView::Backend(
                    "Error parsing Path \""@ + part
                        + "\": Encountered illegal character sequence \""@ + seq![c]
                        + "\" whilst parsing path segment \""@ + part + "\""@,
                ),
            )
        }),
{
    let part = before + seq![c] + after;
    let k: int = before.len() as int;
    assert(part[k] == c);
    assert forall|i: int| 0 <= i < part.len() implies #[trigger] part[i] != '/' by {
        if i < k {
            assert(part[i] == before[i]);
        } else if i > k {
            assert(part[i] == after[i - k - 1]);
            assert(after.contains(after[i - k - 1]));
        }
    }
    law_a_path_is_bare_and_made_of_parts(part);
    law_a_text_is_split_at_every_separator(part, Seq::empty(), '/');
    let parts = split_all(part, '/');
    assert(parts == seq![part]);
    assert(parts[0] == part);
    assert(crate::store::version::is_control(part[k]));
    assert(!is_segment(part));
    lemma_first_control(before, c, after);
}

/// The first control character of a text.
proof fn lemma_first_control(before: Seq<char>, c: char, after: Seq<char>)
    requires
        (c as int) < 32 || c as int == 127,
        forall|i: int|
            0 <= i < before.len() ==> 32 <= (#[trigger] before[i]) as int && before[i] as int
                != 127,
    ensures
        crate::store::version::first_control(before + seq![c] + after) == seq![c],
    decreases before.len(),
{
    let text = before + seq![c] + after;
    if before.len() > 0 {
        let rest = before.skip(1);
        assert(text[0] == before[0]);
        assert forall|i: int| 0 <= i < rest.len() implies 32 <= (#[trigger] rest[i]) as int
            && rest[i] as int != 127 by {
            assert(rest[i] == before[i + 1]);
        }
        lemma_first_control(rest, c, after);
        assert(text.skip(1) =~= rest + seq![c] + after);
    } else {
        assert(text[0] == c);
    }
}

/// An object that has a tag or a version is named in a listing; one that has neither is not.
pub proof fn law_a_tag_or_a_version_is_enough(prefix: Seq<char>, raw: RawListed, named: Listed)
    requires
        named.key@ == crate::store::version::relative_key(prefix, raw.location@),
        named.version.etag == raw.etag,
        named.version.version == raw.version,
    ensures
        named_as(prefix, seq![raw], seq![named]) <==> raw.etag is Some || raw.version is Some,
{
    let list = seq![raw];
    assert(list[0] == raw);
    assert(seq![named][0] == named);
    if named_as(prefix, list, seq![named]) {
        assert(list[0].etag is Some || list[0].version is Some);
    }
}

/// Nothing is alive that no fact names: a key is one of those that were gathered, or a prefix
/// of a split that the current catalogue lists.
pub proof fn law_nothing_else_is_alive(facts: LiveFacts, key: Seq<char>)
    ensures
        names_prefix(facts, key) <==> facts.catalog_key is Some && exists|n: int|
            0 <= n < facts.split_prefixes@.len() && (#[trigger] facts.split_prefixes@[n])@ == key,
        names_key(facts, key) ==> {
            ||| key == facts.manifest_key@
            ||| exists|n: int|
                0 <= n < facts.shard_keys@.len() && (#[trigger] facts.shard_keys@[n])@ == key
            ||| (facts.predecessor_key matches Some(last) && last@ == key)
            ||| exists|c: int|
                0 <= c < facts.chains@.len() && ({
                    let chain = #[trigger] facts.chains@[c];
                    ||| (chain.current matches Some(head) && head@ == key)
                    ||| exists|i: int|
                        0 <= i < chain.links@.len() && ((#[trigger] chain.links@[i]).wal@ == key
                            || chain.links@[i].page@ == key)
                })
            ||| exists|n: int|
                0 <= n < facts.commit_keys@.len() && (#[trigger] facts.commit_keys@[n])@ == key
            ||| key == facts.catalog_head_key@
            ||| (facts.catalog_key matches Some(current) && current@ == key)
            ||| exists|s: int|
                0 <= s < facts.sessions@.len() && ({
                    let session = #[trigger] facts.sessions@[s];
                    ||| session.head@ == key
                    ||| exists|n: int|
                        0 <= n < session.segments@.len() && (#[trigger] session.segments@[n])@
                            == key
                })
        },
{
    lemma_text_stands(facts.split_prefixes@, key);
    lemma_text_stands(facts.shard_keys@, key);
    lemma_text_stands(facts.commit_keys@, key);
    assert forall|s: int|
        0 <= s < facts.sessions@.len() && #[trigger] crate::store::gc::session_names(
            facts.sessions@[s],
            key,
        ) implies facts.sessions@[s].head@ == key || exists|n: int|
        0 <= n < facts.sessions@[s].segments@.len() && (#[trigger] facts.sessions@[s].segments@[n])@
            == key by {
        lemma_text_stands(facts.sessions@[s].segments@, key);
    }
}

/// A text is one of a list's texts where one of its members says it.
proof fn lemma_text_stands(list: Seq<String>, key: Seq<char>)
    ensures
        texts(list).contains(key) <==> exists|n: int|
            0 <= n < list.len() && (#[trigger] list[n])@ == key,
{
    if texts(list).contains(key) {
        let n: int = choose|n: int| 0 <= n < texts(list).len() && texts(list)[n] == key;
        assert(list[n]@ == key);
    }
    if exists|n: int| 0 <= n < list.len() && (#[trigger] list[n])@ == key {
        let n: int = choose|n: int| 0 <= n < list.len() && (#[trigger] list[n])@ == key;
        assert(texts(list)[n] == key);
    }
}

} // verus!
