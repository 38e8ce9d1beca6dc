//! What the probes do from their start to their end.

use vstd::prelude::*;

use crate::numbers::{decimal, signed};
use crate::probe::config::{configured, either, missing, path_style, setting, variable};
use crate::probe::pages::{page_of, pages_upto, text_behind, SourcePageView};
use crate::probe::scenario::{
    commit_view, run_failures, with_chain, with_chains, with_links, ChainFact, ScenarioFacts,
    VersionFact,
};
use crate::probe::seed::{
    batch, seed_on, BatonView, CommitRecordView, SeedActionView, SeedEventView, SeedRunView,
    SeedStep, SeedView, SessionView,
};
use crate::search::compile::blank;
use crate::store::commit::CommitRequestView;
use crate::store::probe::{
    literal_byte, literal_bytes, passed, probe_on, rendered, spelled_error, spelled_option,
    spelled_write, ProbeActionView, ProbeEventView, ProbeView, StageView, StepView, WriteView,
};
use crate::store::records::{HandoffView, ObservationView};
use crate::store::version::{error_message, ErrorView, HandoffState, VersionView};
use crate::text::{opt_text, quoted, texts};

verus! {

// ---- Conditional writes -------------------------------------------------------------------

/// Whether a reply is an error of a lost conditional write.
pub open spec fn refused(reply: WriteView) -> bool {
    reply matches Err(error) && error is Precondition
}

/// The probe creates an object, tries to create it again, reads it, tries an update against
/// a tag that never was, updates against the tag that it read, tries that tag once more, and
/// reads the end; it succeeds if and only if the backend kept every promise.
pub proof fn law_the_course_of_the_probe(
    created: VersionView,
    duplicate: WriteView,
    read: (Seq<u8>, VersionView),
    stale: WriteView,
    updated: VersionView,
    replay: WriteView,
    last: (Seq<u8>, VersionView),
)
    ensures
        ({
            let start = ProbeView { stage: StageView::Create, steps: Seq::empty() };
            let first = probe_on(start, ProbeEventView::Written(Ok(created)));
            let second = probe_on(first.0, ProbeEventView::Written(duplicate));
            let third = probe_on(second.0, ProbeEventView::Read(Ok(read)));
            let fourth = probe_on(third.0, ProbeEventView::Written(stale));
            let fifth = probe_on(fourth.0, ProbeEventView::Written(Ok(updated)));
            let sixth = probe_on(fifth.0, ProbeEventView::Written(replay));
            let end = probe_on(sixth.0, ProbeEventView::Read(Ok(last)));
            let kept = created.etag is Some && (duplicate matches Err(error) && (error
                is Precondition || error is AlreadyExists)) && read.1.etag == created.etag
                && refused(stale) && updated.etag is Some && updated.etag != read.1.etag && refused(
                replay,
            ) && last.0 == seq![118u8, 51u8];
            &&& first.1 == ProbeActionView::Create("v2"@)
            &&& second.1 is Read
            &&& third.1 == ProbeActionView::Update(
                "v3"@,
                VersionView { etag: Some("deadbeef-not-a-real-etag"@), version: None },
            )
            &&& fourth.1 == ProbeActionView::Update("v3"@, read.1)
            &&& fifth.1 == ProbeActionView::Update("v4"@, read.1)
            &&& sixth.1 is Read
            &&& end.0.steps.len() == 7
            &&& end.0.steps[0].name == "create-returns-etag"@
            &&& end.0.steps[1].name == "duplicate-create-rejected"@
            &&& end.0.steps[2].name == "etag-stable-across-read"@
            &&& end.0.steps[3].name == "stale-etag-rejected"@
            &&& end.0.steps[4].name == "matching-etag-accepted"@
            &&& end.0.steps[5].name == "consumed-etag-rejected"@
            &&& end.0.steps[6].name == "final-content"@
            &&& kept ==> end.1 == ProbeActionView::Finish(Ok(end.0.steps))
            &&& !kept ==> end.1 == ProbeActionView::Finish(
                Err("conditional-write conformance failed:\n"@ + rendered(end.0.steps)),
            )
        }),
{
    let start = ProbeView { stage: StageView::Create, steps: Seq::empty() };
    let first = probe_on(start, ProbeEventView::Written(Ok(created)));
    let second = probe_on(first.0, ProbeEventView::Written(duplicate));
    let third = probe_on(second.0, ProbeEventView::Read(Ok(read)));
    let fourth = probe_on(third.0, ProbeEventView::Written(stale));
    let fifth = probe_on(fourth.0, ProbeEventView::Written(Ok(updated)));
    let sixth = probe_on(fifth.0, ProbeEventView::Written(replay));
    let end = probe_on(sixth.0, ProbeEventView::Read(Ok(last)));
    let steps = end.0.steps;
    assert(steps[0].ok == (created.etag is Some));
    assert(steps[1].ok == (duplicate matches Err(error) && (error is Precondition || error
        is AlreadyExists)));
    assert(steps[2].ok == (read.1.etag == created.etag && created.etag is Some));
    assert(steps[3].ok == refused(stale));
    assert(steps[4].ok == (updated.etag is Some && updated.etag != read.1.etag));
    assert(steps[5].ok == refused(replay));
    assert(steps[6].ok == (last.0 == seq![118u8, 51u8]));
}

/// A probe that cannot go on says where it broke off and what the store said.
pub proof fn law_a_probe_that_breaks_off_says_where(probe: ProbeView, error: ErrorView)
    ensures
        probe.stage is Create ==> probe_on(probe, ProbeEventView::Written(Err(error))).1
            == ProbeActionView::Finish(Err("create failed: "@ + error_message(error))),
        probe.stage is ReadBack ==> probe_on(probe, ProbeEventView::Read(Err(error))).1
            == ProbeActionView::Finish(Err("read-back failed: "@ + error_message(error))),
        probe.stage is Matching ==> probe_on(probe, ProbeEventView::Written(Err(error))).1
            == ProbeActionView::Finish(Err("matching update failed: "@ + error_message(error))),
        probe.stage is Final ==> probe_on(probe, ProbeEventView::Read(Err(error))).1
            == ProbeActionView::Finish(Err("final read failed: "@ + error_message(error))),
{
}

/// A report has a line for each step, with its outcome, its name and its details.
pub proof fn law_a_report_has_a_line_for_each_step(steps: Seq<StepView>, one: StepView)
    ensures
        rendered(Seq::<StepView>::empty()).len() == 0,
        one.ok ==> rendered(seq![one]) == "PASS"@ + " "@ + one.name + " — "@ + one.detail,
        !one.ok ==> rendered(seq![one]) == "FAIL"@ + " "@ + one.name + " — "@ + one.detail,
        steps.len() > 0 ==> rendered(steps.push(one)) == rendered(steps) + "\n"@ + rendered(
            seq![one],
        ),
        passed(steps) && one.ok ==> passed(steps.push(one)),
        !one.ok ==> !passed(steps.push(one)),
{
    assert(steps.push(one).drop_last() =~= steps);
    if !one.ok {
        assert(steps.push(one)[steps.len() as int] == one);
    }
}

/// Bytes are spelled as they are where they can be printed, and escaped otherwise.
pub proof fn law_bytes_are_spelled(b: u8)
    ensures
        literal_byte(10) == "\\n"@,
        literal_byte(13) == "\\r"@,
        literal_byte(9) == "\\t"@,
        literal_byte(0) == "\\0"@,
        0x20 <= b < 0x7f && b != 34 && b != 92 ==> literal_byte(b) == seq![b as char],
        b == 34 || b == 92 ==> literal_byte(b) == seq!['\\', b as char],
        b >= 0x7f || (b < 0x20 && b != 0 && b != 9 && b != 10 && b != 13) ==> literal_byte(b)
            == seq![
            '\\',
            'x',
            "0123456789abcdef"@[b as int / 16],
            "0123456789abcdef"@[b as int % 16],
        ],
{
    reveal_strlit("0123456789abcdef");
    let table = "0123456789abcdef"@;
    assert forall|n: int| 0 <= n < 16 implies #[trigger] crate::store::probe::hex_digit(n)
        == table[n] by {
        assert(n == 0 || n == 1 || n == 2 || n == 3 || n == 4 || n == 5 || n == 6 || n == 7 || n
            == 8 || n == 9 || n == 10 || n == 11 || n == 12 || n == 13 || n == 14 || n == 15);
    }
    assert(crate::store::probe::hex_digit(b as int / 16) == table[b as int / 16]);
    assert(crate::store::probe::hex_digit(b as int % 16) == table[b as int % 16]);
}

// ---- Settings -----------------------------------------------------------------------------

/// A setting is the value of the first variable of its name, unless that is blank.
pub proof fn law_a_setting_is_found_by_its_name(
    env: Seq<(String, String)>,
    name: Seq<char>,
    at: int,
)
    requires
        0 <= at < env.len(),
        env[at].0@ == name,
        forall|i: int| 0 <= i < at ==> (#[trigger] env[i]).0@ != name,
    ensures
        !blank(env[at].1@) ==> setting(env, name) == Some(env[at].1@),
        blank(env[at].1@) ==> setting(env, name) is None,
{
    lemma_variable(env, name, 0, at);
}

proof fn lemma_variable(env: Seq<(String, String)>, name: Seq<char>, from: int, at: int)
    requires
        0 <= from <= at < env.len(),
        env[at].0@ == name,
        forall|i: int| from <= i < at ==> (#[trigger] env[i]).0@ != name,
    ensures
        variable(env, name, from) == Some(env[at].1@),
    decreases at - from,
{
    if from < at {
        assert(env[from].0@ != name);
        lemma_variable(env, name, from + 1, at);
    }
}

/// The value of a setting, or of the one that stands in for it.
pub open spec fn one_of(
    env: Seq<(String, String)>,
    first: Seq<char>,
    second: Seq<char>,
) -> Option<Seq<char>> {
    if setting(env, first) is Some {
        setting(env, first)
    } else {
        setting(env, second)
    }
}

/// The settings of a backend: its endpoint, its bucket and its keys must be set, under
/// either of their names; the region, the path style and the prefix have defaults.
pub proof fn law_the_settings_of_a_backend(env: Seq<(String, String)>)
    ensures
        ({
            let endpoint = one_of(env, "QM_S3_ENDPOINT"@, "R2_ENDPOINT"@);
            let bucket = one_of(env, "QM_S3_BUCKET"@, "R2_BUCKET"@);
            let key = one_of(env, "QM_S3_ACCESS_KEY_ID"@, "R2_ACCESS_KEY_ID"@);
            let secret = one_of(env, "QM_S3_SECRET_ACCESS_KEY"@, "R2_SECRET_ACCESS_KEY"@);
            &&& configured(env) is Ok <==> endpoint is Some && bucket is Some && key is Some
                && secret is Some
            &&& configured(env) matches Ok(config) ==> {
                &&& Some(config.endpoint) == endpoint
                &&& Some(config.bucket) == bucket
                &&& Some(config.access_key_id) == key
                &&& Some(config.secret_access_key) == secret
                &&& config.region == (if setting(env, "QM_S3_REGION"@) is Some {
                    setting(env, "QM_S3_REGION"@)->0
                } else {
                    "auto"@
                })
                &&& config.prefix == (if setting(env, "QM_S3_PREFIX"@) is Some {
                    setting(env, "QM_S3_PREFIX"@)->0
                } else {
                    "qm-probe"@
                })
                &&& config.force_path_style <==> setting(env, "QM_S3_FORCE_PATH_STYLE"@) != Some(
                    "0"@,
                ) && setting(env, "QM_S3_FORCE_PATH_STYLE"@) != Some("false"@) && setting(
                    env,
                    "QM_S3_FORCE_PATH_STYLE"@,
                ) != Some("no"@)
            }
            &&& endpoint is None ==> configured(env) == Err::<
                crate::probe::config::S3ConfigView,
                Seq<char>,
            >(
                "missing "@ + "S3 endpoint"@ + "; set one of ["@ + quoted("QM_S3_ENDPOINT"@)
                    + ", "@ + quoted("R2_ENDPOINT"@)
                    + "] (a probe that cannot reach the backend must fail, not skip)"@,
            )
        }),
{
}

// ---- Pages --------------------------------------------------------------------------------

/// A text is found behind the first member of its name.
pub proof fn law_a_text_is_found_behind_its_name(
    members: Seq<(Seq<char>, Option<Seq<char>>)>,
    name: Seq<char>,
    from: int,
    at: int,
)
    requires
        0 <= from <= at < members.len(),
        members[at].0 == name,
        forall|i: int| from <= i < at ==> (#[trigger] members[i]).0 != name,
    ensures
        text_behind(members, name, from) == members[at].1,
    decreases at - from,
{
    if from < at {
        assert(members[from].0 != name);
        law_a_text_is_found_behind_its_name(members, name, from + 1, at);
    }
}

/// A page of a source has the texts behind `path`, `title` and `body`; the first of them that
/// is missing is named with the file and the line.
pub proof fn law_a_source_page_has_its_texts(
    file: Seq<char>,
    line: nat,
    members: Seq<(Seq<char>, Option<Seq<char>>)>,
    why: Seq<char>,
)
    ensures
        ({
            let path = text_behind(members, "path"@, 0);
            let title = text_behind(members, "title"@, 0);
            let body = text_behind(members, "body"@, 0);
            let page = page_of(file, line, Ok(Some(members)));
            &&& path is Some && title is Some && body is Some ==> page == Ok::<
                SourcePageView,
                Seq<char>,
            >(SourcePageView { path: path->0, title: title->0, body: body->0 })
            &&& path is None ==> page == Err::<SourcePageView, Seq<char>>(
                file + ":"@ + decimal(line) + " has no string `"@ + "path"@ + "`"@,
            )
            &&& path is Some && title is None ==> page == Err::<SourcePageView, Seq<char>>(
                file + ":"@ + decimal(line) + " has no string `"@ + "title"@ + "`"@,
            )
            &&& path is Some && title is Some && body is None ==> page == Err::<
                SourcePageView,
                Seq<char>,
            >(file + ":"@ + decimal(line) + " has no string `"@ + "body"@ + "`"@)
        }),
        page_of(file, line, Err(why)) == Err::<SourcePageView, Seq<char>>(
            "parsing "@ + file + ":"@ + decimal(line) + ": "@ + why,
        ),
{
}

/// Every line of a source that is not blank is a page, in order, and the first that is none
/// ends the reading; lines are counted from one.
pub proof fn law_every_line_is_a_page(file: Seq<char>, lines: Seq<Seq<char>>, n: int)
    requires
        0 <= n < lines.len(),
    ensures
        ({
            let before = pages_upto(file, lines, n);
            let after = pages_upto(file, lines, n + 1);
            let page = page_of(
                file,
                (n + 1) as nat,
                crate::probe::pages::json_members(lines[n]),
            );
            &&& before is Err ==> after == before
            &&& before is Ok && blank(lines[n]) ==> after == before
            &&& before is Ok && !blank(lines[n]) && page is Ok ==> after == Ok::<
                Seq<SourcePageView>,
                Seq<char>,
            >(before->Ok_0.push(page->Ok_0))
            &&& before is Ok && !blank(lines[n]) && page is Err ==> after == Err::<
                Seq<SourcePageView>,
                Seq<char>,
            >(page->Err_0)
        }),
        pages_upto(file, lines, 0) == Ok::<Seq<SourcePageView>, Seq<char>>(Seq::empty()),
{
}

// ---- Many machines ------------------------------------------------------------------------

/// What a machine commits: its own page, in its versions, under its own name.
pub proof fn law_a_machine_commits_its_own_page(
    workspace: Seq<char>,
    project: Seq<char>,
    machine: nat,
    version: nat,
)
    requires
        version <= i64::MAX,
    ensures
        ({
            let request = commit_view(workspace, project, machine, version);
            &&& request.workspace_id == workspace
            &&& request.project_id == project
            &&& request.path == "notes/probe/m"@ + decimal(machine) + ".md"@
            &&& request.title == "probe m"@ + decimal(machine)
            &&& request.body == "body v"@ + decimal(version)
            &&& request.writer_id == "probe-"@ + decimal(machine)
            &&& request.now_ms == version
        }),
{
}

proof fn lemma_links_add(list: Seq<Seq<char>>, path: Seq<char>, history: Seq<VersionFact>, n: int)
    ensures
        list.len() <= with_links(list, path, history, n).len(),
        with_links(list, path, history, n).take(list.len() as int) == list,
    decreases n,
{
    if n > 1 {
        lemma_links_add(list, path, history, n - 1);
        let before = with_links(list, path, history, n - 1);
        let all = with_links(list, path, history, n);
        assert(all.take(list.len() as int) =~= before.take(list.len() as int));
    } else {
        assert(list.take(list.len() as int) =~= list);
    }
}

proof fn lemma_chain_adds(list: Seq<Seq<char>>, chain: ChainFact, writes: nat)
    ensures
        list.len() <= with_chain(list, chain, writes).len(),
        with_chain(list, chain, writes).take(list.len() as int) == list,
{
    let path = chain.path@;
    let history = chain.history@;
    let all = with_chain(list, chain, writes);
    if history.len() == writes {
        let first = crate::probe::scenario::noted(
            list,
            history[0].supersedes is Some,
            path + ": first version supersedes something"@,
        );
        let links = with_links(first, path, history, history.len() as int);
        lemma_links_add(first, path, history, history.len() as int);
        assert(links.take(list.len() as int) =~= links.take(first.len() as int).take(
            list.len() as int,
        ));
        assert(first.take(list.len() as int) =~= list);
        assert(all.take(list.len() as int) =~= links.take(list.len() as int));
    } else {
        assert(all.take(list.len() as int) =~= list);
    }
}

proof fn lemma_chains_add(list: Seq<Seq<char>>, chains: Seq<ChainFact>, writes: nat)
    ensures
        list.len() <= with_chains(list, chains, writes).len(),
        with_chains(list, chains, writes).take(list.len() as int) == list,
    decreases chains.len(),
{
    if chains.len() > 0 {
        lemma_chains_add(list, chains.drop_last(), writes);
        let before = with_chains(list, chains.drop_last(), writes);
        lemma_chain_adds(before, chains.last(), writes);
        let all = with_chains(list, chains, writes);
        assert(all.take(list.len() as int) =~= all.take(before.len() as int).take(
            list.len() as int,
        ));
        assert(before.take(list.len() as int) =~= list);
    } else {
        assert(list.take(list.len() as int) =~= list);
    }
}

proof fn lemma_chain_told(list: Seq<Seq<char>>, chains: Seq<ChainFact>, writes: nat, i: int)
    requires
        0 <= i < chains.len(),
        with_chain(Seq::empty(), chains[i], writes).len() > 0,
    ensures
        with_chains(list, chains, writes).len() > list.len(),
    decreases chains.len(),
{
    let front = chains.drop_last();
    let before = with_chains(list, front, writes);
    lemma_chains_add(list, front, writes);
    lemma_chain_adds(before, chains.last(), writes);
    if i < front.len() {
        lemma_chain_told(list, front, writes, i);
    } else {
        lemma_chain_grows(before, chains.last(), writes);
    }
}

proof fn lemma_chain_grows(list: Seq<Seq<char>>, chain: ChainFact, writes: nat)
    ensures
        with_chain(list, chain, writes).len() == list.len() + with_chain(
            Seq::empty(),
            chain,
            writes,
        ).len(),
{
    let path = chain.path@;
    let history = chain.history@;
    if history.len() == writes {
        let what = path + ": first version supersedes something"@;
        let a = crate::probe::scenario::noted(list, history[0].supersedes is Some, what);
        let b = crate::probe::scenario::noted(Seq::empty(), history[0].supersedes is Some, what);
        lemma_links_grow(a, path, history, history.len() as int);
        lemma_links_grow(b, path, history, history.len() as int);
    }
}

proof fn lemma_links_grow(list: Seq<Seq<char>>, path: Seq<char>, history: Seq<VersionFact>, n: int)
    ensures
        with_links(list, path, history, n).len() == list.len() + with_links(
            Seq::empty(),
            path,
            history,
            n,
        ).len(),
    decreases n,
{
    if n > 1 {
        lemma_links_grow(list, path, history, n - 1);
    }
}

proof fn lemma_broken_link(path: Seq<char>, history: Seq<VersionFact>, n: int, k: int)
    requires
        1 <= k < n <= history.len(),
        opt_text(history[k].supersedes) != Some(history[k - 1].page_id@),
    ensures
        with_links(Seq::empty(), path, history, n).len() > 0,
    decreases n,
{
    if k < n - 1 {
        lemma_broken_link(path, history, n - 1, k);
    }
}

/// A run of many machines is found wanting wherever a commit, a page or a record is missing,
/// a chain has the wrong length, its first version supersedes something, a link of it is
/// broken, its order is not that of the commits, or its head is not the last version.
pub proof fn law_every_loss_of_a_run_is_noticed(
    facts: ScenarioFacts,
    machines: nat,
    writes: nat,
    i: int,
    k: int,
)
    requires
        writes > 0,
    ensures
        facts.manifest_seq != machines * writes ==> run_failures(facts, machines, writes).len() > 0,
        facts.manifest_pages != machines ==> run_failures(facts, machines, writes).len() > 0,
        facts.wal_records != machines * writes ==> run_failures(facts, machines, writes).len() > 0,
        0 <= i < facts.chains@.len() && facts.chains@[i].history@.len() != writes ==> run_failures(
            facts,
            machines,
            writes,
        ).len() > 0,
        0 <= i < facts.chains@.len() && facts.chains@[i].history@.len() > 0
            && facts.chains@[i].history@[0].supersedes is Some ==> run_failures(
            facts,
            machines,
            writes,
        ).len() > 0,
        0 <= i < facts.chains@.len() && 1 <= k < facts.chains@[i].history@.len() && opt_text(
            facts.chains@[i].history@[k].supersedes,
        ) != Some(facts.chains@[i].history@[k - 1].page_id@) ==> run_failures(
            facts,
            machines,
            writes,
        ).len() > 0,
        0 <= i < facts.chains@.len() && opt_text(facts.chains@[i].head) != Some(
            "body v"@ + decimal((writes - 1) as nat),
        ) ==> run_failures(facts, machines, writes).len() > 0,
{
    let expected: nat = machines * writes;
    let commits = crate::probe::scenario::noted(
        Seq::empty(),
        facts.manifest_seq != expected,
        "commit sequence "@ + decimal(facts.manifest_seq as nat) + " != "@ + decimal(expected)
            + " expected commits"@,
    );
    let pages = crate::probe::scenario::noted(
        commits,
        facts.manifest_pages != machines,
        "manifest has "@ + decimal(facts.manifest_pages as nat) + " pages, expected "@ + decimal(
            machines,
        ),
    );
    lemma_chains_add(pages, facts.chains@, writes);
    if 0 <= i < facts.chains@.len() {
        let chain = facts.chains@[i];
        let history = chain.history@;
        let path = chain.path@;
        let told = with_chain(Seq::empty(), chain, writes);
        if history.len() == writes {
            let first = crate::probe::scenario::noted(
                Seq::empty(),
                history[0].supersedes is Some,
                path + ": first version supersedes something"@,
            );
            lemma_links_add(first, path, history, history.len() as int);
            lemma_links_grow(first, path, history, history.len() as int);
            if 1 <= k < history.len() && opt_text(history[k].supersedes) != Some(
                history[k - 1].page_id@,
            ) {
                lemma_broken_link(path, history, history.len() as int, k);
            }
        }
        if told.len() > 0 {
            lemma_chain_told(pages, facts.chains@, writes, i);
        }
    }
}

// ---- The seed of a digest -----------------------------------------------------------------

/// What the seed writes first: two pages, of which the second is deleted, each at its time.
pub proof fn law_the_seed_writes_two_pages(run: SeedRunView, seq: u64, deleted: u64)
    requires
        run.step is Alpha,
    ensures
        ({
            let one = seed_on(run, SeedEventView::Committed(Ok(seq)));
            let two = seed_on(one.0, SeedEventView::Committed(Ok(seq)));
            let gone = seed_on(two.0, SeedEventView::Deleted(Ok((deleted, false, true))));
            &&& one.1 == SeedActionView::Commit(
                CommitRequestView {
                    workspace_id: "probe-digest-ws"@,
                    project_id: "probe-digest-proj"@,
                    path: "notes/beta.md"@,
                    title: "notes/beta.md"@,
                    body: "body of "@ + "notes/beta.md"@,
                    writer_id: "probe-digest"@,
                    now_ms: 1_000,
                },
            )
            &&& two.1 == SeedActionView::Delete("notes/beta.md"@, 2_000)
            &&& gone.1 == SeedActionView::Ingest(
                "probe-sess-new"@,
                2_100,
                seq!["wrote the digest probe"@],
            )
            &&& gone.0.report.commits == run.report.commits.push(
                CommitRecordView {
                    seq,
                    at_ms: 3_000,
                    kind: "page_written"@,
                    path: "notes/alpha.md"@,
                },
            ).push(
                CommitRecordView { seq, at_ms: 1_000, kind: "page_written"@, path: "notes/beta.md"@ },
            ).push(
                CommitRecordView {
                    seq: deleted,
                    at_ms: 2_000,
                    kind: "page_deleted"@,
                    path: "notes/beta.md"@,
                },
            )
            &&& gone.0.report.sessions == run.report.sessions
            &&& gone.0.report.handoffs == run.report.handoffs
        }),
{
}

/// What the seed writes next: two sessions, the first in two batches; a batch that was not
/// taken in whole ends it.
pub proof fn law_the_seed_writes_two_sessions(
    run: SeedRunView,
    count: u64,
    older: u64,
    short: usize,
)
    requires
        run.step is First,
    ensures
        ({
            let one = seed_on(run, SeedEventView::Ingested(Ok((1, count))));
            let two = seed_on(one.0, SeedEventView::Ingested(Ok((2, count))));
            let three = seed_on(two.0, SeedEventView::Ingested(Ok((1, older))));
            &&& one.1 == SeedActionView::Ingest(
                "probe-sess-new"@,
                2_600,
                seq!["checked ordering"@, "kept the deletion"@],
            )
            &&& two.1 == SeedActionView::Ingest("probe-sess-old"@, 800, seq!["an older session"@])
            &&& three.1 == SeedActionView::Open(
                "carry the digest work"@,
                "the S3 stub leg still needs a reader"@,
                400,
            )
            &&& three.0.report.sessions == run.report.sessions.push(
                SessionView {
                    session_id: "probe-sess-new"@,
                    observations: count,
                    last_seen_ms: 2_600,
                },
            ).push(
                SessionView { session_id: "probe-sess-old"@, observations: older, last_seen_ms: 800 },
            )
            &&& three.0.report.commits == run.report.commits
            &&& short != 1 ==> seed_on(run, SeedEventView::Ingested(Ok((short, count)))).1
                == SeedActionView::Done(
                Err(
                    "session "@ + "probe-sess-new"@ + " committed "@ + decimal(short as nat)
                        + " of "@ + decimal(1) + " observations"@,
                ),
            )
        }),
{
}

/// What the seed writes last: three handoffs, the first claimed and finished, each as the
/// store says it was left; the report then has them all.
pub proof fn law_the_seed_leaves_three_handoffs(
    run: SeedRunView,
    first: HandoffView,
    claimed: HandoffView,
    finished: HandoffView,
    later: HandoffView,
    early: HandoffView,
    fresh: bool,
)
    requires
        run.step is Open,
        finished.finished_at_ms == Some(3_200i64),
        finished.created_at_ms <= 3_200,
        finished.claimed_at_ms matches Some(at) ==> at <= 3_200,
    ensures
        ({
            let opened = seed_on(run, SeedEventView::Opened(Ok((first, true))));
            let taken = seed_on(opened.0, SeedEventView::Claimed(Ok(claimed)));
            let done = seed_on(taken.0, SeedEventView::Finished(Ok(finished)));
            let next = seed_on(done.0, SeedEventView::Opened(Ok((later, fresh))));
            let last = seed_on(next.0, SeedEventView::Opened(Ok((early, fresh))));
            &&& opened.1 == SeedActionView::Claim(first.id, 900)
            &&& taken.1 == SeedActionView::Finish(claimed.id, 3_200)
            &&& done.1 == SeedActionView::Open(
                "a later baton"@,
                "opened inside the window"@,
                2_800,
            )
            &&& next.1 == SeedActionView::Open(
                "an early baton"@,
                "every stage is before the window"@,
                300,
            )
            &&& last.1 matches SeedActionView::Done(Ok(report))
            &&& report.commits == run.report.commits
            &&& report.sessions == run.report.sessions
            &&& report.handoffs == run.report.handoffs.push(
                BatonView {
                    id: finished.id,
                    created_at_ms: finished.created_at_ms,
                    claimed_at_ms: finished.claimed_at_ms,
                    finished_at_ms: finished.finished_at_ms,
                },
            ).push(
                BatonView {
                    id: later.id,
                    created_at_ms: later.created_at_ms,
                    claimed_at_ms: later.claimed_at_ms,
                    finished_at_ms: later.finished_at_ms,
                },
            ).push(
                BatonView {
                    id: early.id,
                    created_at_ms: early.created_at_ms,
                    claimed_at_ms: early.claimed_at_ms,
                    finished_at_ms: early.finished_at_ms,
                },
            )
        }),
{
    crate::store::sessions::law_the_last_touch_of_a_handoff(finished);
}

/// The observations of a batch are its texts in order, each with its id and a millisecond
/// after the one before.
pub proof fn law_a_batch_is_its_texts(
    schema: u32,
    session: Seq<char>,
    list: Seq<Seq<char>>,
    ids: Seq<Seq<char>>,
    at_ms: int,
    i: int,
)
    requires
        0 <= i < list.len(),
        i64::MIN <= at_ms,
        at_ms + list.len() <= i64::MAX,
    ensures
        batch(schema, session, list, ids, at_ms).len() == list.len(),
        batch(schema, session, list, ids, at_ms)[i] == (ObservationView {
            schema,
            observation_id: ids[i],
            session_id: session,
            actor: "probe"@,
            kind: "tool_use"@,
            text: list[i],
            created_at_ms: (at_ms + i) as i64,
        }),
        batch(schema, session, list, ids, at_ms)[i].created_at_ms == at_ms + i,
{
}

// ---- What the steps tell ------------------------------------------------------------------

/// How an optional text, a reply and its error are told.
pub proof fn law_replies_are_told(version: VersionView, text: Seq<char>, other: Seq<char>, n: nat)
    ensures
        spelled_option(None) == "None"@,
        spelled_option(Some(text)) == "Some("@ + quoted(text) + ")"@,
        spelled_write(Ok(version)) == "Ok(ObjectVersion { etag: "@ + spelled_option(version.etag)
            + ", version: "@ + spelled_option(version.version) + " })"@,
        spelled_write(Err(ErrorView::NotFound)) == "Err("@ + "NotFound"@ + ")"@,
        spelled_write(Err(ErrorView::Precondition)) == "Err("@ + "Precondition"@ + ")"@,
        spelled_write(Err(ErrorView::AlreadyExists)) == "Err("@ + "AlreadyExists"@ + ")"@,
        spelled_write(Err(ErrorView::MissingEtag)) == "Err("@ + "MissingEtag"@ + ")"@,
        spelled_error(ErrorView::Conflict(n)) == "Conflict { attempts: "@ + decimal(n) + " }"@,
        spelled_error(ErrorView::Corrupt(text)) == "Corrupt("@ + quoted(text) + ")"@,
        spelled_error(ErrorView::Backend(text)) == "Backend("@ + quoted(text) + ")"@,
        spelled_error(ErrorView::HandoffOwnedByAnother(text, other))
            == "HandoffOwnedByAnother { id: "@ + quoted(text) + ", owner: "@ + quoted(other)
            + " }"@,
        spelled_error(ErrorView::HandoffNotOpen(text, HandoffState::Open))
            == "HandoffNotOpen { id: "@ + quoted(text) + ", state: "@ + "Open"@ + " }"@,
        spelled_error(ErrorView::HandoffNotOpen(text, HandoffState::Claimed))
            == "HandoffNotOpen { id: "@ + quoted(text) + ", state: "@ + "Claimed"@ + " }"@,
        spelled_error(ErrorView::HandoffNotOpen(text, HandoffState::Done))
            == "HandoffNotOpen { id: "@ + quoted(text) + ", state: "@ + "Done"@ + " }"@,
{
}

/// Every step tells the tags that were compared or the reply that was judged, behind the steps
/// before it.
pub proof fn law_every_step_tells_what_was_replied(
    probe: ProbeView,
    before: VersionView,
    version: VersionView,
    reply: WriteView,
    bytes: Seq<u8>,
)
    ensures
        probe.stage is Create ==> ({
            let steps = probe_on(probe, ProbeEventView::Written(Ok(version))).0.steps;
            &&& steps.drop_last() == probe.steps
            &&& steps.last().detail == "etag="@ + spelled_option(version.etag) + " version="@
                + spelled_option(version.version)
        }),
        probe.stage is Duplicate || probe.stage is Stale || probe.stage is Replay ==> ({
            let steps = probe_on(probe, ProbeEventView::Written(reply)).0.steps;
            &&& steps.drop_last() == probe.steps
            &&& steps.last().detail == spelled_write(reply)
        }),
        probe.stage == StageView::ReadBack(before) ==> ({
            let steps = probe_on(probe, ProbeEventView::Read(Ok((bytes, version)))).0.steps;
            &&& steps.drop_last() == probe.steps
            &&& steps.last().detail == "put="@ + spelled_option(before.etag) + " read="@
                + spelled_option(version.etag)
        }),
        probe.stage == StageView::Matching(before) ==> ({
            let steps = probe_on(probe, ProbeEventView::Written(Ok(version))).0.steps;
            &&& steps.drop_last() == probe.steps
            &&& steps.last().detail == "before="@ + spelled_option(before.etag) + " after="@
                + spelled_option(version.etag)
        }),
        probe.stage is Final ==> ({
            let steps = probe_on(probe, ProbeEventView::Read(Ok((bytes, version)))).0.steps;
            &&& steps.drop_last() == probe.steps
            &&& steps.last().detail == "b\""@ + literal_bytes(bytes) + "\""@
        }),
{
    if probe.stage is Create || probe.stage is Matching {
        let steps = probe_on(probe, ProbeEventView::Written(Ok(version))).0.steps;
        assert(steps.drop_last() =~= probe.steps);
    }
    if probe.stage is Duplicate || probe.stage is Stale || probe.stage is Replay {
        let steps = probe_on(probe, ProbeEventView::Written(reply)).0.steps;
        assert(steps.drop_last() =~= probe.steps);
    }
    if probe.stage is ReadBack || probe.stage is Final {
        let steps = probe_on(probe, ProbeEventView::Read(Ok((bytes, version)))).0.steps;
        assert(steps.drop_last() =~= probe.steps);
    }
}

/// Bytes are told one by one, in their order.
pub proof fn law_bytes_are_told_one_by_one(a: Seq<u8>, b: Seq<u8>, c: u8)
    ensures
        literal_bytes(a + b) == literal_bytes(a) + literal_bytes(b),
        literal_bytes(seq![c]) == literal_byte(c),
        literal_bytes(Seq::empty()).len() == 0,
    decreases b.len(),
{
    let none = Seq::<u8>::empty();
    assert(seq![c].drop_last() =~= none);
    assert(literal_bytes(none) =~= Seq::<char>::empty());
    assert(literal_bytes(seq![c]) =~= literal_byte(c));
    if b.len() == 0 {
        assert(a + b =~= a);
        assert(b =~= none);
        assert(literal_bytes(a) + literal_bytes(b) =~= literal_bytes(a));
    } else {
        law_bytes_are_told_one_by_one(a, b.drop_last(), c);
        assert((a + b).drop_last() =~= a + b.drop_last());
        assert(literal_bytes(a) + (literal_bytes(b.drop_last()) + literal_byte(b.last()))
            =~= (literal_bytes(a) + literal_bytes(b.drop_last())) + literal_byte(b.last()));
    }
}

} // verus!
