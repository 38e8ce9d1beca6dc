//! The commit scenario: several machines write versions into one project without
//! coordination, and a fresh machine checks that none was lost, that every chain is intact
//! and that the log is complete.

use vstd::prelude::*;

use crate::numbers::{decimal, decimal_text};
use crate::store::commit::{CommitPageRequest, CommitRequestView};
use crate::text::{lemma_texts_push, opt_text, same_text, texts};

verus! {

/// What the scenario does.
#[derive(Debug)]
pub struct ManifestScenarioParams {
    /// Machines that write at once.
    pub machines: usize,
    /// Versions that each of them writes to a path of its own.
    pub writes: usize,
    /// Attempts before a machine gives up on a commit.
    pub max_attempts: u32,
    /// What makes the scope unique; the clock where it is not given.
    pub scope_suffix: Option<String>,
}

/// What the scenario observed.
#[derive(Debug)]
pub struct ManifestScenarioReport {
    /// Workspace that was used.
    pub workspace: String,
    /// Project that was used.
    pub project: String,
    /// Number of the last commit.
    pub commits: u64,
    /// Attempts of all machines together.
    pub attempts: u32,
    /// Pages in the manifest.
    pub pages: usize,
    /// Records of the log that could be read.
    pub wal_records: usize,
    /// Checks that failed.
    pub failures: Vec<String>,
}

/// Whether there is anything to do.
pub fn check_params(params: &ManifestScenarioParams) -> (checked: Result<(), String>)
    ensures
        match checked {
            Ok(_) => params.machines > 0 && params.writes > 0,
            Err(why) => (params.machines == 0 || params.writes == 0) && why@
                == "machines and writes must both be greater than zero"@,
        },
{
    if params.machines == 0 || params.writes == 0 {
        Err("machines and writes must both be greater than zero".to_owned())
    } else {
        Ok(())
    }
}

/// The scope of a run: workspace and project.
pub fn scope_of(run: &str) -> (scope: (String, String))
    ensures
        scope.0@ == "probe-ws-"@ + run@,
        scope.1@ == "probe-proj-"@ + run@,
{
    let mut workspace: String = "probe-ws-".to_owned();
    workspace.append(run);
    let mut project: String = "probe-proj-".to_owned();
    project.append(run);
    (workspace, project)
}

/// The path that a machine writes to.
pub open spec fn machine_path(machine: nat) -> Seq<char> {
    "notes/probe/m"@ + decimal(machine) + ".md"@
}

/// The body of a version.
pub open spec fn version_body(version: nat) -> Seq<char> {
    "body v"@ + decimal(version)
}

/// The body of a version.
fn body_of(version: usize) -> (body: String)
    ensures
        body@ == version_body(version as nat),
{
    let mut body: String = "body v".to_owned();
    body.append(decimal_text(version as u64).as_str());
    body
}

/// What a machine commits as a version.
pub open spec fn commit_view(
    workspace: Seq<char>,
    project: Seq<char>,
    machine: nat,
    version: nat,
) -> CommitRequestView {
    CommitRequestView {
        workspace_id: workspace,
        project_id: project,
        path: machine_path(machine),
        title: "probe m"@ + decimal(machine),
        body: version_body(version),
        writer_id: "probe-"@ + decimal(machine),
        now_ms: version as i64,
    }
}

/// What a machine commits as a version.
pub fn scenario_commit(workspace: &str, project: &str, machine: usize, version: usize) -> (request:
    CommitPageRequest)
    requires
        version <= i64::MAX,
    ensures
        request@ == commit_view(workspace@, project@, machine as nat, version as nat),
{
    let number: String = decimal_text(machine as u64);
    let mut path: String = "notes/probe/m".to_owned();
    path.append(number.as_str());
    path.append(".md");
    let mut title: String = "probe m".to_owned();
    title.append(number.as_str());
    let mut writer_id: String = "probe-".to_owned();
    writer_id.append(number.as_str());
    CommitPageRequest {
        workspace_id: workspace.to_owned(),
        project_id: project.to_owned(),
        path,
        title,
        body: body_of(version),
        writer_id,
        now_ms: version as i64,
    }
}

// ---- One machine ---------------------------------------------------------------------------------

/// What one machine did.
#[derive(Debug)]
pub struct MachineReport {
    /// Path that it wrote to.
    pub path: String,
    /// Versions in the order they were committed.
    pub ids: Vec<String>,
    /// Attempts that the commits took together.
    pub attempts: u32,
}

/// One machine at work: it writes its versions one after another.
#[derive(Debug)]
pub struct MachineRun {
    /// Workspace that is used.
    pub workspace: String,
    /// Project that is used.
    pub project: String,
    /// Number of the machine.
    pub machine: usize,
    /// Versions that it writes.
    pub writes: usize,
    /// What it did so far.
    pub report: MachineReport,
}

impl MachineRun {
    /// Whether no more was written than should be, and to the path of the machine.
    pub open spec fn wf(&self) -> bool {
        &&& self.report.ids@.len() <= self.writes
        &&& self.report.path@ == machine_path(self.machine as nat)
    }

    /// A machine that has written nothing yet.
    pub fn start(workspace: &str, project: &str, machine: usize, writes: usize) -> (run: Self)
        ensures
            run.wf(),
            run.workspace@ == workspace@,
            run.project@ == project@,
            run.machine == machine,
            run.writes == writes,
            run.report.ids@.len() == 0,
            run.report.attempts == 0,
    {
        let mut path: String = "notes/probe/m".to_owned();
        path.append(decimal_text(machine as u64).as_str());
        path.append(".md");
        MachineRun {
            workspace: workspace.to_owned(),
            project: project.to_owned(),
            machine,
            writes,
            report: MachineReport { path, ids: Vec::new(), attempts: 0 },
        }
    }

    /// What the machine commits next, while a version is left to write.
    pub fn request(&self) -> (next: Option<CommitPageRequest>)
        requires
            self.wf(),
            self.writes <= i64::MAX,
        ensures
            match next {
                Some(request) => self.report.ids@.len() < self.writes && request@ == commit_view(
                    self.workspace@,
                    self.project@,
                    self.machine as nat,
                    self.report.ids@.len(),
                ),
                None => self.report.ids@.len() == self.writes,
            },
    {
        if self.report.ids.len() < self.writes {
            Some(
                scenario_commit(
                    self.workspace.as_str(),
                    self.project.as_str(),
                    self.machine,
                    self.report.ids.len(),
                ),
            )
        } else {
            None
        }
    }

    /// What the machine is at, for a commit that fails.
    pub fn doing(&self) -> (text: String)
        ensures
            text@ == "machine "@ + decimal(self.machine as nat) + " commit "@ + decimal(
                self.report.ids@.len(),
            ),
    {
        let mut text: String = "machine ".to_owned();
        text.append(decimal_text(self.machine as u64).as_str());
        text.append(" commit ");
        text.append(decimal_text(self.report.ids.len() as u64).as_str());
        text
    }

    /// Counts in a version that was committed.
    pub fn committed(&mut self, page_id: String, attempts: u32)
        requires
            old(self).wf(),
            old(self).report.ids@.len() < old(self).writes,
            old(self).report.attempts + attempts <= u32::MAX,
        ensures
            final(self).wf(),
            final(self).workspace == old(self).workspace,
            final(self).project == old(self).project,
            final(self).machine == old(self).machine,
            final(self).writes == old(self).writes,
            final(self).report.path == old(self).report.path,
            final(self).report.ids@ == old(self).report.ids@.push(page_id),
            final(self).report.attempts == old(self).report.attempts + attempts,
    {
        self.report.ids.push(page_id);
        self.report.attempts = self.report.attempts + attempts;
    }
}

// ---- What was found ------------------------------------------------------------------------------

/// A version in a chain.
#[derive(Debug)]
pub struct VersionFact {
    /// Id.
    pub page_id: String,
    /// Version that it took the place of.
    pub supersedes: Option<String>,
}

/// What was found of the path of one machine.
#[derive(Debug)]
pub struct ChainFact {
    /// Path.
    pub path: String,
    /// Versions in the order they were committed.
    pub ids: Vec<String>,
    /// Versions of the chain, the first one first.
    pub history: Vec<VersionFact>,
    /// Body of the current version, where it can be read.
    pub head: Option<String>,
}

/// What a fresh machine found.
#[derive(Debug)]
pub struct ScenarioFacts {
    /// Workspace that was used.
    pub workspace: String,
    /// Project that was used.
    pub project: String,
    /// Number of the last commit.
    pub manifest_seq: u64,
    /// Pages in the manifest.
    pub manifest_pages: usize,
    /// Chains, by machine.
    pub chains: Vec<ChainFact>,
    /// Records of the log.
    pub wal_records: usize,
    /// Attempts of all machines together.
    pub attempts: u32,
}

impl ScenarioFacts {
    /// What was found, before the machines are counted in.
    pub fn new(
        workspace: String,
        project: String,
        manifest_seq: u64,
        manifest_pages: usize,
        wal_records: usize,
    ) -> (facts: Self)
        ensures
            facts.workspace == workspace,
            facts.project == project,
            facts.manifest_seq == manifest_seq,
            facts.manifest_pages == manifest_pages,
            facts.chains@.len() == 0,
            facts.wal_records == wal_records,
            facts.attempts == 0,
    {
        ScenarioFacts {
            workspace,
            project,
            manifest_seq,
            manifest_pages,
            chains: Vec::new(),
            wal_records,
            attempts: 0,
        }
    }

    /// Counts in one more machine: what it did, the chain that was found at its path, and the
    /// body of the current version there.
    pub fn add(&mut self, report: MachineReport, history: Vec<VersionFact>, head: Option<String>)
        requires
            old(self).attempts + report.attempts <= u32::MAX,
        ensures
            *final(self) == (ScenarioFacts {
                chains: final(self).chains,
                attempts: (old(self).attempts + report.attempts) as u32,
                ..*old(self)
            }),
            final(self).chains@ == old(self).chains@.push(
                (ChainFact { path: report.path, ids: report.ids, history, head }),
            ),
    {
        self.attempts = self.attempts + report.attempts;
        self.chains.push(ChainFact { path: report.path, ids: report.ids, history, head });
    }
}

// ---- What is wrong with it -------------------------------------------------------------------------

/// A list with one more failure, when there is one.
pub open spec fn noted(list: Seq<Seq<char>>, failed: bool, what: Seq<char>) -> Seq<Seq<char>> {
    if failed {
        list.push(what)
    } else {
        list
    }
}

/// Whether a version takes the place of the one before it.
pub open spec fn linked(history: Seq<VersionFact>, i: int) -> bool {
    opt_text(history[i].supersedes) == Some(history[i - 1].page_id@)
}

/// A list with the links that are broken among the first `n` versions.
pub open spec fn with_links(
    list: Seq<Seq<char>>,
    path: Seq<char>,
    history: Seq<VersionFact>,
    n: int,
) -> Seq<Seq<char>>
    decreases n,
{
    if n <= 1 {
        list
    } else {
        noted(
            with_links(list, path, history, n - 1),
            !linked(history, n - 1),
            path + ": broken supersession link"@,
        )
    }
}

/// The versions of a chain.
pub open spec fn chain_ids(history: Seq<VersionFact>) -> Seq<Seq<char>> {
    Seq::new(history.len(), |i: int| history[i].page_id@)
}

/// A list with what is wrong with the current version.
pub open spec fn with_head(
    list: Seq<Seq<char>>,
    path: Seq<char>,
    head: Option<String>,
    writes: nat,
) -> Seq<Seq<char>> {
    match head {
        Some(body) => noted(
            list,
            body@ != version_body((writes - 1) as nat),
            path + ": head body is "@ + body@,
        ),
        None => list.push(path + ": head not readable"@),
    }
}

/// A list with what is wrong with a chain.
pub open spec fn with_chain(list: Seq<Seq<char>>, chain: ChainFact, writes: nat) -> Seq<Seq<char>> {
    let path = chain.path@;
    let history = chain.history@;
    if history.len() != writes {
        list.push(path + ": chain length "@ + decimal(history.len()))
    } else {
        let first = noted(
            list,
            history[0].supersedes is Some,
            path + ": first version supersedes something"@,
        );
        let links = with_links(first, path, history, history.len() as int);
        let order = noted(
            links,
            chain_ids(history) != texts(chain.ids@),
            path + ": committed order differs from chain"@,
        );
        with_head(order, path, chain.head, writes)
    }
}

/// A list with what is wrong with chains.
pub open spec fn with_chains(list: Seq<Seq<char>>, chains: Seq<ChainFact>, writes: nat) -> Seq<
    Seq<char>,
>
    decreases chains.len(),
{
    if chains.len() == 0 {
        list
    } else {
        with_chain(with_chains(list, chains.drop_last(), writes), chains.last(), writes)
    }
}

/// Everything that is wrong with a run, in the order it is checked.
pub open spec fn run_failures(facts: ScenarioFacts, machines: nat, writes: nat) -> Seq<Seq<char>> {
    let expected: nat = machines * writes;
    let commits = noted(
        Seq::empty(),
        facts.manifest_seq != expected,
        "commit sequence "@ + decimal(facts.manifest_seq as nat) + " != "@ + decimal(expected)
            + " expected commits"@,
    );
    let pages = noted(
        commits,
        facts.manifest_pages != machines,
        "manifest has "@ + decimal(facts.manifest_pages as nat) + " pages, expected "@ + decimal(
            machines,
        ),
    );
    noted(
        with_chains(pages, facts.chains@, writes),
        facts.wal_records != expected,
        "WAL has "@ + decimal(facts.wal_records as nat) + " records, expected "@ + decimal(
            expected,
        ),
    )
}

// ---- The checks ------------------------------------------------------------------------------------

/// Notes a failure.
fn note(list: &mut Vec<String>, what: String)
    ensures
        texts(final(list)@) == texts(old(list)@).push(what@),
{
    proof {
        lemma_texts_push(list@, what);
    }
    list.push(what);
}

/// Notes the links that are broken.
fn check_links(list: &mut Vec<String>, path: &str, history: &Vec<VersionFact>)
    ensures
        texts(final(list)@) == with_links(
            texts(old(list)@),
            path@,
            history@,
            history@.len() as int,
        ),
{
    let ghost start = texts(list@);
    if history.len() == 0 {
        return;
    }
    let mut i: usize = 1;
    while i < history.len()
        invariant
            1 <= i <= history@.len(),
            texts(list@) == with_links(start, path@, history@, i as int),
        decreases history@.len() - i,
    {
        let good: bool = match &history[i].supersedes {
            Some(id) => same_text(id.as_str(), history[i - 1].page_id.as_str()),
            None => false,
        };
        if !good {
            let mut what: String = path.to_owned();
            what.append(": broken supersession link");
            note(list, what);
        }
        i += 1;
    }
}

/// Whether a chain holds exactly these versions, in this order.
fn same_order(history: &Vec<VersionFact>, ids: &Vec<String>) -> (same: bool)
    ensures
        same == (chain_ids(history@) == texts(ids@)),
{
    let ghost a = chain_ids(history@);
    let ghost b = texts(ids@);
    if history.len() != ids.len() {
        assert(a.len() != b.len());
        return false;
    }
    let mut i: usize = 0;
    while i < ids.len()
        invariant
            a == chain_ids(history@),
            b == texts(ids@),
            history@.len() == ids@.len(),
            i <= ids@.len(),
            forall|j: int| 0 <= j < i ==> #[trigger] a[j] == b[j],
        decreases ids@.len() - i,
    {
        if !same_text(history[i].page_id.as_str(), ids[i].as_str()) {
            assert(a[i as int] != b[i as int]);
            return false;
        }
        i += 1;
    }
    assert(a =~= b);
    true
}

/// Notes what is wrong with a chain.
fn check_chain(list: &mut Vec<String>, chain: &ChainFact, writes: usize)
    requires
        writes > 0,
    ensures
        texts(final(list)@) == with_chain(texts(old(list)@), *chain, writes as nat),
{
    let path: &str = chain.path.as_str();
    if chain.history.len() != writes {
        let mut what: String = path.to_owned();
        what.append(": chain length ");
        what.append(decimal_text(chain.history.len() as u64).as_str());
        note(list, what);
        return;
    }
    if chain.history[0].supersedes.is_some() {
        let mut what: String = path.to_owned();
        what.append(": first version supersedes something");
        note(list, what);
    }
    check_links(list, path, &chain.history);
    if !same_order(&chain.history, &chain.ids) {
        let mut what: String = path.to_owned();
        what.append(": committed order differs from chain");
        note(list, what);
    }
    match &chain.head {
        Some(body) => {
            let wanted: String = body_of(writes - 1);
            if !same_text(body.as_str(), wanted.as_str()) {
                let mut what: String = path.to_owned();
                what.append(": head body is ");
                what.append(body.as_str());
                note(list, what);
            }
        },
        None => {
            let mut what: String = path.to_owned();
            what.append(": head not readable");
            note(list, what);
        },
    }
}

/// Checks what a fresh machine found after a run.
pub fn verify_scenario(params: &ManifestScenarioParams, facts: ScenarioFacts) -> (report:
    ManifestScenarioReport)
    requires
        params.machines > 0,
        params.writes > 0,
        params.machines * params.writes <= usize::MAX,
    ensures
        report.workspace == facts.workspace,
        report.project == facts.project,
        report.commits == facts.manifest_seq,
        report.attempts == facts.attempts,
        report.pages == facts.manifest_pages,
        report.wal_records == facts.wal_records,
        texts(report.failures@) == run_failures(
            facts,
            params.machines as nat,
            params.writes as nat,
        ),
{
    let expected: usize = params.machines * params.writes;
    let mut failures: Vec<String> = Vec::new();
    assert(texts(failures@) =~= Seq::empty());
    if facts.manifest_seq != expected as u64 {
        let mut what: String = "commit sequence ".to_owned();
        what.append(decimal_text(facts.manifest_seq).as_str());
        what.append(" != ");
        what.append(decimal_text(expected as u64).as_str());
        what.append(" expected commits");
        note(&mut failures, what);
    }
    if facts.manifest_pages != params.machines {
        let mut what: String = "manifest has ".to_owned();
        what.append(decimal_text(facts.manifest_pages as u64).as_str());
        what.append(" pages, expected ");
        what.append(decimal_text(params.machines as u64).as_str());
        note(&mut failures, what);
    }
    let ghost start = texts(failures@);
    let mut i: usize = 0;
    assert(facts.chains@.take(0) =~= Seq::empty());
    while i < facts.chains.len()
        invariant
            params.writes > 0,
            i <= facts.chains@.len(),
            texts(failures@) == with_chains(
                start,
                facts.chains@.take(i as int),
                params.writes as nat,
            ),
        decreases facts.chains@.len() - i,
    {
        assert(facts.chains@.take(i + 1).drop_last() =~= facts.chains@.take(i as int));
        check_chain(&mut failures, &facts.chains[i], params.writes);
        i += 1;
    }
    assert(facts.chains@.take(i as int) =~= facts.chains@);
    if facts.wal_records != expected {
        let mut what: String = "WAL has ".to_owned();
        what.append(decimal_text(facts.wal_records as u64).as_str());
        what.append(" records, expected ");
        what.append(decimal_text(expected as u64).as_str());
        note(&mut failures, what);
    }
    ManifestScenarioReport {
        workspace: facts.workspace,
        project: facts.project,
        commits: facts.manifest_seq,
        attempts: facts.attempts,
        pages: facts.manifest_pages,
        wal_records: facts.wal_records,
        failures,
    }
}

// ---- Laws --------------------------------------------------------------------------------------------

/// Whether a chain is what its machine committed: every version in its place, each taking
/// the place of the one before it, and the last one current.
pub open spec fn sound_chain(chain: ChainFact, writes: nat) -> bool {
    &&& chain.history@.len() == writes
    &&& chain.history@[0].supersedes is None
    &&& forall|i: int| 1 <= i < chain.history@.len() ==> #[trigger] linked(chain.history@, i)
    &&& chain_ids(chain.history@) == texts(chain.ids@)
    &&& opt_text(chain.head) == Some(version_body((writes - 1) as nat))
}

/// Whether a run lost nothing.
pub open spec fn sound_run(facts: ScenarioFacts, machines: nat, writes: nat) -> bool {
    &&& facts.manifest_seq == machines * writes
    &&& facts.manifest_pages == machines
    &&& facts.wal_records == machines * writes
    &&& forall|i: int|
        0 <= i < facts.chains@.len() ==> sound_chain(#[trigger] facts.chains@[i], writes)
}

proof fn lemma_links(list: Seq<Seq<char>>, path: Seq<char>, history: Seq<VersionFact>, n: int)
    requires
        n <= history.len(),
    ensures
        with_links(list, path, history, n).len() == 0 <==> list.len() == 0 && forall|i: int|
            1 <= i < n ==> #[trigger] linked(history, i),
    decreases n,
{
    if n > 1 {
        lemma_links(list, path, history, n - 1);
        if with_links(list, path, history, n).len() == 0 {
            assert(linked(history, n - 1));
            assert forall|i: int| 1 <= i < n implies #[trigger] linked(history, i) by {
                if i < n - 1 {
                    assert(linked(history, i));
                }
            }
        }
    }
}

proof fn lemma_chain(list: Seq<Seq<char>>, chain: ChainFact, writes: nat)
    requires
        writes > 0,
    ensures
        with_chain(list, chain, writes).len() == 0 <==> list.len() == 0 && sound_chain(
            chain,
            writes,
        ),
{
    let history = chain.history@;
    if history.len() == writes {
        let first = noted(
            list,
            history[0].supersedes is Some,
            chain.path@ + ": first version supersedes something"@,
        );
        lemma_links(first, chain.path@, history, history.len() as int);
    }
}

proof fn lemma_chains(list: Seq<Seq<char>>, chains: Seq<ChainFact>, writes: nat)
    requires
        writes > 0,
    ensures
        with_chains(list, chains, writes).len() == 0 <==> list.len() == 0 && forall|i: int|
            0 <= i < chains.len() ==> sound_chain(#[trigger] chains[i], writes),
    decreases chains.len(),
{
    if chains.len() > 0 {
        let front = chains.drop_last();
        lemma_chains(list, front, writes);
        lemma_chain(with_chains(list, front, writes), chains.last(), writes);
        assert(chains.last() == chains[chains.len() - 1]);
        if with_chains(list, chains, writes).len() == 0 {
            assert forall|i: int| 0 <= i < chains.len() implies sound_chain(
                #[trigger] chains[i],
                writes,
            ) by {
                if i < front.len() {
                    assert(sound_chain(front[i], writes));
                }
            }
        } else if list.len() == 0 && (forall|i: int|
            0 <= i < chains.len() ==> sound_chain(#[trigger] chains[i], writes)) {
            assert(sound_chain(chains[chains.len() - 1], writes));
            assert forall|i: int| 0 <= i < front.len() implies sound_chain(
                #[trigger] front[i],
                writes,
            ) by {
                assert(sound_chain(chains[i], writes));
            }
        }
    }
}

/// A report without failures proves that the run lost nothing, and a run that lost nothing
/// is reported without failures.
pub proof fn law_no_failures_means_nothing_was_lost(
    facts: ScenarioFacts,
    machines: nat,
    writes: nat,
)
    requires
        writes > 0,
    ensures
        run_failures(facts, machines, writes).len() == 0 <==> sound_run(facts, machines, writes),
{
    let expected: nat = machines * writes;
    let commits = noted(
        Seq::empty(),
        facts.manifest_seq != expected,
        "commit sequence "@ + decimal(facts.manifest_seq as nat) + " != "@ + decimal(expected)
            + " expected commits"@,
    );
    let pages = noted(
        commits,
        facts.manifest_pages != machines,
        "manifest has "@ + decimal(facts.manifest_pages as nat) + " pages, expected "@ + decimal(
            machines,
        ),
    );
    lemma_chains(pages, facts.chains@, writes);
}

} // verus!
