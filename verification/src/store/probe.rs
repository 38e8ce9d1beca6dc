//! The conformance probe: does a backend really refuse what its preconditions
//! forbid?

use vstd::prelude::*;

use crate::store::version::{
    error_message, ErrorView, ObjectVersion, StoreError, VersionView,
};
use crate::numbers::{decimal, decimal_text};
use crate::store::version::{state_name, state_text};
use crate::text::{opt_text, quoted, quoted_text, same_opt_text};

verus! {

/// Outcome of one probe step.
#[derive(Debug)]
pub struct ProbeStep {
    /// What was checked.
    pub name: &'static str,
    /// Whether the backend behaved as required.
    pub ok: bool,
    /// Human-readable detail.
    pub detail: String,
}

/// What a `ProbeStep` says.
pub struct StepView {
    pub name: Seq<char>,
    pub ok: bool,
    pub detail: Seq<char>,
}

impl View for ProbeStep {
    type V = StepView;

    open spec fn view(&self) -> StepView {
        StepView { name: self.name@, ok: self.ok, detail: self.detail@ }
    }
}

/// What a list of steps says.
pub open spec fn steps_view(steps: Seq<ProbeStep>) -> Seq<StepView> {
    Seq::new(steps.len(), |i: int| steps[i]@)
}

/// Full report of a probe.
#[derive(Debug)]
pub struct ProbeReport {
    /// Every step, in order.
    pub steps: Vec<ProbeStep>,
}

impl View for ProbeReport {
    type V = Seq<StepView>;

    open spec fn view(&self) -> Seq<StepView> {
        steps_view(self.steps@)
    }
}

/// Whether every step passed.
pub open spec fn passed(steps: Seq<StepView>) -> bool {
    forall|i: int| 0 <= i < steps.len() ==> (#[trigger] steps[i]).ok
}

/// One line of a report.
pub open spec fn step_line(step: StepView) -> Seq<char> {
    (if step.ok {
        "PASS"@
    } else {
        "FAIL"@
    }) + " "@ + step.name + " — "@ + step.detail
}

/// The lines of a report, with line ends between them.
pub open spec fn rendered(steps: Seq<StepView>) -> Seq<char>
    decreases steps.len(),
{
    if steps.len() == 0 {
        Seq::empty()
    } else if steps.len() == 1 {
        step_line(steps[0])
    } else {
        rendered(steps.drop_last()) + "\n"@ + step_line(steps.last())
    }
}

impl ProbeReport {
    /// True when every step passed.
    pub fn all_passed(&self) -> (all: bool)
        ensures
            all == passed(self@),
    {
        let mut i: usize = 0;
        while i < self.steps.len()
            invariant
                i <= self.steps@.len(),
                forall|j: int| 0 <= j < i ==> (#[trigger] self@[j]).ok,
            decreases self.steps@.len() - i,
        {
            if !self.steps[i].ok {
                assert(!self@[i as int].ok);
                return false;
            }
            i += 1;
        }
        true
    }

    /// A summary with one line per step.
    pub fn render(&self) -> (text: String)
        ensures
            text@ == rendered(self@),
    {
        let mut text: String = String::new();
        let mut i: usize = 0;
        assert(self@.take(0) =~= Seq::empty());
        while i < self.steps.len()
            invariant
                i <= self.steps@.len(),
                text@ == rendered(self@.take(i as int)),
            decreases self.steps@.len() - i,
        {
            let ghost before = text@;
            let ghost taken = self@.take(i + 1);
            if i > 0 {
                text.append("\n");
            }
            text.append(
                if self.steps[i].ok {
                    "PASS"
                } else {
                    "FAIL"
                },
            );
            text.append(" ");
            text.append(self.steps[i].name);
            text.append(" — ");
            text.append(self.steps[i].detail.as_str());
            proof {
                assert(taken.drop_last() =~= self@.take(i as int));
                assert(taken.last() == self.steps@[i as int]@);
                if i == 0 {
                    assert(before =~= Seq::empty());
                    assert(text@ =~= step_line(taken[0]));
                } else {
                    assert(text@ =~= before + "\n"@ + step_line(taken.last()));
                }
            }
            i += 1;
        }
        assert(self@.take(i as int) =~= self@);
        text
    }
}

// ---- How replies are spelled --------------------------------------------------------

/// How `{:?}` spells an optional text.
pub open spec fn spelled_option(text: Option<Seq<char>>) -> Seq<char> {
    match text {
        Some(t) => "Some("@ + quoted(t) + ")"@,
        None => "None"@,
    }
}

/// How `{:?}` spells an optional text.
pub fn spell_option(text: &Option<String>) -> (spelled: String)
    ensures
        spelled@ == spelled_option(opt_text(*text)),
{
    match text {
        Some(t) => {
            let mut spelled: String = "Some(".to_owned();
            spelled.append(quoted_text(t.as_str()).as_str());
            spelled.append(")");
            spelled
        },
        None => "None".to_owned(),
    }
}

/// How `{:?}` spells an error.
pub open spec fn spelled_error(error: ErrorView) -> Seq<char> {
    match error {
        ErrorView::NotFound => "NotFound"@,
        ErrorView::Precondition => "Precondition"@,
        ErrorView::AlreadyExists => "AlreadyExists"@,
        ErrorView::MissingEtag => "MissingEtag"@,
        ErrorView::Conflict(attempts) => "Conflict { attempts: "@ + decimal(attempts) + " }"@,
        ErrorView::Corrupt(what) => "Corrupt("@ + quoted(what) + ")"@,
        ErrorView::HandoffNotOpen(id, state) => "HandoffNotOpen { id: "@ + quoted(id)
            + ", state: "@ + state_name(state) + " }"@,
        ErrorView::HandoffOwnedByAnother(id, owner) => "HandoffOwnedByAnother { id: "@ + quoted(id)
            + ", owner: "@ + quoted(owner) + " }"@,
        ErrorView::Backend(what) => "Backend("@ + quoted(what) + ")"@,
    }
}

/// How `{:?}` spells an error.
pub fn spell_error(error: &StoreError) -> (spelled: String)
    ensures
        spelled@ == spelled_error(error@),
{
    match error {
        StoreError::NotFound => "NotFound".to_owned(),
        StoreError::Precondition => "Precondition".to_owned(),
        StoreError::AlreadyExists => "AlreadyExists".to_owned(),
        StoreError::MissingEtag => "MissingEtag".to_owned(),
        StoreError::Conflict { attempts } => {
            let mut text: String = "Conflict { attempts: ".to_owned();
            text.append(decimal_text(*attempts as u64).as_str());
            text.append(" }");
            text
        },
        StoreError::Corrupt(what) => {
            let mut text: String = "Corrupt(".to_owned();
            text.append(quoted_text(what.as_str()).as_str());
            text.append(")");
            text
        },
        StoreError::HandoffNotOpen { id, state } => {
            let mut text: String = "HandoffNotOpen { id: ".to_owned();
            text.append(quoted_text(id.as_str()).as_str());
            text.append(", state: ");
            text.append(state_text(*state));
            text.append(" }");
            text
        },
        StoreError::HandoffOwnedByAnother { id, owner } => {
            let mut text: String = "HandoffOwnedByAnother { id: ".to_owned();
            text.append(quoted_text(id.as_str()).as_str());
            text.append(", owner: ");
            text.append(quoted_text(owner.as_str()).as_str());
            text.append(" }");
            text
        },
        StoreError::Backend(what) => {
            let mut text: String = "Backend(".to_owned();
            text.append(quoted_text(what.as_str()).as_str());
            text.append(")");
            text
        },
    }
}

/// What a backend replied to a write.
pub type WriteReply = Result<ObjectVersion, StoreError>;

/// What a `WriteReply` says.
pub type WriteView = Result<VersionView, ErrorView>;

/// What a `WriteReply` says.
pub open spec fn write_view(reply: WriteReply) -> WriteView {
    match reply {
        Ok(version) => Ok(version@),
        Err(error) => Err(error@),
    }
}

/// How `{:?}` spells the reply to a write.
pub open spec fn spelled_write(reply: WriteView) -> Seq<char> {
    match reply {
        Ok(version) => "Ok(ObjectVersion { etag: "@ + spelled_option(version.etag) + ", version: "@
            + spelled_option(version.version) + " })"@,
        Err(error) => "Err("@ + spelled_error(error) + ")"@,
    }
}

/// How `{:?}` spells the reply to a write.
pub fn spell_write(reply: &WriteReply) -> (spelled: String)
    ensures
        spelled@ == spelled_write(write_view(*reply)),
{
    match reply {
        Ok(version) => {
            let mut text: String = "Ok(ObjectVersion { etag: ".to_owned();
            text.append(spell_option(&version.etag).as_str());
            text.append(", version: ");
            text.append(spell_option(&version.version).as_str());
            text.append(" })");
            text
        },
        Err(error) => {
            let mut text: String = "Err(".to_owned();
            text.append(spell_error(error).as_str());
            text.append(")");
            text
        },
    }
}

/// A hexadecimal digit in lower case.
pub open spec fn hex_digit(n: int) -> char {
    if n < 10 {
        (48 + n) as char
    } else {
        (87 + n) as char
    }
}

/// How one byte stands in a byte string literal.
pub open spec fn literal_byte(b: u8) -> Seq<char> {
    if b == 10 {
        "\\n"@
    } else if b == 13 {
        "\\r"@
    } else if b == 9 {
        "\\t"@
    } else if b == 92 || b == 34 {
        seq!['\\', b as char]
    } else if b == 0 {
        "\\0"@
    } else if 0x20 <= b < 0x7f {
        seq![b as char]
    } else {
        seq!['\\', 'x', hex_digit(b as int / 16), hex_digit(b as int % 16)]
    }
}

/// How the bytes of a buffer stand in a byte string literal.
pub open spec fn literal_bytes(bytes: Seq<u8>) -> Seq<char>
    decreases bytes.len(),
{
    if bytes.len() == 0 {
        Seq::empty()
    } else {
        literal_bytes(bytes.drop_last()) + literal_byte(bytes.last())
    }
}

/// How `{:?}` spells a buffer: as a byte string literal.
pub open spec fn spelled_bytes(bytes: Seq<u8>) -> Seq<char> {
    "b\""@ + literal_bytes(bytes) + "\""@
}

/// `<bytes::Bytes as Debug>::fmt`, by way of `format!` with `{:?}`: the byte string
/// literal that spells the buffer.
#[verifier::external_body]
pub(crate) fn spell_bytes(bytes: &Vec<u8>) -> (spelled: String)
    ensures
        spelled@ == spelled_bytes(bytes@),
{
    format!("{:?}", bytes::Bytes::copy_from_slice(bytes))
}

// ---- The steps ----------------------------------------------------------------------

/// What the backend replied to a read.
pub type ReadReply = Result<(Vec<u8>, ObjectVersion), StoreError>;

/// What a `ReadReply` says.
pub type ReadView = Result<(Seq<u8>, VersionView), ErrorView>;

/// What a `ReadReply` says.
pub open spec fn read_view(reply: ReadReply) -> ReadView {
    match reply {
        Ok(found) => Ok((found.0@, found.1@)),
        Err(error) => Err(error@),
    }
}

/// What the probe is waiting for.
#[derive(Debug)]
pub enum ProbeStage {
    /// The first create.
    Create,
    /// The second create of the same key.
    Duplicate(ObjectVersion),
    /// The read of what was created.
    ReadBack(ObjectVersion),
    /// The update with an ETag that nothing ever had.
    Stale(ObjectVersion),
    /// The update with the ETag that was read.
    Matching(ObjectVersion),
    /// The update with that same ETag once more.
    Replay(ObjectVersion),
    /// The last read.
    Final,
    /// Nothing.
    Done,
}

/// What a `ProbeStage` says.
pub enum StageView {
    Create,
    Duplicate(VersionView),
    ReadBack(VersionView),
    Stale(VersionView),
    Matching(VersionView),
    Replay(VersionView),
    Final,
    Done,
}

impl View for ProbeStage {
    type V = StageView;

    open spec fn view(&self) -> StageView {
        match *self {
            ProbeStage::Create => StageView::Create,
            ProbeStage::Duplicate(v) => StageView::Duplicate(v@),
            ProbeStage::ReadBack(v) => StageView::ReadBack(v@),
            ProbeStage::Stale(v) => StageView::Stale(v@),
            ProbeStage::Matching(v) => StageView::Matching(v@),
            ProbeStage::Replay(v) => StageView::Replay(v@),
            ProbeStage::Final => StageView::Final,
            ProbeStage::Done => StageView::Done,
        }
    }
}

/// A probe under way.
#[derive(Debug)]
pub struct Probe {
    /// What it is waiting for.
    pub stage: ProbeStage,
    /// The steps so far.
    pub steps: Vec<ProbeStep>,
}

/// What a `Probe` says.
pub struct ProbeView {
    pub stage: StageView,
    pub steps: Seq<StepView>,
}

impl View for Probe {
    type V = ProbeView;

    open spec fn view(&self) -> ProbeView {
        ProbeView { stage: self.stage@, steps: steps_view(self.steps@) }
    }
}

/// What the backend replied.
#[derive(Debug)]
pub enum ProbeEvent {
    /// To a create or an update.
    Written(WriteReply),
    /// To a read.
    Read(ReadReply),
}

/// What a `ProbeEvent` says.
pub enum ProbeEventView {
    Written(WriteView),
    Read(ReadView),
}

impl View for ProbeEvent {
    type V = ProbeEventView;

    open spec fn view(&self) -> ProbeEventView {
        match *self {
            ProbeEvent::Written(reply) => ProbeEventView::Written(write_view(reply)),
            ProbeEvent::Read(reply) => ProbeEventView::Read(read_view(reply)),
        }
    }
}

/// What to ask of the backend next.
#[derive(Debug)]
pub enum ProbeAction {
    /// Create the key with this body.
    Create(&'static str),
    /// Update the key to this body if it still has this version.
    Update(&'static str, ObjectVersion),
    /// Read the key.
    Read,
    /// The probe is over.
    Finish(Result<ProbeReport, String>),
}

/// What a `ProbeAction` says.
pub enum ProbeActionView {
    Create(Seq<char>),
    Update(Seq<char>, VersionView),
    Read,
    Finish(Result<Seq<StepView>, Seq<char>>),
}

impl View for ProbeAction {
    type V = ProbeActionView;

    open spec fn view(&self) -> ProbeActionView {
        match *self {
            ProbeAction::Create(body) => ProbeActionView::Create(body@),
            ProbeAction::Update(body, version) => ProbeActionView::Update(body@, version@),
            ProbeAction::Read => ProbeActionView::Read,
            ProbeAction::Finish(Ok(report)) => ProbeActionView::Finish(Ok(report@)),
            ProbeAction::Finish(Err(message)) => ProbeActionView::Finish(Err(message@)),
        }
    }
}

/// The version that a stale update names.
pub open spec fn stale_version() -> VersionView {
    VersionView { etag: Some("deadbeef-not-a-real-etag"@), version: None }
}

/// A step.
pub open spec fn step(name: Seq<char>, ok: bool, detail: Seq<char>) -> StepView {
    StepView { name, ok, detail }
}

/// The step that a first create makes.
pub open spec fn created_step(created: VersionView) -> StepView {
    step(
        "create-returns-etag"@,
        created.etag is Some,
        "etag="@ + spelled_option(created.etag) + " version="@ + spelled_option(created.version),
    )
}

/// The step that a second create makes.
pub open spec fn duplicate_step(reply: WriteView) -> StepView {
    step(
        "duplicate-create-rejected"@,
        reply matches Err(error) && (error is Precondition || error is AlreadyExists),
        spelled_write(reply),
    )
}

/// The step that the read of what was created makes.
pub open spec fn stable_step(created: VersionView, read: VersionView) -> StepView {
    step(
        "etag-stable-across-read"@,
        read.etag == created.etag && created.etag is Some,
        "put="@ + spelled_option(created.etag) + " read="@ + spelled_option(read.etag),
    )
}

/// The step that an update which must be refused makes.
pub open spec fn refused_step(name: Seq<char>, reply: WriteView) -> StepView {
    step(name, reply matches Err(error) && error is Precondition, spelled_write(reply))
}

/// The step that the update with the ETag which was read makes.
pub open spec fn matching_step(read: VersionView, updated: VersionView) -> StepView {
    step(
        "matching-etag-accepted"@,
        updated.etag is Some && updated.etag != read.etag,
        "before="@ + spelled_option(read.etag) + " after="@ + spelled_option(updated.etag),
    )
}

/// The step that the last read makes.
pub open spec fn content_step(bytes: Seq<u8>) -> StepView {
    step("final-content"@, bytes == seq![118u8, 51u8], spelled_bytes(bytes))
}

/// The end of a probe.
pub open spec fn verdict(steps: Seq<StepView>) -> Result<Seq<StepView>, Seq<char>> {
    if passed(steps) {
        Ok(steps)
    } else {
        Err("conditional-write conformance failed:\n"@ + rendered(steps))
    }
}

/// The probe broken off.
pub open spec fn broken_off(steps: Seq<StepView>, what: Seq<char>, error: ErrorView) -> (
    ProbeView,
    ProbeActionView,
) {
    (
        ProbeView { stage: StageView::Done, steps },
        ProbeActionView::Finish(Err(what + error_message(error))),
    )
}

/// How a probe goes on.
pub open spec fn probe_on(probe: ProbeView, event: ProbeEventView) -> (ProbeView, ProbeActionView) {
    let steps = probe.steps;
    match (probe.stage, event) {
        (StageView::Create, ProbeEventView::Written(Ok(created))) => (
            ProbeView {
                stage: StageView::Duplicate(created),
                steps: steps.push(created_step(created)),
            },
            ProbeActionView::Create("v2"@),
        ),
        (StageView::Create, ProbeEventView::Written(Err(error))) => broken_off(
            steps,
            "create failed: "@,
            error,
        ),
        (StageView::Duplicate(created), ProbeEventView::Written(reply)) => (
            ProbeView {
                stage: StageView::ReadBack(created),
                steps: steps.push(duplicate_step(reply)),
            },
            ProbeActionView::Read,
        ),
        (StageView::ReadBack(created), ProbeEventView::Read(Ok(found))) => (
            ProbeView {
                stage: StageView::Stale(found.1),
                steps: steps.push(stable_step(created, found.1)),
            },
            ProbeActionView::Update("v3"@, stale_version()),
        ),
        (StageView::ReadBack(_), ProbeEventView::Read(Err(error))) => broken_off(
            steps,
            "read-back failed: "@,
            error,
        ),
        (StageView::Stale(read), ProbeEventView::Written(reply)) => (
            ProbeView {
                stage: StageView::Matching(read),
                steps: steps.push(refused_step("stale-etag-rejected"@, reply)),
            },
            ProbeActionView::Update("v3"@, read),
        ),
        (StageView::Matching(read), ProbeEventView::Written(Ok(updated))) => (
            ProbeView {
                stage: StageView::Replay(read),
                steps: steps.push(matching_step(read, updated)),
            },
            ProbeActionView::Update("v4"@, read),
        ),
        (StageView::Matching(_), ProbeEventView::Written(Err(error))) => broken_off(
            steps,
            "matching update failed: "@,
            error,
        ),
        (StageView::Replay(_), ProbeEventView::Written(reply)) => (
            ProbeView {
                stage: StageView::Final,
                steps: steps.push(refused_step("consumed-etag-rejected"@, reply)),
            },
            ProbeActionView::Read,
        ),
        (StageView::Final, ProbeEventView::Read(Ok(found))) => (
            ProbeView { stage: StageView::Done, steps: steps.push(content_step(found.0)) },
            ProbeActionView::Finish(verdict(steps.push(content_step(found.0)))),
        ),
        (StageView::Final, ProbeEventView::Read(Err(error))) => broken_off(
            steps,
            "final read failed: "@,
            error,
        ),
        _ => (probe, ProbeActionView::Read),
    }
}

/// Whether the reply is one to what was asked.
pub open spec fn replies(stage: StageView, event: ProbeEventView) -> bool {
    match stage {
        StageView::Create | StageView::Duplicate(_) | StageView::Stale(_) | StageView::Matching(
            _,
        ) | StageView::Replay(_) => event is Written,
        StageView::ReadBack(_) | StageView::Final => event is Read,
        StageView::Done => false,
    }
}

/// The end of a probe that is broken off.
fn break_off(steps: Vec<ProbeStep>, what: &str, error: &StoreError) -> (next: (
    Probe,
    ProbeAction,
))
    ensures
        (next.0@, next.1@) == broken_off(steps_view(steps@), what@, error@),
{
    let mut message: String = what.to_owned();
    message.append(error.message().as_str());
    (Probe { stage: ProbeStage::Done, steps }, ProbeAction::Finish(Err(message)))
}

/// Adds a step.
fn add_step(steps: &mut Vec<ProbeStep>, name: &'static str, ok: bool, detail: String)
    ensures
        steps_view(final(steps)@) == steps_view(old(steps)@).push(step(name@, ok, detail@)),
{
    let ghost before = steps@;
    steps.push(ProbeStep { name, ok, detail });
    assert(steps_view(steps@) =~= steps_view(before).push(step(name@, ok, detail@)));
}

/// The detail that names two optional texts.
fn two_options(
    first: &str,
    a: &Option<String>,
    second: &str,
    b: &Option<String>,
) -> (detail: String)
    ensures
        detail@ == first@ + spelled_option(opt_text(*a)) + second@ + spelled_option(opt_text(*b)),
{
    let mut detail: String = first.to_owned();
    detail.append(spell_option(a).as_str());
    detail.append(second);
    detail.append(spell_option(b).as_str());
    detail
}

/// Whether a write was refused by its precondition.
fn refused(reply: &WriteReply) -> (is_refused: bool)
    ensures
        is_refused == (write_view(*reply) matches Err(error) && error is Precondition),
{
    match reply {
        Err(StoreError::Precondition) => true,
        _ => false,
    }
}

/// Whether a buffer holds `v3`.
fn is_third(bytes: &Vec<u8>) -> (third: bool)
    ensures
        third == (bytes@ == seq![118u8, 51u8]),
{
    let third: bool = bytes.len() == 2 && bytes[0] == 118 && bytes[1] == 51;
    proof {
        if third {
            assert(bytes@ =~= seq![118u8, 51u8]);
        } else if bytes@ == seq![118u8, 51u8] {
            assert(bytes@[0] == 118 && bytes@[1] == 51);
        }
    }
    third
}

impl Probe {
    /// The start of a probe: the first thing to ask is to create the key.
    pub fn start() -> (next: (Probe, ProbeAction))
        ensures
            next.0@ == (ProbeView { stage: StageView::Create, steps: Seq::empty() }),
            next.1@ == ProbeActionView::Create("v1"@),
    {
        let probe = Probe { stage: ProbeStage::Create, steps: Vec::new() };
        assert(probe@.steps =~= Seq::empty());
        (probe, ProbeAction::Create("v1"))
    }

    /// Takes in a reply and says what to ask next.
    pub fn next(self, event: ProbeEvent) -> (next: (Probe, ProbeAction))
        requires
            replies(self@.stage, event@),
        ensures
            (next.0@, next.1@) == probe_on(self@, event@),
    {
        let mut steps: Vec<ProbeStep> = self.steps;
        match (self.stage, event) {
            (ProbeStage::Create, ProbeEvent::Written(reply)) => match reply {
                Ok(created) => {
                    let detail: String = two_options(
                        "etag=",
                        &created.etag,
                        " version=",
                        &created.version,
                    );
                    add_step(&mut steps, "create-returns-etag", created.etag.is_some(), detail);
                    (
                        Probe { stage: ProbeStage::Duplicate(created), steps },
                        ProbeAction::Create("v2"),
                    )
                },
                Err(error) => break_off(steps, "create failed: ", &error),
            },
            (ProbeStage::Duplicate(created), ProbeEvent::Written(reply)) => {
                let ok: bool = match &reply {
                    Ok(_) => false,
                    Err(error) => error.lost_the_race(),
                };
                add_step(&mut steps, "duplicate-create-rejected", ok, spell_write(&reply));
                (Probe { stage: ProbeStage::ReadBack(created), steps }, ProbeAction::Read)
            },
            (ProbeStage::ReadBack(created), ProbeEvent::Read(reply)) => match reply {
                Ok((_, read)) => {
                    let ok: bool = same_opt_text(&read.etag, &created.etag)
                        && created.etag.is_some();
                    let detail: String = two_options("put=", &created.etag, " read=", &read.etag);
                    add_step(&mut steps, "etag-stable-across-read", ok, detail);
                    let stale: ObjectVersion = ObjectVersion::new(
                        Some("deadbeef-not-a-real-etag".to_owned()),
                        None,
                    );
                    (
                        Probe { stage: ProbeStage::Stale(read), steps },
                        ProbeAction::Update("v3", stale),
                    )
                },
                Err(error) => break_off(steps, "read-back failed: ", &error),
            },
            (ProbeStage::Stale(read), ProbeEvent::Written(reply)) => {
                add_step(&mut steps, "stale-etag-rejected", refused(&reply), spell_write(&reply));
                let expected: ObjectVersion = read.clone();
                (
                    Probe { stage: ProbeStage::Matching(read), steps },
                    ProbeAction::Update("v3", expected),
                )
            },
            (ProbeStage::Matching(read), ProbeEvent::Written(reply)) => match reply {
                Ok(updated) => {
                    let ok: bool = updated.etag.is_some() && !same_opt_text(
                        &updated.etag,
                        &read.etag,
                    );
                    let detail: String = two_options(
                        "before=",
                        &read.etag,
                        " after=",
                        &updated.etag,
                    );
                    add_step(&mut steps, "matching-etag-accepted", ok, detail);
                    let expected: ObjectVersion = read.clone();
                    (
                        Probe { stage: ProbeStage::Replay(read), steps },
                        ProbeAction::Update("v4", expected),
                    )
                },
                Err(error) => break_off(steps, "matching update failed: ", &error),
            },
            (ProbeStage::Replay(_), ProbeEvent::Written(reply)) => {
                add_step(
                    &mut steps,
                    "consumed-etag-rejected",
                    refused(&reply),
                    spell_write(&reply),
                );
                (Probe { stage: ProbeStage::Final, steps }, ProbeAction::Read)
            },
            (ProbeStage::Final, ProbeEvent::Read(reply)) => match reply {
                Ok((bytes, _)) => {
                    add_step(&mut steps, "final-content", is_third(&bytes), spell_bytes(&bytes));
                    finish_probe(steps)
                },
                Err(error) => break_off(steps, "final read failed: ", &error),
            },
            (stage, _) => (Probe { stage, steps }, ProbeAction::Read),
        }
    }
}

/// The end of a probe that went through all its steps.
fn finish_probe(steps: Vec<ProbeStep>) -> (next: (Probe, ProbeAction))
    ensures
        next.0@ == (ProbeView { stage: StageView::Done, steps: steps_view(steps@) }),
        next.1@ == ProbeActionView::Finish(verdict(steps_view(steps@))),
{
    let report = ProbeReport { steps };
    if report.all_passed() {
        let copy: Vec<ProbeStep> = copy_steps(&report.steps);
        (Probe { stage: ProbeStage::Done, steps: copy }, ProbeAction::Finish(Ok(report)))
    } else {
        let mut message: String = "conditional-write conformance failed:\n".to_owned();
        message.append(report.render().as_str());
        (
            Probe { stage: ProbeStage::Done, steps: report.steps },
            ProbeAction::Finish(Err(message)),
        )
    }
}

/// A copy of a list of steps.
fn copy_steps(steps: &Vec<ProbeStep>) -> (copy: Vec<ProbeStep>)
    ensures
        steps_view(copy@) == steps_view(steps@),
{
    let mut copy: Vec<ProbeStep> = Vec::new();
    let mut i: usize = 0;
    while i < steps.len()
        invariant
            i <= steps@.len(),
            copy@.len() == i,
            forall|j: int| 0 <= j < i ==> (#[trigger] copy@[j])@ == steps@[j]@,
        decreases steps@.len() - i,
    {
        copy.push(
            ProbeStep { name: steps[i].name, ok: steps[i].ok, detail: steps[i].detail.clone() },
        );
        i += 1;
    }
    assert(steps_view(copy@) =~= steps_view(steps@));
    copy
}

/// The steps of a probe whose replies are given in order.
pub open spec fn probe_steps(
    created: VersionView,
    duplicate: WriteView,
    read: (Seq<u8>, VersionView),
    stale: WriteView,
    updated: VersionView,
    replay: WriteView,
    content: Seq<u8>,
) -> Seq<StepView> {
    seq![
        created_step(created),
        duplicate_step(duplicate),
        stable_step(created, read.1),
        refused_step("stale-etag-rejected"@, stale),
        matching_step(read.1, updated),
        refused_step("consumed-etag-rejected"@, replay),
        content_step(content),
    ]
}

/// A probe that gets all its replies passes exactly when the backend returned an
/// ETag, kept it across the read, moved it with the accepted update, refused the
/// second create, the stale update and the replayed one, and holds the body of the
/// accepted update. Otherwise the report with every step is the error.
pub proof fn law_the_probe_reports_every_breach(
    created: VersionView,
    duplicate: WriteView,
    read: (Seq<u8>, VersionView),
    stale: WriteView,
    updated: VersionView,
    replay: WriteView,
    last: (Seq<u8>, VersionView),
)
    ensures
        ({
            let p0 = ProbeView { stage: StageView::Create, steps: Seq::empty() };
            let p1 = probe_on(p0, ProbeEventView::Written(Ok(created))).0;
            let p2 = probe_on(p1, ProbeEventView::Written(duplicate)).0;
            let p3 = probe_on(p2, ProbeEventView::Read(Ok(read))).0;
            let p4 = probe_on(p3, ProbeEventView::Written(stale)).0;
            let p5 = probe_on(p4, ProbeEventView::Written(Ok(updated))).0;
            let p6 = probe_on(p5, ProbeEventView::Written(replay)).0;
            let end = probe_on(p6, ProbeEventView::Read(Ok(last)));
            let steps = probe_steps(created, duplicate, read, stale, updated, replay, last.0);
            &&& end.1 == ProbeActionView::Finish(verdict(steps))
            &&& passed(steps) <==> {
                &&& created.etag is Some
                &&& duplicate matches Err(error) && (error is Precondition || error
                    is AlreadyExists)
                &&& read.1.etag == created.etag
                &&& stale matches Err(error) && error is Precondition
                &&& updated.etag is Some && updated.etag != read.1.etag
                &&& replay matches Err(error) && error is Precondition
                &&& last.0 == seq![118u8, 51u8]
            }
        }),
{
    let p0 = ProbeView { stage: StageView::Create, steps: Seq::empty() };
    let p1 = probe_on(p0, ProbeEventView::Written(Ok(created))).0;
    let p2 = probe_on(p1, ProbeEventView::Written(duplicate)).0;
    let p3 = probe_on(p2, ProbeEventView::Read(Ok(read))).0;
    let p4 = probe_on(p3, ProbeEventView::Written(stale)).0;
    let p5 = probe_on(p4, ProbeEventView::Written(Ok(updated))).0;
    let p6 = probe_on(p5, ProbeEventView::Written(replay)).0;
    let end = probe_on(p6, ProbeEventView::Read(Ok(last)));
    let steps = probe_steps(created, duplicate, read, stale, updated, replay, last.0);
    assert(end.0.steps =~= steps);
    assert(steps[0] == created_step(created));
    assert(steps[1] == duplicate_step(duplicate));
    assert(steps[2] == stable_step(created, read.1));
    assert(steps[3] == refused_step("stale-etag-rejected"@, stale));
    assert(steps[4] == matching_step(read.1, updated));
    assert(steps[5] == refused_step("consumed-etag-rejected"@, replay));
    assert(steps[6] == content_step(last.0));
}

} // verus!
