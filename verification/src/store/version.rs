//! Object versions, failures and the keys of a scope.

use vstd::prelude::*;
use vstd::utf8::{decode_utf8, encode_utf8, is_char_boundary};

use crate::numbers::{decimal, decimal_text};
use crate::sort::{sort, stable_sorted, Ranked};
use crate::text::{
    comes_before, lemma_lex_asymmetric, lex_less, opt_text, split_all, without_prefix,
    without_suffix,
};
use crate::trim::{trim, trim_start, trimmed, without_start, CharClass};
use crate::unicode::lemma_encode_concat;

verus! {

/// Identity of an object version, ETag first.
#[derive(Debug)]
pub struct ObjectVersion {
    /// Content ETag. Authoritative whenever present.
    pub etag: Option<String>,
    /// Backend version id. Used only when no ETag exists.
    pub version: Option<String>,
}

/// What an `ObjectVersion` says.
pub struct VersionView {
    pub etag: Option<Seq<char>>,
    pub version: Option<Seq<char>>,
}

impl View for ObjectVersion {
    type V = VersionView;

    open spec fn view(&self) -> VersionView {
        VersionView { etag: opt_text(self.etag), version: opt_text(self.version) }
    }
}

impl Clone for ObjectVersion {
    fn clone(&self) -> (copy: Self)
        ensures
            copy == *self,
    {
        ObjectVersion {
            etag: clone_opt_text(&self.etag),
            version: clone_opt_text(&self.version),
        }
    }
}

/// A copy of an optional text.
pub fn clone_opt_text(text: &Option<String>) -> (copy: Option<String>)
    ensures
        copy == *text,
{
    match text {
        Some(t) => Some(t.clone()),
        None => None,
    }
}

/// The state of a handoff.
#[derive(Clone, Copy, Debug, PartialEq, Eq, Structural)]
pub enum HandoffState {
    /// Nobody has taken it.
    Open,
    /// Somebody has taken it and not finished it.
    Claimed,
    /// It is finished.
    Done,
}

/// Failures of the store.
#[derive(Debug)]
pub enum StoreError {
    /// The object does not exist.
    NotFound,
    /// A precondition failed: the object exists or moved.
    Precondition,
    /// The object already exists.
    AlreadyExists,
    /// The backend returned no version identity for a conditional operation.
    MissingEtag,
    /// Another machine kept winning the commit race for this scope.
    Conflict {
        /// Attempts made before giving up.
        attempts: u32,
    },
    /// A stored object was unreadable, mismatched or otherwise inconsistent.
    Corrupt(String),
    /// The handoff is no longer open.
    HandoffNotOpen {
        /// Handoff id.
        id: String,
        /// State it is in now.
        state: HandoffState,
    },
    /// The handoff belongs to another machine's claim.
    HandoffOwnedByAnother {
        /// Handoff id.
        id: String,
        /// Current claimer.
        owner: String,
    },
    /// Any other backend failure.
    Backend(String),
}

/// What a `StoreError` says.
pub enum ErrorView {
    NotFound,
    Precondition,
    AlreadyExists,
    MissingEtag,
    Conflict(nat),
    Corrupt(Seq<char>),
    HandoffNotOpen(Seq<char>, HandoffState),
    HandoffOwnedByAnother(Seq<char>, Seq<char>),
    Backend(Seq<char>),
}

impl View for StoreError {
    type V = ErrorView;

    open spec fn view(&self) -> ErrorView {
        match *self {
            StoreError::NotFound => ErrorView::NotFound,
            StoreError::Precondition => ErrorView::Precondition,
            StoreError::AlreadyExists => ErrorView::AlreadyExists,
            StoreError::MissingEtag => ErrorView::MissingEtag,
            StoreError::Conflict { attempts } => ErrorView::Conflict(attempts as nat),
            StoreError::Corrupt(what) => ErrorView::Corrupt(what@),
            StoreError::HandoffNotOpen { id, state } => ErrorView::HandoffNotOpen(id@, state),
            StoreError::HandoffOwnedByAnother { id, owner } => ErrorView::HandoffOwnedByAnother(
                id@,
                owner@,
            ),
            StoreError::Backend(what) => ErrorView::Backend(what@),
        }
    }
}

/// The name of a state.
pub open spec fn state_name(state: HandoffState) -> Seq<char> {
    match state {
        HandoffState::Open => "Open"@,
        HandoffState::Claimed => "Claimed"@,
        HandoffState::Done => "Done"@,
    }
}

/// The name of a state.
pub fn state_text(state: HandoffState) -> (name: &'static str)
    ensures
        name@ == state_name(state),
{
    match state {
        HandoffState::Open => "Open",
        HandoffState::Claimed => "Claimed",
        HandoffState::Done => "Done",
    }
}

/// What is told about a failure.
pub open spec fn error_message(error: ErrorView) -> Seq<char> {
    match error {
        ErrorView::NotFound => "object not found"@,
        ErrorView::Precondition => "precondition failed"@,
        ErrorView::AlreadyExists => "object already exists"@,
        ErrorView::MissingEtag => "backend returned no ETag for a conditional operation"@,
        ErrorView::Conflict(attempts) => "commit conflict after "@ + decimal(attempts)
            + " attempts"@,
        ErrorView::Corrupt(what) => "corrupt object: "@ + what,
        ErrorView::HandoffNotOpen(id, state) => "handoff "@ + id + " is not open (state: "@
            + state_name(state) + ")"@,
        ErrorView::HandoffOwnedByAnother(id, owner) => "handoff "@ + id + " is claimed by "@
            + owner,
        ErrorView::Backend(what) => "object store error: "@ + what,
    }
}

impl StoreError {
    /// What is told about the failure.
    pub fn message(&self) -> (text: String)
        ensures
            text@ == error_message(self@),
    {
        match self {
            StoreError::NotFound => "object not found".to_owned(),
            StoreError::Precondition => "precondition failed".to_owned(),
            StoreError::AlreadyExists => "object already exists".to_owned(),
            StoreError::MissingEtag => {
                "backend returned no ETag for a conditional operation".to_owned()
            },
            StoreError::Conflict { attempts } => {
                let mut text: String = "commit conflict after ".to_owned();
                text.append(decimal_text(*attempts as u64).as_str());
                text.append(" attempts");
                text
            },
            StoreError::Corrupt(what) => {
                let mut text: String = "corrupt object: ".to_owned();
                text.append(what.as_str());
                text
            },
            StoreError::HandoffNotOpen { id, state } => {
                let mut text: String = "handoff ".to_owned();
                text.append(id.as_str());
                text.append(" is not open (state: ");
                text.append(state_text(*state));
                text.append(")");
                text
            },
            StoreError::HandoffOwnedByAnother { id, owner } => {
                let mut text: String = "handoff ".to_owned();
                text.append(id.as_str());
                text.append(" is claimed by ");
                text.append(owner.as_str());
                text
            },
            StoreError::Backend(what) => {
                let mut text: String = "object store error: ".to_owned();
                text.append(what.as_str());
                text
            },
        }
    }

    /// Whether a create or an update was refused by its precondition.
    pub fn lost_the_race(&self) -> (lost: bool)
        ensures
            lost == (self@ is Precondition || self@ is AlreadyExists),
    {
        match self {
            StoreError::Precondition => true,
            StoreError::AlreadyExists => true,
            _ => false,
        }
    }
}

/// How a backend failed.
#[derive(Debug)]
pub enum BackendFailure {
    /// The object does not exist.
    NotFound,
    /// A precondition failed.
    Precondition,
    /// The object already exists.
    AlreadyExists,
    /// Anything else, in the backend's own words.
    Other(String),
}

/// What a failure of a backend means for the store.
pub open spec fn failure_view(failure: BackendFailure) -> ErrorView {
    match failure {
        BackendFailure::NotFound => ErrorView::NotFound,
        BackendFailure::Precondition => ErrorView::Precondition,
        BackendFailure::AlreadyExists => ErrorView::AlreadyExists,
        BackendFailure::Other(what) => ErrorView::Backend(what@),
    }
}

impl StoreError {
    /// What a failure of a backend means for the store.
    pub fn from_backend(failure: BackendFailure) -> (error: StoreError)
        ensures
            error@ == failure_view(failure),
    {
        match failure {
            BackendFailure::NotFound => StoreError::NotFound,
            BackendFailure::Precondition => StoreError::Precondition,
            BackendFailure::AlreadyExists => StoreError::AlreadyExists,
            BackendFailure::Other(what) => StoreError::Backend(what),
        }
    }
}

/// The outcome of a deletion: an object that is already gone is deleted.
pub fn after_delete(reply: Result<(), BackendFailure>) -> (deleted: Result<(), StoreError>)
    ensures
        match reply {
            Ok(_) => deleted is Ok,
            Err(failure) => match deleted {
                Ok(_) => failure is NotFound,
                Err(error) => !(failure is NotFound) && error@ == failure_view(failure),
            },
        },
{
    match reply {
        Ok(_) => Ok(()),
        Err(BackendFailure::NotFound) => Ok(()),
        Err(failure) => Err(StoreError::from_backend(failure)),
    }
}

/// When an object was last modified; nothing where it is gone.
pub fn after_head(reply: Result<i64, BackendFailure>) -> (modified: Result<
    Option<i64>,
    StoreError,
>)
    ensures
        match reply {
            Ok(at_ms) => modified == Ok::<Option<i64>, StoreError>(Some(at_ms)),
            Err(failure) => match modified {
                Ok(at_ms) => failure is NotFound && at_ms is None,
                Err(error) => !(failure is NotFound) && error@ == failure_view(failure),
            },
        },
{
    match reply {
        Ok(at_ms) => Ok(Some(at_ms)),
        Err(BackendFailure::NotFound) => Ok(None),
        Err(failure) => Err(StoreError::from_backend(failure)),
    }
}

/// The precondition of an update, as a backend takes it.
#[derive(Debug)]
pub struct UpdateTag {
    /// ETag that the object must have.
    pub e_tag: Option<String>,
    /// Version id that the object must have.
    pub version: Option<String>,
}

impl ObjectVersion {
    /// Construct from the two fields a backend may return.
    pub fn new(etag: Option<String>, version: Option<String>) -> (made: Self)
        ensures
            made.etag == etag,
            made.version == version,
    {
        ObjectVersion { etag, version }
    }

    /// The ETag, if the backend supplied one.
    pub fn etag(&self) -> (etag: Option<&str>)
        ensures
            match etag {
                Some(tag) => self@.etag == Some(tag@),
                None => self@.etag is None,
            },
    {
        match &self.etag {
            Some(tag) => Some(tag.as_str()),
            None => None,
        }
    }

    /// The ETag. A conditional operation without one fails closed.
    pub fn require_etag(&self) -> (etag: Result<&str, StoreError>)
        ensures
            match etag {
                Ok(tag) => self@.etag == Some(tag@),
                Err(error) => self@.etag is None && error@ is MissingEtag,
            },
    {
        match self.etag() {
            Some(tag) => Ok(tag),
            None => Err(StoreError::MissingEtag),
        }
    }

    /// The precondition that an update of this version carries: the ETag alone.
    /// A version id from a write is never sent, since a read may not repeat it.
    pub fn as_update_version(&self) -> (tag: Result<UpdateTag, StoreError>)
        ensures
            match tag {
                Ok(tag) => self@.etag is Some && opt_text(tag.e_tag) == self@.etag
                    && tag.version is None,
                Err(error) => self@.etag is None && error@ is MissingEtag,
            },
    {
        match self.require_etag() {
            Ok(tag) => Ok(UpdateTag { e_tag: Some(tag.to_owned()), version: None }),
            Err(error) => Err(error),
        }
    }

    /// The version that a backend reported, when it reported any identity.
    pub fn identified(etag: Option<String>, version: Option<String>) -> (made: Result<
        Self,
        StoreError,
    >)
        ensures
            match made {
                Ok(v) => (etag is Some || version is Some) && v.etag == etag && v.version
                    == version,
                Err(error) => etag is None && version is None && error@ is MissingEtag,
            },
    {
        if etag.is_none() && version.is_none() {
            Err(StoreError::MissingEtag)
        } else {
            Ok(ObjectVersion::new(etag, version))
        }
    }
}

// ---- Keys ------------------------------------------------------------------------

/// A path without one slash at its start and, where something is left, one at its
/// end.
pub open spec fn bare_path(path: Seq<char>) -> Seq<char> {
    let stripped = match without_prefix(path, seq!['/']) {
        Some(rest) => rest,
        None => path,
    };
    match without_suffix(stripped, seq!['/']) {
        Some(rest) => rest,
        None => stripped,
    }
}

/// Whether a segment may stand in a path: not empty, no relative segment, no
/// ASCII control character.
pub open spec fn is_segment(segment: Seq<char>) -> bool {
    &&& segment.len() > 0
    &&& segment != seq!['.']
    &&& segment != seq!['.', '.']
    &&& forall|i: int| 0 <= i < segment.len() ==> !is_control(#[trigger] segment[i])
}

/// Whether a path is one that an object can have.
pub open spec fn is_object_path(path: Seq<char>) -> bool {
    let stripped = match without_prefix(path, seq!['/']) {
        Some(rest) => rest,
        None => path,
    };
    stripped.len() == 0 || (forall|i: int|
        0 <= i < split_all(bare_path(path), '/').len() ==> is_segment(
            #[trigger] split_all(bare_path(path), '/')[i],
        ))
}

/// Whether a character is an ASCII control character.
pub open spec fn is_control(c: char) -> bool {
    (c as int) < 0x20 || c as int == 0x7f
}

/// The first ASCII control character of a text.
pub open spec fn first_control(text: Seq<char>) -> Seq<char>
    decreases text.len(),
{
    if text.len() == 0 {
        Seq::empty()
    } else if is_control(text[0]) {
        seq![text[0]]
    } else {
        first_control(text.skip(1))
    }
}

/// What may not stand in a segment: the segment itself where it is a relative one, else its
/// first control character.
pub open spec fn illegal_part(segment: Seq<char>) -> Seq<char> {
    if segment == seq!['.'] || segment == seq!['.', '.'] {
        segment
    } else {
        first_control(segment)
    }
}

/// The first segment that may not stand in a path.
pub open spec fn bad_segment(segments: Seq<Seq<char>>) -> Seq<char>
    decreases segments.len(),
{
    if segments.len() == 0 {
        Seq::empty()
    } else if is_segment(segments[0]) {
        bad_segment(segments.skip(1))
    } else {
        segments[0]
    }
}

/// What is told about a path that no object can have, by its first segment that may not
/// stand in one.
pub open spec fn path_complaint(path: Seq<char>) -> Seq<char> {
    let bad = bad_segment(split_all(bare_path(path), '/'));
    if bad.len() == 0 {
        "Path \""@ + path + "\" contained empty path segment"@
    } else {
        "Error parsing Path \""@ + path + "\": Encountered illegal character sequence \""@
            + illegal_part(bad) + "\" whilst parsing path segment \""@ + bad + "\""@
    }
}

/// `object_store::path::Path::parse`: the path without its outer slashes, where every
/// segment between slashes may stand in a path; otherwise the words of its error, which
/// name the path and, unless it is empty, the first segment that may not stand in one and
/// what is wrong in it.
#[verifier::external_body]
pub(crate) fn parse_path(path: &str) -> (parsed: Result<String, String>)
    ensures
        match parsed {
            Ok(text) => is_object_path(path@) && text@ == bare_path(path@),
            Err(what) => !is_object_path(path@) && what@ == path_complaint(path@),
        },
{
    match object_store::path::Path::parse(path) {
        Ok(parsed) => Ok(String::from(parsed)),
        Err(error) => Err(error.to_string()),
    }
}

/// The prefix under which every key of a store stands.
#[derive(Debug)]
pub struct KeyScope {
    /// The prefix, without outer slashes; empty means the bucket root.
    pub prefix: String,
}

/// The full path of `key` under `prefix`, before it is checked.
pub open spec fn full_key(prefix: Seq<char>, key: Seq<char>) -> Seq<char> {
    let bare = without_start(key, CharClass::Char('/'));
    if prefix.len() == 0 {
        bare
    } else {
        prefix + "/"@ + bare
    }
}

/// The path that a listing of `within` under `prefix` starts at, before it is
/// checked.
pub open spec fn full_prefix(prefix: Seq<char>, within: Seq<char>) -> Seq<char> {
    let bare = trimmed(within, CharClass::Char('/'));
    if bare.len() == 0 {
        prefix
    } else {
        full_key(prefix, bare)
    }
}

/// What is left of a text behind its first `n` bytes; all of it where no character
/// ends there.
pub open spec fn behind_bytes(text: Seq<char>, n: int) -> Seq<char> {
    if 0 <= n <= encode_utf8(text).len() && is_char_boundary(encode_utf8(text), n) {
        decode_utf8(encode_utf8(text).skip(n))
    } else {
        text
    }
}

/// The key that a listed path has inside the scope.
pub open spec fn relative_key(prefix: Seq<char>, path: Seq<char>) -> Seq<char> {
    if prefix.len() == 0 {
        path
    } else {
        behind_bytes(path, encode_utf8(prefix).len() as int + 1)
    }
}

/// The outcome of checking a path.
pub open spec fn checked_path(path: Seq<char>) -> Result<Seq<char>, ErrorView> {
    if is_object_path(path) {
        Ok(bare_path(path))
    } else {
        Err(ErrorView::Backend(path_complaint(path)))
    }
}

/// What a checked path says.
pub open spec fn path_view(path: Result<String, StoreError>) -> Result<Seq<char>, ErrorView> {
    match path {
        Ok(text) => Ok(text@),
        Err(error) => Err(error@),
    }
}

impl KeyScope {
    /// The scope under `prefix`.
    pub fn new(prefix: &str) -> (scope: Self)
        ensures
            scope.prefix@ == trimmed(prefix@, CharClass::Char('/')),
    {
        KeyScope { prefix: trim(prefix, CharClass::Char('/')) }
    }

    /// The path of the object with the key `key`.
    pub fn path(&self, key: &str) -> (path: Result<String, StoreError>)
        ensures
            path_view(path) == checked_path(full_key(self.prefix@, key@)),
    {
        let bare: String = trim_start(key, CharClass::Char('/'));
        let full: String = if self.prefix.as_str().is_empty() {
            bare
        } else {
            let mut full: String = self.prefix.clone();
            full.append("/");
            full.append(bare.as_str());
            full
        };
        match parse_path(full.as_str()) {
            Ok(text) => Ok(text),
            Err(what) => Err(StoreError::Backend(what)),
        }
    }

    /// The path that a listing of `within` starts at.
    pub fn prefix_path(&self, within: &str) -> (path: Result<String, StoreError>)
        ensures
            path_view(path) == (if full_prefix(self.prefix@, within@).len() == 0 {
                Ok(Seq::empty())
            } else {
                checked_path(full_prefix(self.prefix@, within@))
            }),
    {
        let bare: String = trim(within, CharClass::Char('/'));
        if bare.as_str().is_empty() {
            if self.prefix.as_str().is_empty() {
                let root: String = String::new();
                assert(self.prefix@.len() == 0);
                return Ok(root);
            }
            return match parse_path(self.prefix.as_str()) {
                Ok(text) => Ok(text),
                Err(what) => Err(StoreError::Backend(what)),
            };
        }
        let path: Result<String, StoreError> = self.path(bare.as_str());
        proof {
            lemma_trimmed_key(self.prefix@, within@);
        }
        path
    }

    /// The key that a listed path has inside the scope.
    pub fn relative(&self, path: &str) -> (key: String)
        ensures
            key@ == relative_key(self.prefix@, path@),
    {
        if self.prefix.as_str().is_empty() {
            return path.to_owned();
        }
        let bytes: Vec<u8> = path.as_bytes_vec();
        let before: usize = self.prefix.as_str().as_bytes_vec().len();
        if before >= bytes.len() {
            return path.to_owned();
        }
        let n: usize = before + 1;
        if path.is_char_boundary(n) {
            let (_, tail): (&str, &str) = path.split_at(n);
            proof {
                let rest = encode_utf8(path@).subrange(n as int, encode_utf8(path@).len() as int);
                assert(rest =~= encode_utf8(path@).skip(n as int));
                vstd::utf8::encode_utf8_decode_utf8(tail@);
            }
            tail.to_owned()
        } else {
            path.to_owned()
        }
    }
}

/// Trimming the start of a trimmed key takes nothing off, and it is not empty.
proof fn lemma_trimmed_key(prefix: Seq<char>, within: Seq<char>)
    requires
        trimmed(within, CharClass::Char('/')).len() > 0,
    ensures
        full_prefix(prefix, within).len() > 0,
{
    let bare = trimmed(within, CharClass::Char('/'));
    crate::trim::law_trim_is_idempotent(within, CharClass::Char('/'));
    crate::trim::lemma_start_done(within, CharClass::Char('/'));
    crate::trim::lemma_end_done(without_start(within, CharClass::Char('/')), CharClass::Char('/'));
    assert(bare[0] == without_start(within, CharClass::Char('/'))[0]);
    crate::trim::lemma_start_stays(bare, CharClass::Char('/'));
}

/// The scope takes off what it put on: a key that stands under the prefix comes
/// back from a listing as it was.
pub proof fn law_a_listed_key_is_the_key(prefix: Seq<char>, key: Seq<char>)
    requires
        prefix.len() > 0,
    ensures
        relative_key(prefix, prefix + "/"@ + key) == key,
{
    reveal_strlit("/");
    assert("/"@ =~= seq!['/']);
    let path = prefix + "/"@ + key;
    let head = prefix + "/"@;
    lemma_encode_concat(head, key);
    lemma_encode_concat(prefix, "/"@);
    assert(encode_utf8("/"@).len() == 1) by {
        vstd::utf8::is_ascii_chars_encode_utf8("/"@);
    }
    let n: int = encode_utf8(prefix).len() as int + 1;
    let bytes = encode_utf8(path);
    assert(path =~= head + key);
    assert(bytes =~= encode_utf8(head) + encode_utf8(key));
    assert(encode_utf8(head).len() == n);
    assert(bytes.skip(n) =~= encode_utf8(key));
    vstd::utf8::encode_utf8_decode_utf8(key);
    lemma_boundary_between(head, key);
}

/// Where one text ends and the next begins a character begins.
proof fn lemma_boundary_between(a: Seq<char>, b: Seq<char>)
    ensures
        is_char_boundary(encode_utf8(a + b), encode_utf8(a).len() as int),
    decreases a.len(),
{
    if a.len() == 0 {
        assert(a + b =~= b);
        vstd::utf8::encode_utf8_valid_utf8(b);
        vstd::utf8::is_char_boundary_start_end_of_seq(encode_utf8(b));
    } else {
        lemma_boundary_between(a.drop_first(), b);
        assert((a + b).drop_first() =~= a.drop_first() + b);
        vstd::utf8::encode_utf8_first_scalar(a + b);
        vstd::utf8::encode_utf8_first_scalar(a);
        vstd::utf8::encode_utf8_valid_utf8(a + b);
        lemma_encode_concat(a, b);
        assert((a + b)[0] == a[0]);
        assert(vstd::utf8::pop_first_scalar(encode_utf8(a + b)) =~= encode_utf8(
            (a + b).drop_first(),
        ));
    }
}

// ---- Listings ----------------------------------------------------------------------

/// A key and the version of the object under it.
#[derive(Debug)]
pub struct Listed {
    /// Key inside the scope.
    pub key: String,
    /// Version that the listing reported.
    pub version: ObjectVersion,
}

impl Ranked for Listed {
    open spec fn precedes(self, other: Self) -> bool {
        lex_less(self.key@, other.key@)
    }

    fn ranks_before(&self, other: &Self) -> (before: bool) {
        comes_before(self.key.as_str(), other.key.as_str())
    }

    proof fn precedes_is_asymmetric(a: Self, b: Self) {
        lemma_lex_asymmetric(a.key@, b.key@);
    }

    proof fn precedes_has_no_gaps(a: Self, b: Self, c: Self) {
        crate::sort::lemma_lex_no_gaps(a.key@, b.key@, c.key@);
    }
}

/// What a backend reported of one object of a listing.
#[derive(Debug)]
pub struct RawListed {
    /// Full path.
    pub location: String,
    /// ETag, if any.
    pub etag: Option<String>,
    /// Version id, if any.
    pub version: Option<String>,
}

impl KeyScope {
    /// The objects of a listing by key. An object without any identity fails the
    /// listing.
    pub fn listing(&self, raw: Vec<RawListed>) -> (found: Result<Vec<Listed>, StoreError>)
        ensures
            match found {
                Ok(list) => exists|named: Seq<Listed>|
                    list@ == stable_sorted(named) && #[trigger] named_as(self.prefix@, raw@, named),
                Err(error) => error@ is MissingEtag && exists|i: int|
                    0 <= i < raw@.len() && (#[trigger] raw@[i]).etag is None && raw@[i].version
                        is None,
            },
    {
        let mut named: Vec<Listed> = Vec::new();
        let mut i: usize = 0;
        while i < raw.len()
            invariant
                i <= raw@.len(),
                named_as(self.prefix@, raw@.take(i as int), named@),
            decreases raw@.len() - i,
        {
            let item: &RawListed = &raw[i];
            let key: String = self.relative(item.location.as_str());
            let version: ObjectVersion = match ObjectVersion::identified(
                clone_opt_text(&item.etag),
                clone_opt_text(&item.version),
            ) {
                Ok(version) => version,
                Err(error) => {
                    assert(raw@[i as int].etag is None);
                    return Err(error);
                },
            };
            named.push(Listed { key, version });
            i += 1;
        }
        assert(raw@.take(i as int) =~= raw@);
        let ghost all = named@;
        let sorted: Vec<Listed> = sort(named);
        assert(named_as(self.prefix@, raw@, all));
        Ok(sorted)
    }
}

/// Whether `named` holds the objects of `raw` under the keys they have in the
/// scope.
pub open spec fn named_as(prefix: Seq<char>, raw: Seq<RawListed>, named: Seq<Listed>) -> bool {
    &&& raw.len() == named.len()
    &&& forall|i: int|
        #![trigger raw[i]]
        #![trigger named[i]]
        0 <= i < raw.len() ==> {
            &&& named[i].key@ == relative_key(prefix, raw[i].location@)
            &&& named[i].version.etag == raw[i].etag
            &&& named[i].version.version == raw[i].version
            &&& raw[i].etag is Some || raw[i].version is Some
        }
}

} // verus!
