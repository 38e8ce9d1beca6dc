//! The stub bucket itself: conditional writes, reads, deletes and listings.

use vstd::prelude::*;

use crate::numbers::{decimal, decimal_text};
use crate::ordered::OrderedMap;
use crate::s3_stub::dates::{http_date, rfc2822};
use crate::s3_stub::options::{
    error_response, Fault, OptionsView, RecordedRequest, Request, Response, ResponseView,
    StubOptions,
};
use crate::s3_stub::wire::{first_header, header, Header};
use crate::s3_stub::xml::{bare_etag, normalize_etag};
use crate::text::{quoted, quoted_text, same_text};
use crate::trim::{trim, trimmed, CharClass};

verus! {

/// One object of the bucket.
#[derive(Debug)]
pub struct StoredObject {
    /// Body of the last accepted write.
    pub bytes: Vec<u8>,
    /// ETag of that write.
    pub etag: String,
    /// When it was accepted, in seconds since 1970.
    pub last_modified: u64,
    /// Version id of that write.
    pub version_id: String,
}

/// What a `StoredObject` says.
pub struct ObjectView {
    pub bytes: Seq<u8>,
    pub etag: Seq<char>,
    pub last_modified: nat,
    pub version_id: Seq<char>,
}

impl View for StoredObject {
    type V = ObjectView;

    open spec fn view(&self) -> ObjectView {
        ObjectView {
            bytes: self.bytes@,
            etag: self.etag@,
            last_modified: self.last_modified as nat,
            version_id: self.version_id@,
        }
    }
}

/// The state of a stub bucket.
#[derive(Debug)]
pub struct State {
    /// What the bucket was told to do.
    pub options: StubOptions,
    /// The objects, by key.
    pub objects: OrderedMap<StoredObject>,
    /// Every request served so far.
    pub requests: Vec<RecordedRequest>,
    /// How many writes were accepted.
    pub etag_seq: u64,
    /// How many version ids were given out.
    pub version_seq: u64,
    /// Conditional writes left to answer with an injected conflict.
    pub conflicts_left: usize,
}

/// What a `State` says, but for the log of requests.
pub struct Bucket {
    pub options: OptionsView,
    pub objects: Map<Seq<char>, ObjectView>,
    pub etag_seq: nat,
    pub version_seq: nat,
    pub conflicts_left: nat,
}

/// What the objects under each key say.
pub open spec fn objects_view(
    objects: Map<Seq<char>, StoredObject>,
) -> Map<Seq<char>, ObjectView> {
    Map::new(|k: Seq<char>| objects.dom().contains(k), |k: Seq<char>| objects[k]@)
}

impl View for State {
    type V = Bucket;

    open spec fn view(&self) -> Bucket {
        Bucket {
            options: self.options@,
            objects: objects_view(self.objects@),
            etag_seq: self.etag_seq as nat,
            version_seq: self.version_seq as nat,
            conflicts_left: self.conflicts_left as nat,
        }
    }
}

/// How a conditional write is decided.
pub enum PutDecision {
    /// The key must not exist, and does.
    Exists,
    /// The key must exist, and does not.
    Missing,
    /// The object is not the one that the write is meant to replace.
    Moved,
    /// The preconditions hold, but a conflict is injected.
    Conflict,
    /// The write is accepted.
    Accepted,
}

/// Whether a header value is the wildcard.
pub open spec fn is_wildcard(value: Seq<char>) -> bool {
    trimmed(value, CharClass::Space) == "*"@
}

/// How a write to `key` with the given preconditions is decided.
pub open spec fn put_decision(
    bucket: Bucket,
    key: Seq<char>,
    if_match: Option<Seq<char>>,
    if_none_match: Option<Seq<char>>,
) -> PutDecision {
    let exists = bucket.objects.dom().contains(key);
    let checked = if_match is Some && !bucket.options.faults.contains(Fault::IgnoreIfMatch);
    if if_none_match is Some && is_wildcard(if_none_match->0) && exists {
        PutDecision::Exists
    } else if checked && !exists {
        PutDecision::Missing
    } else if checked && !is_wildcard(if_match->0) && bare_etag(if_match->0) != bare_etag(
        bucket.objects[key].etag,
    ) {
        PutDecision::Moved
    } else if if_match is Some && bucket.conflicts_left > 0 {
        PutDecision::Conflict
    } else {
        PutDecision::Accepted
    }
}

/// The ETag of the write with the number `seq` and a body of `len` bytes.
pub open spec fn etag_of(seq: nat, len: nat) -> Seq<char> {
    "\"stub-"@ + decimal(seq) + "-"@ + decimal(len) + "\""@
}

/// The version id with the number `seq`.
pub open spec fn version_of(seq: nat) -> Seq<char> {
    "stub-version-"@ + decimal(seq)
}

/// The object that an accepted write stores.
pub open spec fn written(bucket: Bucket, body: Seq<u8>, now: nat) -> ObjectView {
    ObjectView {
        bytes: body,
        etag: etag_of(bucket.etag_seq + 1, body.len()),
        last_modified: now,
        version_id: version_of(bucket.version_seq + 1),
    }
}

/// The bucket after a write to `key`. Only an accepted write stores anything; an
/// injected conflict uses one of those that are left.
pub open spec fn after_put(
    bucket: Bucket,
    key: Seq<char>,
    if_match: Option<Seq<char>>,
    if_none_match: Option<Seq<char>>,
    body: Seq<u8>,
    now: nat,
) -> Bucket {
    match put_decision(bucket, key, if_match, if_none_match) {
        PutDecision::Accepted => Bucket {
            objects: bucket.objects.insert(key, written(bucket, body, now)),
            etag_seq: bucket.etag_seq + 1,
            version_seq: bucket.version_seq + 1,
            ..bucket
        },
        PutDecision::Conflict => Bucket {
            conflicts_left: (bucket.conflicts_left - 1) as nat,
            ..bucket
        },
        _ => bucket,
    }
}

/// The headers of the answer to an accepted write.
pub open spec fn put_headers(options: OptionsView, object: ObjectView) -> Seq<
    (Seq<char>, Seq<char>),
> {
    if options.put_version_id {
        seq![("etag"@, object.etag), ("x-amz-version-id"@, object.version_id)]
    } else {
        seq![("etag"@, object.etag)]
    }
}

/// The answer to a write to `key`.
pub open spec fn put_response(
    bucket: Bucket,
    key: Seq<char>,
    if_match: Option<Seq<char>>,
    if_none_match: Option<Seq<char>>,
    body: Seq<u8>,
    now: nat,
) -> ResponseView {
    match put_decision(bucket, key, if_match, if_none_match) {
        PutDecision::Exists => error_response(
            412,
            "PreconditionFailed"@,
            "the object already exists"@,
        ),
        PutDecision::Missing => error_response(404, "NoSuchKey"@, "the object does not exist"@),
        PutDecision::Moved => error_response(
            412,
            "PreconditionFailed"@,
            "the object moved: the If-Match ETag is not the stored one"@,
        ),
        PutDecision::Conflict => error_response(
            409,
            "Conflict"@,
            "a conflicting conditional write is in flight (injected)"@,
        ),
        PutDecision::Accepted => ResponseView {
            status: 200,
            headers: put_headers(bucket.options, written(bucket, body, now)),
            body: Seq::empty(),
        },
    }
}

/// The ETag that a read reports.
pub open spec fn reported_etag(options: OptionsView, etag: Seq<char>) -> Seq<char> {
    if options.faults.contains(Fault::StaleReadEtag) {
        "\"stale-"@ + trimmed(etag, CharClass::Char('"')) + "\""@
    } else {
        etag
    }
}

/// The body that a read hands out.
pub open spec fn served_body(options: OptionsView, bytes: Seq<u8>) -> Seq<u8> {
    if options.faults.contains(Fault::TruncateReadBody) && bytes.len() > 1 {
        bytes.take(1)
    } else {
        bytes
    }
}

/// The refusal of a read that carries the conditional header `name`.
pub open spec fn conditional_read_refusal(name: Seq<char>) -> ResponseView {
    error_response(
        501,
        "NotImplemented"@,
        "the stub does not implement conditional reads ("@ + name + " on GET/HEAD)"@,
    )
}

/// The answer to a read of `key`.
pub open spec fn get_response(
    bucket: Bucket,
    key: Seq<char>,
    headers: Seq<(Seq<char>, Seq<char>)>,
) -> ResponseView {
    if first_header(headers, "if-none-match"@) is Some {
        conditional_read_refusal("if-none-match"@)
    } else if first_header(headers, "if-match"@) is Some {
        conditional_read_refusal("if-match"@)
    } else if !bucket.objects.dom().contains(key) {
        error_response(404, "NoSuchKey"@, "no object at "@ + quoted(key))
    } else {
        let object = bucket.objects[key];
        ResponseView {
            status: 200,
            headers: seq![
                ("etag"@, reported_etag(bucket.options, object.etag)),
                ("last-modified"@, http_date(object.last_modified)),
                ("content-type"@, "application/octet-stream"@),
            ],
            body: served_body(bucket.options, object.bytes),
        }
    }
}

impl State {
    /// The objects stand in the order of their keys.
    pub open spec fn wf(&self) -> bool {
        self.objects.wf()
    }

    /// There are numbers left for one more write.
    pub open spec fn has_room(&self) -> bool {
        self.etag_seq < u64::MAX && self.version_seq < u64::MAX
    }

    /// An empty bucket.
    pub fn new(options: StubOptions) -> (state: Self)
        ensures
            state.wf(),
            state.has_room(),
            state@ == (Bucket {
                options: options@,
                objects: Map::empty(),
                etag_seq: 0,
                version_seq: 0,
                conflicts_left: options@.conditional_put_conflicts,
            }),
            state.requests@.len() == 0,
    {
        let conflicts: usize = options.conditional_put_conflicts;
        let state = State {
            options,
            objects: OrderedMap::new(),
            requests: Vec::new(),
            etag_seq: 0,
            version_seq: 0,
            conflicts_left: conflicts,
        };
        assert(state@.objects =~= Map::<Seq<char>, ObjectView>::empty());
        state
    }

    /// Checks the preconditions and stores the body as one step.
    pub fn put(&mut self, key: &str, request: &Request, now: u64) -> (response: Response)
        requires
            old(self).wf(),
            old(self).has_room(),
        ensures
            final(self).wf(),
            final(self)@ == after_put(
                old(self)@,
                key@,
                first_header(request@.headers, "if-match"@),
                first_header(request@.headers, "if-none-match"@),
                request@.body,
                now as nat,
            ),
            response@ == put_response(
                old(self)@,
                key@,
                first_header(request@.headers, "if-match"@),
                first_header(request@.headers, "if-none-match"@),
                request@.body,
                now as nat,
            ),
            final(self).requests == old(self).requests,
    {
        let if_match: Option<String> = header(&request.headers, "if-match");
        let if_none_match: Option<String> = header(&request.headers, "if-none-match");
        let found: Option<usize> = self.objects.find(key);
        if let Some(value) = &if_none_match {
            if same_text(trim(value.as_str(), CharClass::Space).as_str(), "*") && found.is_some() {
                return Response::error(412, "PreconditionFailed", "the object already exists");
            }
        }
        if let Some(expected) = &if_match {
            if !self.options.faulted(Fault::IgnoreIfMatch) {
                let wildcard: bool = same_text(
                    trim(expected.as_str(), CharClass::Space).as_str(),
                    "*",
                );
                match found {
                    None => {
                        return Response::error(404, "NoSuchKey", "the object does not exist");
                    },
                    Some(at) => {
                        let wanted: String = normalize_etag(expected.as_str());
                        let stored: String = normalize_etag(
                            self.objects.entries[at].1.etag.as_str(),
                        );
                        if !wildcard && !same_text(wanted.as_str(), stored.as_str()) {
                            return Response::error(
                                412,
                                "PreconditionFailed",
                                "the object moved: the If-Match ETag is not the stored one",
                            );
                        }
                    },
                }
            }
            if self.conflicts_left > 0 {
                self.conflicts_left = self.conflicts_left - 1;
                return Response::error(
                    409,
                    "Conflict",
                    "a conflicting conditional write is in flight (injected)",
                );
            }
        }
        let ghost before = self@;
        self.etag_seq = self.etag_seq + 1;
        self.version_seq = self.version_seq + 1;
        let mut etag: String = "\"stub-".to_owned();
        etag.append(decimal_text(self.etag_seq).as_str());
        etag.append("-");
        etag.append(decimal_text(request.body.len() as u64).as_str());
        etag.append("\"");
        let mut version_id: String = "stub-version-".to_owned();
        version_id.append(decimal_text(self.version_seq).as_str());
        let bytes: Vec<u8> = request.body.clone();
        assert(bytes@ =~= request.body@);
        let stored = StoredObject {
            bytes,
            etag: etag.clone(),
            last_modified: now,
            version_id: version_id.clone(),
        };
        let ghost kept = self.objects@;
        let ghost object = stored@;
        self.objects.insert(key.to_owned(), stored);
        assert(object == written(before, request@.body, now as nat));
        assert(objects_view(self.objects@) =~= objects_view(kept).insert(key@, object));
        let mut headers: Vec<Header> = Vec::new();
        headers.push(("etag".to_owned(), etag));
        if self.options.put_version_id {
            headers.push(("x-amz-version-id".to_owned(), version_id));
        }
        let response = Response { status: 200, headers, body: Vec::new() };
        assert(response@.headers =~= put_headers(before.options, object));
        response
    }

    /// Reads an object. Conditional reads are refused rather than answered.
    pub fn get(&self, key: &str, request: &Request) -> (response: Response)
        requires
            self.wf(),
        ensures
            response@ == get_response(self@, key@, request@.headers),
    {
        if header(&request.headers, "if-none-match").is_some() {
            return Response::error(
                501,
                "NotImplemented",
                conditional_read_message("if-none-match").as_str(),
            );
        }
        if header(&request.headers, "if-match").is_some() {
            return Response::error(
                501,
                "NotImplemented",
                conditional_read_message("if-match").as_str(),
            );
        }
        match self.objects.get(key) {
            None => {
                let mut message: String = "no object at ".to_owned();
                message.append(quoted_text(key).as_str());
                Response::error(404, "NoSuchKey", message.as_str())
            },
            Some(object) => {
                assert(self@.objects[key@] == object@);
                let etag: String = if self.options.faulted(Fault::StaleReadEtag) {
                    let mut stale: String = "\"stale-".to_owned();
                    stale.append(trim(object.etag.as_str(), CharClass::Char('"')).as_str());
                    stale.append("\"");
                    stale
                } else {
                    object.etag.clone()
                };
                let mut body: Vec<u8> = object.bytes.clone();
                assert(body@ =~= object.bytes@);
                if self.options.faulted(Fault::TruncateReadBody) && body.len() > 1 {
                    body.truncate(1);
                    assert(body@ =~= object.bytes@.take(1));
                }
                let mut headers: Vec<Header> = Vec::new();
                headers.push(("etag".to_owned(), etag));
                headers.push(("last-modified".to_owned(), rfc2822(object.last_modified)));
                headers.push(("content-type".to_owned(), "application/octet-stream".to_owned()));
                let response = Response { status: 200, headers, body };
                assert(response@.headers =~= seq![
                    ("etag"@, reported_etag(self@.options, object@.etag)),
                    ("last-modified"@, http_date(object@.last_modified)),
                    ("content-type"@, "application/octet-stream"@),
                ]);
                response
            },
        }
    }

    /// Removes an object. Removing one that is gone is a success too.
    pub fn delete(&mut self, key: &str) -> (response: Response)
        requires
            old(self).wf(),
        ensures
            final(self).wf(),
            final(self)@ == (Bucket { objects: old(self)@.objects.remove(key@), ..old(self)@ }),
            response@ == (ResponseView { status: 204, headers: Seq::empty(), body: Seq::empty() }),
            final(self).requests == old(self).requests,
    {
        let ghost kept = self.objects@;
        self.objects.remove(key);
        assert(objects_view(self.objects@) =~= objects_view(kept).remove(key@));
        Response::empty(204)
    }
}

/// What a refused conditional read is told.
fn conditional_read_message(name: &str) -> (message: String)
    ensures
        message@ == "the stub does not implement conditional reads ("@ + name@ + " on GET/HEAD)"@,
{
    let mut message: String = "the stub does not implement conditional reads (".to_owned();
    message.append(name);
    message.append(" on GET/HEAD)");
    message
}

} // verus!
