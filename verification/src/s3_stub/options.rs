//! What a stub bucket is told to do, what it is asked and what it answers.

use vstd::prelude::*;
use vstd::utf8::encode_utf8;

use crate::numbers::{decimal, decimal_text};
use crate::s3_stub::wire::{headers_view, Header};
use crate::s3_stub::xml::{escape_xml, xml_escaped};
use crate::text::same_text;

verus! {

/// Something the stub does wrong on purpose, so that a probe which trusts the
/// backend can be shown failing.
#[derive(Clone, Copy, Debug, PartialEq, Eq, Structural)]
pub enum Fault {
    /// Accept every `If-Match`, however stale.
    IgnoreIfMatch,
    /// Answer `GET` and `HEAD` with an ETag that no accepted write ever returned.
    StaleReadEtag,
    /// Answer the first page of a listing as if it were the whole listing.
    TruncateListing,
    /// Answer `GET` with only the first byte of the object.
    TruncateReadBody,
}

/// Configuration of a stub bucket.
#[derive(Debug)]
pub struct StubOptions {
    /// Bucket name the stub answers for; anything else is `NoSuchBucket`.
    pub bucket: String,
    /// Return `x-amz-version-id` from `PUT` responses only.
    pub put_version_id: bool,
    /// Faults to inject; empty means a well-behaved backend.
    pub faults: Vec<Fault>,
    /// Objects per `ListObjectsV2` page.
    pub page_size: usize,
    /// How many conditional writes that satisfy their preconditions to answer with
    /// `409 Conflict` before behaving.
    pub conditional_put_conflicts: usize,
}

/// What a `StubOptions` says.
pub struct OptionsView {
    pub bucket: Seq<char>,
    pub put_version_id: bool,
    pub faults: Seq<Fault>,
    pub page_size: nat,
    pub conditional_put_conflicts: nat,
}

impl View for StubOptions {
    type V = OptionsView;

    open spec fn view(&self) -> OptionsView {
        OptionsView {
            bucket: self.bucket@,
            put_version_id: self.put_version_id,
            faults: self.faults@,
            page_size: self.page_size as nat,
            conditional_put_conflicts: self.conditional_put_conflicts as nat,
        }
    }
}

impl Default for StubOptions {
    /// A well-behaved bucket called `stub-bucket`.
    fn default() -> (options: Self)
        ensures
            options@ == (OptionsView {
                bucket: "stub-bucket"@,
                put_version_id: false,
                faults: Seq::empty(),
                page_size: 1000,
                conditional_put_conflicts: 0,
            }),
    {
        StubOptions {
            bucket: "stub-bucket".to_owned(),
            put_version_id: false,
            faults: Vec::new(),
            page_size: 1000,
            conditional_put_conflicts: 0,
        }
    }
}

impl StubOptions {
    /// The bucket name this stub answers for.
    pub fn with_bucket(self, bucket: String) -> (options: Self)
        ensures
            options@ == (OptionsView { bucket: bucket@, ..self@ }),
    {
        StubOptions {
            bucket,
            put_version_id: self.put_version_id,
            faults: self.faults,
            page_size: self.page_size,
            conditional_put_conflicts: self.conditional_put_conflicts,
        }
    }

    /// Report a PUT-only `x-amz-version-id`.
    pub fn with_put_version_id(self, put_version_id: bool) -> (options: Self)
        ensures
            options@ == (OptionsView { put_version_id, ..self@ }),
    {
        StubOptions {
            bucket: self.bucket,
            put_version_id,
            faults: self.faults,
            page_size: self.page_size,
            conditional_put_conflicts: self.conditional_put_conflicts,
        }
    }

    /// Add a fault to inject.
    pub fn with_fault(self, fault: Fault) -> (options: Self)
        ensures
            options@ == (OptionsView { faults: self@.faults.push(fault), ..self@ }),
    {
        let mut faults: Vec<Fault> = self.faults;
        faults.push(fault);
        StubOptions {
            bucket: self.bucket,
            put_version_id: self.put_version_id,
            faults,
            page_size: self.page_size,
            conditional_put_conflicts: self.conditional_put_conflicts,
        }
    }

    /// Serve at most `page_size` objects per list response, and at least one.
    pub fn with_page_size(self, page_size: usize) -> (options: Self)
        ensures
            options@ == (OptionsView {
                page_size: if page_size == 0 {
                    1
                } else {
                    page_size as nat
                },
                ..self@
            }),
    {
        StubOptions {
            bucket: self.bucket,
            put_version_id: self.put_version_id,
            faults: self.faults,
            page_size: if page_size == 0 {
                1
            } else {
                page_size
            },
            conditional_put_conflicts: self.conditional_put_conflicts,
        }
    }

    /// Answer the next `count` conditional writes that satisfy their preconditions
    /// with `409 Conflict`, then behave normally.
    pub fn with_conditional_put_conflicts(self, count: usize) -> (options: Self)
        ensures
            options@ == (OptionsView { conditional_put_conflicts: count as nat, ..self@ }),
    {
        StubOptions {
            bucket: self.bucket,
            put_version_id: self.put_version_id,
            faults: self.faults,
            page_size: self.page_size,
            conditional_put_conflicts: count,
        }
    }

    /// Whether `fault` is one of those to inject.
    pub fn faulted(&self, fault: Fault) -> (injected: bool)
        ensures
            injected == self@.faults.contains(fault),
    {
        let mut i: usize = 0;
        while i < self.faults.len()
            invariant
                i <= self.faults@.len(),
                forall|j: int| 0 <= j < i ==> self.faults@[j] != fault,
            decreases self.faults@.len() - i,
        {
            if self.faults[i] == fault {
                return true;
            }
            i += 1;
        }
        false
    }
}

/// One request that the stub received, with the status it was answered with.
#[derive(Debug)]
pub struct RecordedRequest {
    /// HTTP method.
    pub method: String,
    /// Request target as sent, including the query string.
    pub target: String,
    /// `If-Match`, if the request carried one.
    pub if_match: Option<String>,
    /// `If-None-Match`, if the request carried one.
    pub if_none_match: Option<String>,
    /// `Authorization`, if the request carried one.
    pub authorization: Option<String>,
    /// Path the request was routed to, with the bucket removed.
    pub key: String,
    /// Status the stub answered with.
    pub status: u16,
}

/// What a `RecordedRequest` says.
pub struct RecordedView {
    pub method: Seq<char>,
    pub target: Seq<char>,
    pub if_match: Option<Seq<char>>,
    pub if_none_match: Option<Seq<char>>,
    pub authorization: Option<Seq<char>>,
    pub key: Seq<char>,
    pub status: u16,
}

impl View for RecordedRequest {
    type V = RecordedView;

    open spec fn view(&self) -> RecordedView {
        RecordedView {
            method: self.method@,
            target: self.target@,
            if_match: crate::text::opt_text(self.if_match),
            if_none_match: crate::text::opt_text(self.if_none_match),
            authorization: crate::text::opt_text(self.authorization),
            key: self.key@,
            status: self.status,
        }
    }
}

/// A request as it came off the wire.
#[derive(Debug)]
pub struct Request {
    /// HTTP method.
    pub method: String,
    /// Request target, with its query string.
    pub target: String,
    /// Headers, with lower-case names.
    pub headers: Vec<Header>,
    /// Body.
    pub body: Vec<u8>,
}

/// What a `Request` says.
pub struct RequestView {
    pub method: Seq<char>,
    pub target: Seq<char>,
    pub headers: Seq<(Seq<char>, Seq<char>)>,
    pub body: Seq<u8>,
}

impl View for Request {
    type V = RequestView;

    open spec fn view(&self) -> RequestView {
        RequestView {
            method: self.method@,
            target: self.target@,
            headers: headers_view(self.headers@),
            body: self.body@,
        }
    }
}

/// An answer before it goes onto the wire. The body is there even where the
/// method forbids sending it: it is what `Content-Length` has to advertise.
#[derive(Debug)]
pub struct Response {
    /// Status code.
    pub status: u16,
    /// Headers.
    pub headers: Vec<Header>,
    /// Body.
    pub body: Vec<u8>,
}

/// What a `Response` says.
pub struct ResponseView {
    pub status: u16,
    pub headers: Seq<(Seq<char>, Seq<char>)>,
    pub body: Seq<u8>,
}

impl View for Response {
    type V = ResponseView;

    open spec fn view(&self) -> ResponseView {
        ResponseView {
            status: self.status,
            headers: headers_view(self.headers@),
            body: self.body@,
        }
    }
}

/// An S3 error document.
pub open spec fn error_document(code: Seq<char>, message: Seq<char>) -> Seq<char> {
    "<?xml version=\"1.0\" encoding=\"UTF-8\"?>\n<Error><Code>"@ + code + "</Code><Message>"@
        + xml_escaped(message) + "</Message></Error>"@
}

/// An answer that carries an XML document.
pub open spec fn xml_response(status: u16, document: Seq<char>) -> ResponseView {
    ResponseView {
        status,
        headers: seq![("content-type"@, "application/xml"@)],
        body: encode_utf8(document),
    }
}

/// An answer that carries an S3 error document.
pub open spec fn error_response(status: u16, code: Seq<char>, message: Seq<char>) -> ResponseView {
    xml_response(status, error_document(code, message))
}

impl Response {
    /// An answer without headers and body.
    pub fn empty(status: u16) -> (response: Self)
        ensures
            response@ == (ResponseView { status, headers: Seq::empty(), body: Seq::empty() }),
    {
        let response = Response { status, headers: Vec::new(), body: Vec::new() };
        assert(response@.headers =~= Seq::empty());
        response
    }

    /// An answer that carries an XML document.
    pub fn xml(status: u16, body: String) -> (response: Self)
        ensures
            response@ == xml_response(status, body@),
    {
        let mut headers: Vec<Header> = Vec::new();
        headers.push(("content-type".to_owned(), "application/xml".to_owned()));
        let response = Response { status, headers, body: body.as_str().as_bytes_vec() };
        assert(response@.headers =~= seq![("content-type"@, "application/xml"@)]);
        response
    }

    /// An answer that carries an S3 error document.
    pub fn error(status: u16, code: &str, message: &str) -> (response: Self)
        ensures
            response@ == error_response(status, code@, message@),
    {
        let mut body: String = "<?xml version=\"1.0\" encoding=\"UTF-8\"?>\n<Error><Code>".to_owned();
        body.append(code);
        body.append("</Code><Message>");
        body.append(escape_xml(message).as_str());
        body.append("</Message></Error>");
        Response::xml(status, body)
    }
}

/// The reason phrase of a status code.
pub open spec fn reason_phrase(status: u16) -> Seq<char> {
    if status == 200 {
        "OK"@
    } else if status == 204 {
        "No Content"@
    } else if status == 400 {
        "Bad Request"@
    } else if status == 404 {
        "Not Found"@
    } else if status == 409 {
        "Conflict"@
    } else if status == 412 {
        "Precondition Failed"@
    } else if status == 501 {
        "Not Implemented"@
    } else {
        "Internal Server Error"@
    }
}

/// The reason phrase of a status code.
pub fn reason(status: u16) -> (phrase: &'static str)
    ensures
        phrase@ == reason_phrase(status),
{
    match status {
        200 => "OK",
        204 => "No Content",
        400 => "Bad Request",
        404 => "Not Found",
        409 => "Conflict",
        412 => "Precondition Failed",
        501 => "Not Implemented",
        _ => "Internal Server Error",
    }
}

/// The header lines of a list of headers.
pub open spec fn header_lines(headers: Seq<(Seq<char>, Seq<char>)>) -> Seq<char>
    decreases headers.len(),
{
    if headers.len() == 0 {
        Seq::empty()
    } else {
        header_lines(headers.drop_last()) + (headers.last().0 + ": "@ + headers.last().1 + "\r\n"@)
    }
}

/// The head of an answer as it goes onto the wire.
pub open spec fn response_head(response: ResponseView) -> Seq<char> {
    "HTTP/1.1 "@ + decimal(response.status as nat) + " "@ + reason_phrase(response.status) + "\r\n"@
        + header_lines(response.headers) + "content-length: "@ + decimal(response.body.len())
        + "\r\n"@ + "connection: close\r\n\r\n"@
}

/// An answer as it goes onto the wire: the head, and the body unless the method
/// is `HEAD`.
pub open spec fn response_bytes(method: Seq<char>, response: ResponseView) -> Seq<u8> {
    encode_utf8(response_head(response)) + (if method == "HEAD"@ {
        Seq::empty()
    } else {
        response.body
    })
}

/// An answer as it goes onto the wire: the head, and the body unless the method
/// is `HEAD`.
pub fn write_response(method: &str, response: &Response) -> (bytes: Vec<u8>)
    ensures
        bytes@ == response_bytes(method@, response@),
{
    let mut head: String = "HTTP/1.1 ".to_owned();
    head.append(decimal_text(response.status as u64).as_str());
    head.append(" ");
    head.append(reason(response.status));
    head.append("\r\n");
    let ghost start = head@;
    let ghost all = response@.headers;
    let mut i: usize = 0;
    assert(all.take(0) =~= Seq::empty());
    assert(head@ =~= start + header_lines(all.take(0)));
    while i < response.headers.len()
        invariant
            i <= response.headers@.len(),
            all == headers_view(response.headers@),
            head@ == start + header_lines(all.take(i as int)),
        decreases response.headers@.len() - i,
    {
        let ghost before = head@;
        head.append(response.headers[i].0.as_str());
        head.append(": ");
        head.append(response.headers[i].1.as_str());
        head.append("\r\n");
        proof {
            let taken = all.take(i + 1);
            assert(taken.drop_last() =~= all.take(i as int));
            assert(head@ =~= start + header_lines(taken));
        }
        i += 1;
    }
    assert(all.take(i as int) =~= all);
    head.append("content-length: ");
    head.append(decimal_text(response.body.len() as u64).as_str());
    head.append("\r\n");
    head.append("connection: close\r\n\r\n");
    assert(head@ =~= response_head(response@));
    let mut bytes: Vec<u8> = head.as_str().as_bytes_vec();
    if !same_text(method, "HEAD") {
        let mut body: Vec<u8> = response.body.clone();
        assert(body@ =~= response.body@);
        bytes.append(&mut body);
    }
    bytes
}

} // verus!
