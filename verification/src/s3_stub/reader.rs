//! Reading one request off a connection: what to ask the connection for next, and
//! what the request says once it is whole.

use vstd::prelude::*;

use crate::numbers::{number, parse_number};
use crate::s3_stub::options::{Request, RequestView};
use crate::s3_stub::wire::{first_header, header, header_view, headers_view, Header};
use crate::text::{
    contains_text, has_part, quoted, quoted_text, same_text, split_all, split_first, split_on,
    split_once, texts,
};
use crate::trim::{
    ascii_lowered, first_word, take_word, to_ascii_lowercase, trim, trimmed, CharClass,
};

verus! {

/// The request line and the headers read so far.
#[derive(Debug)]
pub struct Head {
    /// HTTP method.
    pub method: String,
    /// Request target.
    pub target: String,
    /// Headers, with lower-case names.
    pub headers: Vec<Header>,
}

/// What a `Head` says.
pub struct HeadView {
    pub method: Seq<char>,
    pub target: Seq<char>,
    pub headers: Seq<(Seq<char>, Seq<char>)>,
}

impl View for Head {
    type V = HeadView;

    open spec fn view(&self) -> HeadView {
        HeadView {
            method: self.method@,
            target: self.target@,
            headers: headers_view(self.headers@),
        }
    }
}

/// How far the reading of a request has come.
#[derive(Debug)]
pub enum Reader {
    /// No request line yet.
    Start,
    /// Inside the headers.
    Headers(Head),
    /// The interim response is being sent.
    Interim(Head),
    /// Waiting for a body of known length.
    Body(Head),
    /// Waiting for the size of the next chunk.
    ChunkSize(Head, Vec<u8>),
    /// Waiting for the bytes of a chunk.
    ChunkData(Head, Vec<u8>),
    /// Waiting for the line end behind a chunk.
    ChunkEnd(Head, Vec<u8>),
    /// Inside the trailer behind the last chunk.
    Trailer(Head, Vec<u8>),
    /// Nothing more to read.
    Finished,
}

/// What a `Reader` says.
pub enum ReaderView {
    Start,
    Headers(HeadView),
    Interim(HeadView),
    Body(HeadView),
    ChunkSize(HeadView, Seq<u8>),
    ChunkData(HeadView, Seq<u8>),
    ChunkEnd(HeadView, Seq<u8>),
    Trailer(HeadView, Seq<u8>),
    Finished,
}

impl View for Reader {
    type V = ReaderView;

    open spec fn view(&self) -> ReaderView {
        match *self {
            Reader::Start => ReaderView::Start,
            Reader::Headers(head) => ReaderView::Headers(head@),
            Reader::Interim(head) => ReaderView::Interim(head@),
            Reader::Body(head) => ReaderView::Body(head@),
            Reader::ChunkSize(head, body) => ReaderView::ChunkSize(head@, body@),
            Reader::ChunkData(head, body) => ReaderView::ChunkData(head@, body@),
            Reader::ChunkEnd(head, body) => ReaderView::ChunkEnd(head@, body@),
            Reader::Trailer(head, body) => ReaderView::Trailer(head@, body@),
            Reader::Finished => ReaderView::Finished,
        }
    }
}

/// What the connection delivered.
#[derive(Debug)]
pub enum Input {
    /// One line, with its line end.
    Line(String),
    /// As many bytes as were asked for.
    Bytes(Vec<u8>),
    /// The interim response went out.
    Sent,
    /// The client closed the connection where a line was asked for.
    Closed,
}

/// What an `Input` says.
pub enum InputView {
    Line(Seq<char>),
    Bytes(Seq<u8>),
    Sent,
    Closed,
}

impl View for Input {
    type V = InputView;

    open spec fn view(&self) -> InputView {
        match *self {
            Input::Line(line) => InputView::Line(line@),
            Input::Bytes(bytes) => InputView::Bytes(bytes@),
            Input::Sent => InputView::Sent,
            Input::Closed => InputView::Closed,
        }
    }
}

/// Why a request could not be read.
#[derive(Debug)]
pub enum ReadError {
    /// The connection ended inside the headers.
    ClosedInHeaders,
    /// The connection ended before the last chunk.
    ClosedInChunks,
    /// A chunk size that is no hexadecimal number.
    BadChunkSize(String),
}

/// What a `ReadError` says.
pub enum ReadErrorView {
    ClosedInHeaders,
    ClosedInChunks,
    BadChunkSize(Seq<char>),
}

impl View for ReadError {
    type V = ReadErrorView;

    open spec fn view(&self) -> ReadErrorView {
        match *self {
            ReadError::ClosedInHeaders => ReadErrorView::ClosedInHeaders,
            ReadError::ClosedInChunks => ReadErrorView::ClosedInChunks,
            ReadError::BadChunkSize(digits) => ReadErrorView::BadChunkSize(digits@),
        }
    }
}

impl ReadError {
    /// What is told about the failure.
    pub fn message(&self) -> (text: String)
        ensures
            text@ == (match self@ {
                ReadErrorView::ClosedInHeaders => "the client closed the connection mid-headers"@,
                ReadErrorView::ClosedInChunks =>
                    "the chunked body ended before its zero-length chunk"@,
                ReadErrorView::BadChunkSize(digits) => "not a chunk size: "@ + quoted(digits),
            }),
    {
        match self {
            ReadError::ClosedInHeaders => {
                "the client closed the connection mid-headers".to_owned()
            },
            ReadError::ClosedInChunks => {
                "the chunked body ended before its zero-length chunk".to_owned()
            },
            ReadError::BadChunkSize(digits) => {
                let mut text: String = "not a chunk size: ".to_owned();
                text.append(quoted_text(digits.as_str()).as_str());
                text
            },
        }
    }
}

/// What is to be done next.
#[derive(Debug)]
pub enum Demand {
    /// Read a line.
    Line,
    /// Read exactly so many bytes.
    Bytes(usize),
    /// Send the interim response `100 Continue`.
    SendContinue,
    /// Answer this request.
    Done(Request),
    /// Close the connection: there was no request on it.
    Nothing,
    /// Drop the connection.
    Fail(ReadError),
}

/// What a `Demand` says.
pub enum DemandView {
    Line,
    Bytes(nat),
    SendContinue,
    Done(RequestView),
    Nothing,
    Fail(ReadErrorView),
}

impl View for Demand {
    type V = DemandView;

    open spec fn view(&self) -> DemandView {
        match *self {
            Demand::Line => DemandView::Line,
            Demand::Bytes(n) => DemandView::Bytes(n as nat),
            Demand::SendContinue => DemandView::SendContinue,
            Demand::Done(request) => DemandView::Done(request@),
            Demand::Nothing => DemandView::Nothing,
            Demand::Fail(error) => DemandView::Fail(error@),
        }
    }
}

/// Whether a line is blank.
pub open spec fn blank(line: Seq<char>) -> bool {
    trimmed(line, CharClass::Space).len() == 0
}

/// The request that a head and a body make.
pub open spec fn request_of(head: HeadView, body: Seq<u8>) -> RequestView {
    RequestView { method: head.method, target: head.target, headers: head.headers, body }
}

/// The method and the target of a request line: its first two words.
pub open spec fn request_line(line: Seq<char>) -> (Seq<char>, Seq<char>) {
    let first = first_word(line);
    (first.0, first_word(first.1).0)
}

/// The header that a line holds: a line without a colon holds none.
pub open spec fn header_of(line: Seq<char>) -> Option<(Seq<char>, Seq<char>)> {
    match split_first(line, ':') {
        Some(parts) => Some(
            (ascii_lowered(trimmed(parts.0, CharClass::Space)), trimmed(parts.1, CharClass::Space)),
        ),
        None => None,
    }
}

/// Whether the client waits for an interim response.
pub open spec fn wants_continue(headers: Seq<(Seq<char>, Seq<char>)>) -> bool {
    first_header(headers, "expect"@) matches Some(value) && ascii_lowered(value) == ascii_lowered(
        "100-continue"@,
    )
}

/// Whether the body comes in chunks.
pub open spec fn is_chunked(headers: Seq<(Seq<char>, Seq<char>)>) -> bool {
    first_header(headers, "transfer-encoding"@) matches Some(value) && has_part(
        ascii_lowered(value),
        "chunked"@,
    )
}

/// The length of a body that does not come in chunks; nothing where no length is
/// given or it is not readable.
pub open spec fn body_length(headers: Seq<(Seq<char>, Seq<char>)>) -> nat {
    match first_header(headers, "content-length"@) {
        Some(value) => match number(value, 10, usize::MAX as nat) {
            Some(n) => n,
            None => 0,
        },
        None => 0,
    }
}

/// How reading goes on where the body starts.
pub open spec fn at_body(head: HeadView) -> (ReaderView, DemandView) {
    if is_chunked(head.headers) {
        (ReaderView::ChunkSize(head, Seq::empty()), DemandView::Line)
    } else if body_length(head.headers) > 0 {
        (ReaderView::Body(head), DemandView::Bytes(body_length(head.headers)))
    } else {
        (ReaderView::Finished, DemandView::Done(request_of(head, Seq::empty())))
    }
}

/// The size that a chunk announces, before any extension.
pub open spec fn chunk_digits(line: Seq<char>) -> Seq<char> {
    split_all(trimmed(line, CharClass::Space), ';')[0]
}

/// How reading goes on.
pub open spec fn read_on(reader: ReaderView, input: InputView) -> (ReaderView, DemandView) {
    match (reader, input) {
        (ReaderView::Start, InputView::Line(line)) => if blank(line) {
            (ReaderView::Start, DemandView::Line)
        } else {
            let head = HeadView {
                method: request_line(line).0,
                target: request_line(line).1,
                headers: Seq::empty(),
            };
            (ReaderView::Headers(head), DemandView::Line)
        },
        (ReaderView::Start, _) => (ReaderView::Finished, DemandView::Nothing),
        (ReaderView::Headers(head), InputView::Line(line)) => if blank(line) {
            if wants_continue(head.headers) {
                (ReaderView::Interim(head), DemandView::SendContinue)
            } else {
                at_body(head)
            }
        } else {
            match header_of(line) {
                Some(entry) => (
                    ReaderView::Headers(HeadView { headers: head.headers.push(entry), ..head }),
                    DemandView::Line,
                ),
                None => (ReaderView::Headers(head), DemandView::Line),
            }
        },
        (ReaderView::Headers(_), _) => (
            ReaderView::Finished,
            DemandView::Fail(ReadErrorView::ClosedInHeaders),
        ),
        (ReaderView::Interim(head), _) => at_body(head),
        (ReaderView::Body(head), InputView::Bytes(bytes)) => (
            ReaderView::Finished,
            DemandView::Done(request_of(head, bytes)),
        ),
        (ReaderView::ChunkSize(head, body), InputView::Line(line)) => match number(
            chunk_digits(line),
            16,
            usize::MAX as nat,
        ) {
            Some(size) => if size == 0 {
                (ReaderView::Trailer(head, body), DemandView::Line)
            } else {
                (ReaderView::ChunkData(head, body), DemandView::Bytes(size))
            },
            None => (
                ReaderView::Finished,
                DemandView::Fail(ReadErrorView::BadChunkSize(chunk_digits(line))),
            ),
        },
        (ReaderView::ChunkSize(_, _), _) => (
            ReaderView::Finished,
            DemandView::Fail(ReadErrorView::ClosedInChunks),
        ),
        (ReaderView::ChunkData(head, body), InputView::Bytes(bytes)) => (
            ReaderView::ChunkEnd(head, body + bytes),
            DemandView::Bytes(2),
        ),
        (ReaderView::ChunkEnd(head, body), _) => (
            ReaderView::ChunkSize(head, body),
            DemandView::Line,
        ),
        (ReaderView::Trailer(head, body), InputView::Line(line)) => if blank(line) {
            (ReaderView::Finished, DemandView::Done(request_of(head, body)))
        } else {
            (ReaderView::Trailer(head, body), DemandView::Line)
        },
        (ReaderView::Trailer(head, body), _) => (
            ReaderView::Finished,
            DemandView::Done(request_of(head, body)),
        ),
        _ => (ReaderView::Finished, DemandView::Nothing),
    }
}

/// Whether the connection delivered what was asked for.
pub open spec fn delivers(reader: ReaderView, input: InputView) -> bool {
    match reader {
        ReaderView::Start | ReaderView::Headers(_) | ReaderView::ChunkSize(
            _,
            _,
        ) | ReaderView::Trailer(_, _) => input is Line || input is Closed,
        ReaderView::Interim(_) => input is Sent,
        ReaderView::Body(_) | ReaderView::ChunkData(_, _) | ReaderView::ChunkEnd(_, _) => input
            is Bytes,
        ReaderView::Finished => false,
    }
}

/// Whether a line is blank.
fn is_blank(line: &str) -> (found: bool)
    ensures
        found == blank(line@),
{
    trim(line, CharClass::Space).as_str().is_empty()
}

/// The request that a head and a body make.
fn make_request(head: Head, body: Vec<u8>) -> (request: Request)
    ensures
        request@ == request_of(head@, body@),
{
    Request { method: head.method, target: head.target, headers: head.headers, body }
}

/// How reading goes on where the body starts.
fn start_body(head: Head) -> (next: (Reader, Demand))
    ensures
        (next.0@, next.1@) == at_body(head@),
{
    let chunked: bool = match header(&head.headers, "transfer-encoding") {
        Some(value) => {
            contains_text(to_ascii_lowercase(value.as_str()).as_str(), "chunked")
        },
        None => false,
    };
    if chunked {
        let empty: Vec<u8> = Vec::new();
        return (Reader::ChunkSize(head, empty), Demand::Line);
    }
    let length: usize = match header(&head.headers, "content-length") {
        Some(value) => match parse_number(value.as_str(), 10) {
            Some(n) => n,
            None => 0,
        },
        None => 0,
    };
    if length > 0 {
        (Reader::Body(head), Demand::Bytes(length))
    } else {
        let empty: Vec<u8> = Vec::new();
        (Reader::Finished, Demand::Done(make_request(head, empty)))
    }
}

/// How reading goes on behind a line of the headers.
fn read_header(head: Head, line: &str) -> (next: (Reader, Demand))
    ensures
        (next.0@, next.1@) == read_on(ReaderView::Headers(head@), InputView::Line(line@)),
{
    if is_blank(line) {
        let interim: bool = match header(&head.headers, "expect") {
            Some(value) => same_text(
                to_ascii_lowercase(value.as_str()).as_str(),
                to_ascii_lowercase("100-continue").as_str(),
            ),
            None => false,
        };
        if interim {
            return (Reader::Interim(head), Demand::SendContinue);
        }
        return start_body(head);
    }
    match split_once(line, ':') {
        Some((name, value)) => {
            let mut longer: Head = head;
            let ghost before = longer@.headers;
            let entry: Header = (
                to_ascii_lowercase(trim(name.as_str(), CharClass::Space).as_str()),
                trim(value.as_str(), CharClass::Space),
            );
            let ghost pair = header_view(entry);
            longer.headers.push(entry);
            assert(longer@.headers =~= before.push(pair));
            (Reader::Headers(longer), Demand::Line)
        },
        None => (Reader::Headers(head), Demand::Line),
    }
}

/// The pieces of a text are at least one.
proof fn lemma_some_piece(text: Seq<char>, c: char)
    ensures
        split_all(text, c).len() > 0,
{
}

/// How reading goes on behind the size line of a chunk.
fn read_chunk_size(head: Head, body: Vec<u8>, line: &str) -> (next: (Reader, Demand))
    ensures
        (next.0@, next.1@) == read_on(
            ReaderView::ChunkSize(head@, body@),
            InputView::Line(line@),
        ),
{
    let pieces: Vec<String> = split_on(trim(line, CharClass::Space).as_str(), ';');
    proof {
        lemma_some_piece(trimmed(line@, CharClass::Space), ';');
        assert(texts(pieces@).len() == pieces@.len());
        assert(texts(pieces@)[0] == pieces@[0]@);
    }
    match parse_number(pieces[0].as_str(), 16) {
        Some(size) => {
            if size == 0 {
                (Reader::Trailer(head, body), Demand::Line)
            } else {
                (Reader::ChunkData(head, body), Demand::Bytes(size))
            }
        },
        None => (Reader::Finished, Demand::Fail(ReadError::BadChunkSize(pieces[0].clone()))),
    }
}

impl Reader {
    /// Takes in what the connection delivered and says what to do next.
    pub fn next(self, input: Input) -> (next: (Reader, Demand))
        requires
            delivers(self@, input@),
        ensures
            (next.0@, next.1@) == read_on(self@, input@),
    {
        match self {
            Reader::Start => match input {
                Input::Line(line) => {
                    if is_blank(line.as_str()) {
                        (Reader::Start, Demand::Line)
                    } else {
                        let (method, rest): (String, String) = take_word(line.as_str());
                        let (target, _): (String, String) = take_word(rest.as_str());
                        let head = Head { method, target, headers: Vec::new() };
                        assert(head@.headers =~= Seq::empty());
                        (Reader::Headers(head), Demand::Line)
                    }
                },
                _ => (Reader::Finished, Demand::Nothing),
            },
            Reader::Headers(head) => match input {
                Input::Line(line) => read_header(head, line.as_str()),
                _ => (Reader::Finished, Demand::Fail(ReadError::ClosedInHeaders)),
            },
            Reader::Interim(head) => start_body(head),
            Reader::Body(head) => match input {
                Input::Bytes(bytes) => (Reader::Finished, Demand::Done(make_request(head, bytes))),
                _ => (Reader::Finished, Demand::Nothing),
            },
            Reader::ChunkSize(head, body) => match input {
                Input::Line(line) => read_chunk_size(head, body, line.as_str()),
                _ => (Reader::Finished, Demand::Fail(ReadError::ClosedInChunks)),
            },
            Reader::ChunkData(head, body) => match input {
                Input::Bytes(bytes) => {
                    let mut whole: Vec<u8> = body;
                    let mut chunk: Vec<u8> = bytes;
                    whole.append(&mut chunk);
                    (Reader::ChunkEnd(head, whole), Demand::Bytes(2))
                },
                _ => (Reader::Finished, Demand::Nothing),
            },
            Reader::ChunkEnd(head, body) => (Reader::ChunkSize(head, body), Demand::Line),
            Reader::Trailer(head, body) => match input {
                Input::Line(line) => {
                    if is_blank(line.as_str()) {
                        (Reader::Finished, Demand::Done(make_request(head, body)))
                    } else {
                        (Reader::Trailer(head, body), Demand::Line)
                    }
                },
                _ => (Reader::Finished, Demand::Done(make_request(head, body))),
            },
            Reader::Finished => (Reader::Finished, Demand::Nothing),
        }
    }
}

} // verus!
