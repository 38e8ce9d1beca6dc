use quick_memory::s3_stub::options::{write_response, Fault, Request, StubOptions};
use quick_memory::s3_stub::reader::{Demand, Input, ReadError, Reader};
use quick_memory::s3_stub::state::State;

/// What came of reading one request from a text that a client sent.
enum Outcome {
    Request(Request, bool),
    Nothing,
    Failed(ReadError),
}

fn read(text: &str) -> Outcome {
    let mut rest = text.as_bytes();
    let mut reader = Reader::Start;
    let mut demand = Demand::Line;
    let mut continued = false;
    loop {
        let input = match demand {
            Demand::Line => {
                if rest.is_empty() {
                    Input::Closed
                } else {
                    let end = rest
                        .iter()
                        .position(|byte| *byte == b'\n')
                        .map_or(rest.len(), |at| at + 1);
                    let line = String::from_utf8(rest[..end].to_vec()).unwrap();
                    rest = &rest[end..];
                    Input::Line(line)
                }
            }
            Demand::Bytes(count) => {
                let bytes = rest[..count].to_vec();
                rest = &rest[count..];
                Input::Bytes(bytes)
            }
            Demand::SendContinue => {
                continued = true;
                Input::Sent
            }
            Demand::Done(request) => return Outcome::Request(request, continued),
            Demand::Nothing => return Outcome::Nothing,
            Demand::Fail(error) => return Outcome::Failed(error),
        };
        let next = reader.next(input);
        reader = next.0;
        demand = next.1;
    }
}

fn raw_request(stub: &mut State, text: &str) -> String {
    match read(text) {
        Outcome::Request(request, _) => {
            let response = stub.serve(&request, 1_789_493_741);
            String::from_utf8(write_response(&request.method, &response)).unwrap()
        }
        _ => panic!("no request in {text:?}"),
    }
}

fn header_value(response: &str, name: &str) -> String {
    response
        .lines()
        .find_map(|line| line.strip_prefix(&format!("{name}: ")))
        .unwrap_or_else(|| panic!("{name} must be in the response:\n{response}"))
        .trim()
        .to_string()
}

#[test]
fn the_stub_answers_failures_with_s3_error_documents() {
    let mut stub = State::new(StubOptions::default());

    let created = raw_request(
        &mut stub,
        "PUT /stub-bucket/probe/key HTTP/1.1\r\nif-none-match: *\r\ncontent-length: 2\r\n\r\nv1",
    );
    assert!(created.starts_with("HTTP/1.1 200 OK"), "{created}");
    assert!(created.contains("etag: \"stub-"), "{created}");

    let duplicate = raw_request(
        &mut stub,
        "PUT /stub-bucket/probe/key HTTP/1.1\r\nif-none-match: *\r\ncontent-length: 2\r\n\r\nv2",
    );
    assert!(
        duplicate.starts_with("HTTP/1.1 412 Precondition Failed"),
        "{duplicate}"
    );
    assert!(
        duplicate.contains("content-type: application/xml"),
        "{duplicate}"
    );
    assert!(
        duplicate.contains("<Code>PreconditionFailed</Code>"),
        "a refused conditional write must carry S3 error XML: {duplicate}"
    );

    let missing = raw_request(&mut stub, "GET /stub-bucket/probe/absent HTTP/1.1\r\n\r\n");
    assert!(missing.starts_with("HTTP/1.1 404 Not Found"), "{missing}");
    assert!(missing.contains("<Code>NoSuchKey</Code>"), "{missing}");

    let wrong_bucket = raw_request(&mut stub, "GET /other-bucket/probe/key HTTP/1.1\r\n\r\n");
    assert!(
        wrong_bucket.starts_with("HTTP/1.1 404 Not Found"),
        "{wrong_bucket}"
    );
    assert!(
        wrong_bucket.contains("<Code>NoSuchBucket</Code>"),
        "{wrong_bucket}"
    );
}

#[test]
fn conditional_reads_are_refused_rather_than_answered() {
    let mut stub = State::new(StubOptions::default());
    let created = raw_request(
        &mut stub,
        "PUT /stub-bucket/probe/conditional HTTP/1.1\r\nif-none-match: *\r\n\
         content-length: 2\r\n\r\nv1",
    );
    assert!(created.starts_with("HTTP/1.1 200 OK"), "{created}");

    for request in [
        "GET /stub-bucket/probe/conditional HTTP/1.1\r\nif-none-match: *\r\n\r\n",
        "GET /stub-bucket/probe/conditional HTTP/1.1\r\nif-match: \"whatever\"\r\n\r\n",
    ] {
        let response = raw_request(&mut stub, request);
        assert!(
            response.starts_with("HTTP/1.1 501 Not Implemented"),
            "{response}"
        );
        assert!(
            response.contains("<Code>NotImplemented</Code>"),
            "a refusal must still explain itself: {response}"
        );
        assert!(response.contains("conditional reads"), "{response}");
    }

    let get = raw_request(
        &mut stub,
        "GET /stub-bucket/probe/conditional HTTP/1.1\r\nif-none-match: *\r\n\r\n",
    );
    let head = raw_request(
        &mut stub,
        "HEAD /stub-bucket/probe/conditional HTTP/1.1\r\nif-none-match: *\r\n\r\n",
    );
    assert!(head.starts_with("HTTP/1.1 501 Not Implemented"), "{head}");
    assert_eq!(
        header_value(&head, "content-length"),
        header_value(&get, "content-length"),
        "a HEAD refusal must advertise the body it declines to send"
    );
    assert!(
        head.ends_with("\r\n\r\n"),
        "a HEAD response carries no body: {head}"
    );

    let plain = raw_request(
        &mut stub,
        "GET /stub-bucket/probe/conditional HTTP/1.1\r\n\r\n",
    );
    assert!(plain.starts_with("HTTP/1.1 200 OK"), "{plain}");
    assert!(plain.ends_with("v1"), "{plain}");
}

#[test]
fn the_list_response_echoes_the_requested_page_size() {
    let mut stub = State::new(StubOptions::default().with_page_size(2));
    for index in 1..=3 {
        let body = format!("v{index}");
        let created = raw_request(
            &mut stub,
            &format!(
                "PUT /stub-bucket/pages/{index}.md HTTP/1.1\r\nif-none-match: *\r\n\
                 content-length: {}\r\n\r\n{body}",
                body.len()
            ),
        );
        assert!(created.starts_with("HTTP/1.1 200 OK"), "{created}");
    }

    let listed = raw_request(
        &mut stub,
        "GET /stub-bucket?list-type=2&prefix=pages&max-keys=1000 HTTP/1.1\r\n\r\n",
    );
    assert!(listed.contains("<MaxKeys>1000</MaxKeys>"), "{listed}");
    assert!(listed.contains("<KeyCount>2</KeyCount>"), "{listed}");
    assert!(
        listed.contains("<IsTruncated>true</IsTruncated>"),
        "{listed}"
    );

    let one = raw_request(
        &mut stub,
        "GET /stub-bucket?list-type=2&prefix=pages&max-keys=1 HTTP/1.1\r\n\r\n",
    );
    assert!(one.contains("<MaxKeys>1</MaxKeys>"), "{one}");
    assert!(one.contains("<KeyCount>1</KeyCount>"), "{one}");
}

#[test]
fn if_match_asterisk_asserts_existence() {
    let mut stub = State::new(StubOptions::default());
    let created = raw_request(
        &mut stub,
        "PUT /stub-bucket/probe/star HTTP/1.1\r\nif-none-match: *\r\ncontent-length: 2\r\n\r\nv1",
    );
    assert!(created.starts_with("HTTP/1.1 200 OK"), "{created}");

    let replaced = raw_request(
        &mut stub,
        "PUT /stub-bucket/probe/star HTTP/1.1\r\nif-match: *\r\ncontent-length: 2\r\n\r\nv2",
    );
    assert!(
        replaced.starts_with("HTTP/1.1 200 OK"),
        "an existing object satisfies If-Match: *: {replaced}"
    );
    let read = raw_request(&mut stub, "GET /stub-bucket/probe/star HTTP/1.1\r\n\r\n");
    assert!(
        read.ends_with("v2"),
        "the wildcard write must have landed: {read}"
    );

    let missing = raw_request(
        &mut stub,
        "PUT /stub-bucket/probe/absent HTTP/1.1\r\nif-match: *\r\ncontent-length: 2\r\n\r\nv2",
    );
    assert!(
        missing.starts_with("HTTP/1.1 404 Not Found"),
        "a missing object is the answer S3 gives any If-Match on it: {missing}"
    );
    assert!(missing.contains("<Code>NoSuchKey</Code>"), "{missing}");
}

#[test]
fn an_etag_wins_once() {
    let mut stub = State::new(StubOptions::default());
    let created = raw_request(
        &mut stub,
        "PUT /stub-bucket/k HTTP/1.1\r\nif-none-match: *\r\ncontent-length: 2\r\n\r\nv1",
    );
    let etag = header_value(&created, "etag");
    let swap = format!(
        "PUT /stub-bucket/k HTTP/1.1\r\nif-match: {etag}\r\ncontent-length: 2\r\n\r\nv2"
    );
    let first = raw_request(&mut stub, &swap);
    assert!(first.starts_with("HTTP/1.1 200 OK"), "{first}");
    assert_ne!(header_value(&first, "etag"), etag);
    let second = raw_request(&mut stub, &swap);
    assert!(second.starts_with("HTTP/1.1 412"), "{second}");
    let read = raw_request(&mut stub, "GET /stub-bucket/k HTTP/1.1\r\n\r\n");
    assert!(read.ends_with("v2"), "{read}");
    assert_eq!(header_value(&read, "etag"), header_value(&first, "etag"));
    let statuses: Vec<u16> = stub.requests.iter().map(|r| r.status).collect();
    assert_eq!(statuses, [200, 200, 412, 200]);
}

#[test]
fn paging_through_a_listing_is_complete() {
    let mut stub = State::new(StubOptions::default().with_page_size(2));
    for index in 1..=5 {
        raw_request(
            &mut stub,
            &format!("PUT /stub-bucket/p/{index} HTTP/1.1\r\ncontent-length: 1\r\n\r\nx"),
        );
    }
    raw_request(&mut stub, "PUT /stub-bucket/q HTTP/1.1\r\ncontent-length: 1\r\n\r\nx");
    let mut keys = Vec::new();
    let mut token = String::new();
    loop {
        let page = raw_request(
            &mut stub,
            &format!("GET /stub-bucket?list-type=2&prefix=p/{token} HTTP/1.1\r\n\r\n"),
        );
        for piece in page.split("<Key>").skip(1) {
            keys.push(piece.split("</Key>").next().unwrap().to_string());
        }
        match page.split("<NextContinuationToken>").nth(1) {
            Some(rest) => {
                let next = rest.split('<').next().unwrap();
                token = format!("&continuation-token={next}");
            }
            None => break,
        }
    }
    assert_eq!(keys, ["p/1", "p/2", "p/3", "p/4", "p/5"]);
}

#[test]
fn a_deleted_object_is_gone() {
    let mut stub = State::new(StubOptions::default());
    raw_request(&mut stub, "PUT /stub-bucket/k HTTP/1.1\r\ncontent-length: 1\r\n\r\nx");
    let deleted = raw_request(&mut stub, "DELETE /stub-bucket/k HTTP/1.1\r\n\r\n");
    assert!(deleted.starts_with("HTTP/1.1 204 No Content"), "{deleted}");
    let read = raw_request(&mut stub, "GET /stub-bucket/k HTTP/1.1\r\n\r\n");
    assert!(read.starts_with("HTTP/1.1 404"), "{read}");
}

#[test]
fn faults_are_injected_only_where_asked_for() {
    let mut loose = State::new(StubOptions::default().with_fault(Fault::IgnoreIfMatch));
    raw_request(&mut loose, "PUT /stub-bucket/k HTTP/1.1\r\ncontent-length: 1\r\n\r\nx");
    let stale = "PUT /stub-bucket/k HTTP/1.1\r\nif-match: \"old\"\r\ncontent-length: 1\r\n\r\ny";
    assert!(raw_request(&mut loose, stale).starts_with("HTTP/1.1 200"));

    let mut strict = State::new(StubOptions::default());
    raw_request(&mut strict, "PUT /stub-bucket/k HTTP/1.1\r\ncontent-length: 1\r\n\r\nx");
    assert!(raw_request(&mut strict, stale).starts_with("HTTP/1.1 412"));

    let mut busy = State::new(StubOptions::default().with_conditional_put_conflicts(1));
    let created = raw_request(
        &mut busy,
        "PUT /stub-bucket/k HTTP/1.1\r\ncontent-length: 1\r\n\r\nx",
    );
    let swap = format!(
        "PUT /stub-bucket/k HTTP/1.1\r\nif-match: {}\r\ncontent-length: 1\r\n\r\ny",
        header_value(&created, "etag")
    );
    assert!(raw_request(&mut busy, &swap).starts_with("HTTP/1.1 409"));
    assert!(raw_request(&mut busy, &swap).starts_with("HTTP/1.1 200"));
}

#[test]
fn chunked_bodies_are_put_together() {
    let text = "PUT /b/k HTTP/1.1\r\nTransfer-Encoding: chunked\r\n\r\n\
                3\r\nabc\r\n2;ext\r\nde\r\n0\r\n\r\n";
    match read(text) {
        Outcome::Request(request, _) => {
            assert_eq!(request.method, "PUT");
            assert_eq!(request.target, "/b/k");
            assert_eq!(request.body, b"abcde");
        }
        _ => panic!("a chunked body is a body"),
    }
    match read("PUT /b/k HTTP/1.1\r\ntransfer-encoding: chunked\r\n\r\nzz\r\n") {
        Outcome::Failed(error) => assert_eq!(error.message(), "not a chunk size: \"zz\""),
        _ => panic!("zz is no size"),
    }
    match read("PUT /b/k HTTP/1.1\r\ntransfer-encoding: chunked\r\n\r\n1\r\na\r\n") {
        Outcome::Failed(error) => assert_eq!(
            error.message(),
            "the chunked body ended before its zero-length chunk"
        ),
        _ => panic!("the body is not over"),
    }
}

#[test]
fn a_client_that_expects_it_is_told_to_go_on() {
    match read("PUT /b/k HTTP/1.1\r\nexpect: 100-continue\r\ncontent-length: 1\r\n\r\nx") {
        Outcome::Request(request, continued) => {
            assert!(continued);
            assert_eq!(request.body, b"x");
        }
        _ => panic!("a request was sent"),
    }
    assert!(matches!(read(""), Outcome::Nothing));
    match read("GET / HTTP/1.1\r\nhost: x\r\n") {
        Outcome::Failed(error) => assert_eq!(
            error.message(),
            "the client closed the connection mid-headers"
        ),
        _ => panic!("the headers are not over"),
    }
}

#[test]
fn no_two_writes_share_an_etag() {
    let mut stub = State::new(StubOptions::default());
    let put = "PUT /stub-bucket/probe/key HTTP/1.1\r\ncontent-length: 2\r\n\r\nv1";
    let first = header_value(&raw_request(&mut stub, put), "etag");
    raw_request(&mut stub, "DELETE /stub-bucket/probe/key HTTP/1.1\r\n\r\n");
    let second = header_value(&raw_request(&mut stub, put), "etag");
    assert_ne!(first, second);
    let read = raw_request(&mut stub, "GET /stub-bucket/probe/key HTTP/1.1\r\n\r\n");
    assert_eq!(header_value(&read, "etag"), second);
    let list = raw_request(&mut stub, "GET /stub-bucket?list-type=2 HTTP/1.1\r\n\r\n");
    assert!(list.contains(second.trim_matches('"')), "{list}");
    assert!(!list.contains(first.trim_matches('"')), "{list}");
}

#[test]
fn conflicts_meet_the_first_conditional_writes() {
    let mut stub = State::new(StubOptions::default().with_conditional_put_conflicts(2));
    let create =
        "PUT /stub-bucket/probe/key HTTP/1.1\r\nif-none-match: *\r\ncontent-length: 2\r\n\r\nv1";
    assert!(raw_request(&mut stub, create).starts_with("HTTP/1.1 200"));
    let stale =
        "PUT /stub-bucket/probe/key HTTP/1.1\r\nif-match: \"other\"\r\ncontent-length: 2\r\n\r\nv9";
    let update =
        "PUT /stub-bucket/probe/key HTTP/1.1\r\nif-match: *\r\ncontent-length: 2\r\n\r\nv2";
    let read = "GET /stub-bucket/probe/key HTTP/1.1\r\n\r\n";
    for _ in 0..2 {
        assert!(raw_request(&mut stub, stale).starts_with("HTTP/1.1 412"));
        assert!(raw_request(&mut stub, update).starts_with("HTTP/1.1 409"));
        assert!(raw_request(&mut stub, read).ends_with("v1"));
    }
    assert!(raw_request(&mut stub, update).starts_with("HTTP/1.1 200"));
    assert!(raw_request(&mut stub, read).ends_with("v2"));
}

#[test]
fn a_listing_takes_as_many_answers_as_its_keys_fill() {
    for (keys, answers) in [(0, 1), (1, 1), (2, 1), (3, 2), (4, 2), (5, 3)] {
        let mut stub = State::new(StubOptions::default().with_page_size(2));
        for n in 0..keys {
            raw_request(
                &mut stub,
                &format!("PUT /stub-bucket/p/{n} HTTP/1.1\r\ncontent-length: 1\r\n\r\nx"),
            );
        }
        let mut token = String::new();
        let mut seen = 0;
        let mut pages = 0;
        loop {
            let list = raw_request(
                &mut stub,
                &format!("GET /stub-bucket?list-type=2&prefix=p/{token} HTTP/1.1\r\n\r\n"),
            );
            pages += 1;
            let count = list.matches("<Key>").count();
            assert!(list.contains(&format!("<KeyCount>{count}</KeyCount>")), "{list}");
            assert!(count <= 2);
            seen += count;
            let next = list.split("<NextContinuationToken>").nth(1);
            assert_eq!(next.is_some(), list.contains("<IsTruncated>true</IsTruncated>"));
            match next {
                Some(rest) => {
                    let key = rest.split('<').next().unwrap();
                    token = format!("&continuation-token={key}");
                }
                None => break,
            }
        }
        assert_eq!((seen, pages), (keys, answers));
    }
}

#[test]
fn only_escapes_that_are_decoded_have_to_be_whole() {
    let mut stub = State::new(StubOptions::default());
    let request = |method: &str, target: &str| Request {
        method: method.to_string(),
        target: target.to_string(),
        headers: Vec::new(),
        body: Vec::new(),
    };
    let status = |stub: &mut State, method: &str, target: &str| {
        stub.try_serve(&request(method, target), 1).map(|response| response.status)
    };
    assert_eq!(status(&mut stub, "GET", "/stub-bucket/k?x=%\u{4e2d}"), Some(404));
    assert_eq!(status(&mut stub, "GET", "/stub-bucket/k%?\u{4e2d}"), Some(404));
    assert_eq!(status(&mut stub, "GET", "/stub-bucket?list-type=2&a%=\u{4e2d}"), Some(200));
    assert_eq!(stub.requests.len(), 3);
    assert_eq!(status(&mut stub, "GET", "/stub-bucket?list-type=2&a=%\u{4e2d}"), None);
    assert_eq!(status(&mut stub, "GET", "/stub-bucket/%\u{4e2d}"), None);
    assert_eq!(stub.requests.len(), 3);
}
