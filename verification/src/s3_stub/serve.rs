//! What the bucket does with one request.

use vstd::prelude::*;

use crate::s3_stub::listing::{list_response, Entry};
use crate::s3_stub::options::{
    error_response, RecordedRequest, RecordedView, Request, RequestView, Response, ResponseView,
};
use crate::s3_stub::state::{after_put, get_response, put_response, Bucket, State};
use crate::s3_stub::wire::{
    first_header, has_whole_escapes, has_whole_query, header, query_parameters, route, routed,
    target_path, target_query, whole_escapes, whole_query, Route,
};
use crate::text::{quoted, quoted_text, same_text, split_once};

verus! {

/// What a request asks the bucket to do.
pub enum Operation {
    /// The bucket is another one.
    ForeignBucket,
    /// Write the object under the key.
    Put,
    /// List the bucket.
    List,
    /// Read the object under the key.
    Get,
    /// Remove the object under the key.
    Delete,
    /// Something the stub does not do.
    Unsupported,
}

/// What a request asks the bucket to do.
pub open spec fn operation(bucket: Bucket, request: RequestView) -> Operation {
    let found = routed(request.target);
    if found.bucket != bucket.options.bucket {
        Operation::ForeignBucket
    } else if request.method == "PUT"@ && found.key.len() > 0 {
        Operation::Put
    } else if request.method == "GET"@ && found.key.len() == 0 {
        Operation::List
    } else if request.method == "GET"@ || request.method == "HEAD"@ {
        Operation::Get
    } else if request.method == "DELETE"@ && found.key.len() > 0 {
        Operation::Delete
    } else {
        Operation::Unsupported
    }
}

/// Whether the escapes that have to be decoded for a request are whole: those of the path
/// and, for a listing, those of the names and values of the query.
pub open spec fn answerable(bucket: Bucket, request: RequestView) -> bool {
    &&& whole_escapes(target_path(request.target))
    &&& operation(bucket, request) is List ==> whole_query(target_query(request.target))
}

/// The bucket after a request.
pub open spec fn after_request(bucket: Bucket, request: RequestView, now: nat) -> Bucket {
    let key = routed(request.target).key;
    match operation(bucket, request) {
        Operation::Put => after_put(
            bucket,
            key,
            first_header(request.headers, "if-match"@),
            first_header(request.headers, "if-none-match"@),
            request.body,
            now,
        ),
        Operation::Delete => Bucket { objects: bucket.objects.remove(key), ..bucket },
        _ => bucket,
    }
}

/// The answer to a request, over the entries of the bucket in their order.
pub open spec fn answer(
    bucket: Bucket,
    entries: Seq<Entry>,
    request: RequestView,
    now: nat,
) -> ResponseView {
    let found = routed(request.target);
    match operation(bucket, request) {
        Operation::ForeignBucket => error_response(
            404,
            "NoSuchBucket"@,
            "the stub only serves "@ + quoted(bucket.options.bucket),
        ),
        Operation::Put => put_response(
            bucket,
            found.key,
            first_header(request.headers, "if-match"@),
            first_header(request.headers, "if-none-match"@),
            request.body,
            now,
        ),
        Operation::List => list_response(bucket, entries, query_parameters(found.query)),
        Operation::Get => get_response(bucket, found.key, request.headers),
        Operation::Delete => ResponseView {
            status: 204,
            headers: Seq::empty(),
            body: Seq::empty(),
        },
        Operation::Unsupported => error_response(
            501,
            "NotImplemented"@,
            "the stub does not implement "@ + request.method + " on this target"@,
        ),
    }
}

/// What the log says of a request and its answer.
pub open spec fn record_of(request: RequestView, status: u16) -> RecordedView {
    RecordedView {
        method: request.method,
        target: request.target,
        if_match: first_header(request.headers, "if-match"@),
        if_none_match: first_header(request.headers, "if-none-match"@),
        authorization: first_header(request.headers, "authorization"@),
        key: routed(request.target).key,
        status,
    }
}

impl State {
    /// Answers one request.
    pub fn handle(&mut self, request: &Request, now: u64) -> (response: Response)
        requires
            old(self).wf(),
            old(self).has_room(),
            answerable(old(self)@, request@),
        ensures
            final(self).wf(),
            final(self)@ == after_request(old(self)@, request@, now as nat),
            response@ == answer(old(self)@, old(self).entries(), request@, now as nat),
            final(self).requests == old(self).requests,
    {
        let found: Route = route(request.target.as_str());
        if !same_text(found.bucket.as_str(), self.options.bucket.as_str()) {
            let mut message: String = "the stub only serves ".to_owned();
            message.append(quoted_text(self.options.bucket.as_str()).as_str());
            return Response::error(404, "NoSuchBucket", message.as_str());
        }
        let method: &str = request.method.as_str();
        let bare: bool = found.key.as_str().is_empty();
        if same_text(method, "PUT") && !bare {
            self.put(found.key.as_str(), request, now)
        } else if same_text(method, "GET") && bare {
            self.list(found.query.as_str())
        } else if same_text(method, "GET") || same_text(method, "HEAD") {
            self.get(found.key.as_str(), request)
        } else if same_text(method, "DELETE") && !bare {
            self.delete(found.key.as_str())
        } else {
            let mut message: String = "the stub does not implement ".to_owned();
            message.append(method);
            message.append(" on this target");
            Response::error(501, "NotImplemented", message.as_str())
        }
    }

    /// Answers one request and writes it into the log.
    pub fn serve(&mut self, request: &Request, now: u64) -> (response: Response)
        requires
            old(self).wf(),
            old(self).has_room(),
            answerable(old(self)@, request@),
        ensures
            final(self).wf(),
            final(self)@ == after_request(old(self)@, request@, now as nat),
            response@ == answer(old(self)@, old(self).entries(), request@, now as nat),
            final(self).requests@.len() == old(self).requests@.len() + 1,
            final(self).requests@.drop_last() == old(self).requests@,
            final(self).requests@.last()@ == record_of(request@, response@.status),
    {
        let ghost log = self.requests@;
        let response: Response = self.handle(request, now);
        let key: String = route(request.target.as_str()).key;
        let record = RecordedRequest {
            method: request.method.clone(),
            target: request.target.clone(),
            if_match: header(&request.headers, "if-match"),
            if_none_match: header(&request.headers, "if-none-match"),
            authorization: header(&request.headers, "authorization"),
            key,
            status: response.status,
        };
        self.requests.push(record);
        assert(self.requests@.drop_last() =~= log);
        response
    }

    /// Whether a request asks for a listing.
    fn asks_for_listing(&self, request: &Request) -> (asks: bool)
        requires
            whole_escapes(target_path(request@.target)),
        ensures
            asks == (operation(self@, request@) is List),
    {
        let found: Route = route(request.target.as_str());
        same_text(found.bucket.as_str(), self.options.bucket.as_str()) && same_text(
            request.method.as_str(),
            "GET",
        ) && found.key.as_str().is_empty()
    }

    /// Answers one request and writes it into the log, unless an escape that has to be
    /// decoded for it ends inside a character: then nothing is answered and nothing
    /// changes.
    pub fn try_serve(&mut self, request: &Request, now: u64) -> (answered: Option<Response>)
        requires
            old(self).wf(),
            old(self).has_room(),
        ensures
            match answered {
                Some(response) => {
                    &&& answerable(old(self)@, request@)
                    &&& final(self).wf()
                    &&& final(self)@ == after_request(old(self)@, request@, now as nat)
                    &&& response@ == answer(old(self)@, old(self).entries(), request@, now as nat)
                    &&& final(self).requests@.len() == old(self).requests@.len() + 1
                    &&& final(self).requests@.drop_last() == old(self).requests@
                    &&& final(self).requests@.last()@ == record_of(request@, response@.status)
                },
                None => !answerable(old(self)@, request@) && *final(self) == *old(self),
            },
    {
        let (path, query): (String, String) = match split_once(request.target.as_str(), '?') {
            Some(parts) => parts,
            None => (request.target.clone(), String::new()),
        };
        if !has_whole_escapes(path.as_str()) {
            return None;
        }
        if self.asks_for_listing(request) && !has_whole_query(query.as_str()) {
            return None;
        }
        Some(self.serve(request, now))
    }
}

} // verus!
