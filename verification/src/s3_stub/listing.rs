//! `ListObjectsV2`: which keys a page holds and how the page is spelled.

use vstd::prelude::*;

use crate::numbers::{decimal, decimal_text, number, parse_number};
use crate::ordered::OrderedMap;
use crate::s3_stub::dates::{iso8601, iso_date};
use crate::s3_stub::options::{error_response, xml_response, Fault, Response, ResponseView};
use crate::s3_stub::state::{Bucket, ObjectView, State, StoredObject};
use crate::s3_stub::wire::{parse_query, query_parameters, text_map, whole_query};
use crate::s3_stub::xml::{escape_xml, xml_escaped};
use crate::text::{comes_before, has_prefix, lex_less, opt_text, same_text, starts_with};
use crate::trim::{trim, trimmed, CharClass};

verus! {

/// A key and the object under it.
pub type Entry = (Seq<char>, ObjectView);

/// What the entries of a bucket say, in their order.
pub open spec fn entry_views(entries: Seq<(String, StoredObject)>) -> Seq<Entry> {
    Seq::new(entries.len(), |i: int| (entries[i].0@, entries[i].1@))
}

/// Whether a listing for `prefix` that resumes after `after` is to hold `key`.
pub open spec fn wanted(key: Seq<char>, prefix: Seq<char>, after: Option<Seq<char>>) -> bool {
    has_prefix(key, prefix) && (after matches Some(last) ==> lex_less(last, key))
}

/// The entries that a listing for `prefix` that resumes after `after` is to hold.
pub open spec fn listed(
    entries: Seq<Entry>,
    prefix: Seq<char>,
    after: Option<Seq<char>>,
) -> Seq<Entry>
    decreases entries.len(),
{
    if entries.len() == 0 {
        Seq::empty()
    } else {
        let before = listed(entries.drop_last(), prefix, after);
        if wanted(entries.last().0, prefix, after) {
            before.push(entries.last())
        } else {
            before
        }
    }
}

/// The value of a parameter that may be left out.
pub open spec fn parameter_or(
    params: Map<Seq<char>, Seq<char>>,
    name: Seq<char>,
    otherwise: Seq<char>,
) -> Seq<char> {
    if params.dom().contains(name) {
        params[name]
    } else {
        otherwise
    }
}

/// Where a listing resumes: after the continuation token, or else after
/// `start-after`.
pub open spec fn resume_after(params: Map<Seq<char>, Seq<char>>) -> Option<Seq<char>> {
    if params.dom().contains("continuation-token"@) {
        Some(params["continuation-token"@])
    } else if params.dom().contains("start-after"@) {
        Some(params["start-after"@])
    } else {
        None
    }
}

/// How many keys the client asked for.
pub open spec fn requested_keys(params: Map<Seq<char>, Seq<char>>) -> nat {
    if params.dom().contains("max-keys"@) {
        match number(params["max-keys"@], 10, usize::MAX as nat) {
            Some(n) => n,
            None => 1000,
        }
    } else {
        1000
    }
}

/// How many keys a page holds at most.
pub open spec fn keys_per_page(requested: nat, page_size: nat) -> nat {
    let size: nat = if requested < page_size {
        requested
    } else {
        page_size
    };
    if size == 0 {
        1
    } else {
        size
    }
}

/// The first entries of `found`, as many as a page holds.
pub open spec fn page_of(found: Seq<Entry>, size: nat) -> Seq<Entry> {
    if found.len() > size {
        found.take(size as int)
    } else {
        found
    }
}

/// How one entry stands in a listing.
pub open spec fn contents_element(entry: Entry) -> Seq<char> {
    "<Contents><Key>"@ + xml_escaped(entry.0) + "</Key><LastModified>"@ + iso_date(
        entry.1.last_modified,
    ) + "</LastModified><ETag>&quot;"@ + xml_escaped(trimmed(entry.1.etag, CharClass::Char('"')))
        + "&quot;</ETag><Size>"@ + decimal(entry.1.bytes.len())
        + "</Size><StorageClass>STANDARD</StorageClass></Contents>"@
}

/// How the entries of a page stand in a listing.
pub open spec fn contents_elements(page: Seq<Entry>) -> Seq<char>
    decreases page.len(),
{
    if page.len() == 0 {
        Seq::empty()
    } else {
        contents_elements(page.drop_last()) + contents_element(page.last())
    }
}

/// The element that says where the next page starts.
pub open spec fn token_element(page: Seq<Entry>, truncated: bool) -> Seq<char> {
    if truncated && page.len() > 0 {
        "<NextContinuationToken>"@ + xml_escaped(page.last().0) + "</NextContinuationToken>"@
    } else {
        Seq::empty()
    }
}

/// `true` or `false`.
pub open spec fn spelled_bool(value: bool) -> Seq<char> {
    if value {
        "true"@
    } else {
        "false"@
    }
}

/// The document of one page.
pub open spec fn list_document(
    bucket: Seq<char>,
    prefix: Seq<char>,
    page: Seq<Entry>,
    requested: nat,
    truncated: bool,
) -> Seq<char> {
    "<?xml version=\"1.0\" encoding=\"UTF-8\"?>\n"@
        + "<ListBucketResult xmlns=\"http://s3.amazonaws.com/doc/2006-03-01/\"><Name>"@ + xml_escaped(
        bucket,
    ) + "</Name><Prefix>"@ + xml_escaped(prefix) + "</Prefix><KeyCount>"@ + decimal(page.len())
        + "</KeyCount><MaxKeys>"@ + decimal(requested) + "</MaxKeys><IsTruncated>"@ + spelled_bool(
        truncated,
    ) + "</IsTruncated>"@ + token_element(page, truncated) + contents_elements(page)
        + "</ListBucketResult>"@
}

/// The answer to a listing with the given parameters, over the entries of the
/// bucket in their order.
pub open spec fn list_response(
    bucket: Bucket,
    entries: Seq<Entry>,
    params: Map<Seq<char>, Seq<char>>,
) -> ResponseView {
    if !params.dom().contains("list-type"@) || params["list-type"@] != "2"@ {
        error_response(
            501,
            "NotImplemented"@,
            "the stub only implements ListObjectsV2 (list-type=2)"@,
        )
    } else if params.dom().contains("delimiter"@) && params["delimiter"@].len() > 0 {
        error_response(
            501,
            "NotImplemented"@,
            "the stub lists without a delimiter; nothing in this repository asks for one"@,
        )
    } else {
        let prefix = parameter_or(params, "prefix"@, Seq::empty());
        let found = listed(entries, prefix, resume_after(params));
        let requested = requested_keys(params);
        let size = keys_per_page(requested, bucket.options.page_size);
        let truncated = found.len() > size && !bucket.options.faults.contains(
            Fault::TruncateListing,
        );
        xml_response(
            200,
            list_document(bucket.options.bucket, prefix, page_of(found, size), requested, truncated),
        )
    }
}

/// The positions that a listing picks, as far as they were looked at.
spec fn picked(entries: Seq<Entry>, places: Seq<usize>) -> Seq<Entry> {
    Seq::new(places.len(), |i: int| entries[places[i] as int])
}

/// Adds the element of one entry.
fn push_contents(body: &mut String, key: &str, object: &StoredObject)
    ensures
        final(body)@ == old(body)@ + contents_element((key@, object@)),
{
    let ghost start = body@;
    body.append("<Contents><Key>");
    body.append(escape_xml(key).as_str());
    body.append("</Key><LastModified>");
    body.append(iso8601(object.last_modified).as_str());
    body.append("</LastModified><ETag>&quot;");
    body.append(escape_xml(trim(object.etag.as_str(), CharClass::Char('"')).as_str()).as_str());
    body.append("&quot;</ETag><Size>");
    body.append(decimal_text(object.bytes.len() as u64).as_str());
    body.append("</Size><StorageClass>STANDARD</StorageClass></Contents>");
    assert(body@ =~= start + contents_element((key@, object@)));
}

impl State {
    /// The entries of the bucket, in their order.
    pub open spec fn entries(&self) -> Seq<Entry> {
        entry_views(self.objects.entries@)
    }

    /// The positions of the entries that a listing is to hold.
    fn matching(&self, prefix: &str, after: &Option<String>) -> (places: Vec<usize>)
        ensures
            picked(self.entries(), places@) == listed(self.entries(), prefix@, opt_text(*after)),
            forall|i: int|
                0 <= i < places@.len() ==> (#[trigger] places@[i] as int) < self.entries().len(),
    {
        let ghost all = self.entries();
        let mut places: Vec<usize> = Vec::new();
        let mut i: usize = 0;
        assert(all.take(0) =~= Seq::<Entry>::empty());
        assert(picked(all, places@) =~= Seq::<Entry>::empty());
        while i < self.objects.entries.len()
            invariant
                all == self.entries(),
                i <= self.objects.entries@.len(),
                picked(all, places@) == listed(all.take(i as int), prefix@, opt_text(*after)),
                forall|j: int| 0 <= j < places@.len() ==> (#[trigger] places@[j] as int) < all.len(),
            decreases self.objects.entries@.len() - i,
        {
            let key: &str = self.objects.entries[i].0.as_str();
            let resumed: bool = match after {
                Some(last) => comes_before(last.as_str(), key),
                None => true,
            };
            let ghost before = places@;
            proof {
                assert(all.take(i + 1).drop_last() =~= all.take(i as int));
                assert(all.take(i + 1).last() == all[i as int]);
            }
            if resumed && starts_with(key, prefix) {
                places.push(i);
                assert(picked(all, places@) =~= picked(all, before).push(all[i as int]));
            }
            i += 1;
        }
        assert(all.take(i as int) =~= all);
        places
    }

    /// The document of the page that holds the first `count` of the entries at
    /// `places`.
    fn page_document(
        &self,
        prefix: &str,
        places: &Vec<usize>,
        count: usize,
        requested: usize,
        truncated: bool,
    ) -> (body: String)
        requires
            count <= places@.len(),
            forall|i: int|
                0 <= i < places@.len() ==> (#[trigger] places@[i] as int) < self.entries().len(),
        ensures
            body@ == list_document(
                self@.options.bucket,
                prefix@,
                picked(self.entries(), places@.take(count as int)),
                requested as nat,
                truncated,
            ),
    {
        let ghost all = self.entries();
        let ghost page = picked(all, places@.take(count as int));
        let mut body: String = "<?xml version=\"1.0\" encoding=\"UTF-8\"?>\n".to_owned();
        body.append("<ListBucketResult xmlns=\"http://s3.amazonaws.com/doc/2006-03-01/\"><Name>");
        body.append(escape_xml(self.options.bucket.as_str()).as_str());
        body.append("</Name><Prefix>");
        body.append(escape_xml(prefix).as_str());
        body.append("</Prefix><KeyCount>");
        body.append(decimal_text(count as u64).as_str());
        body.append("</KeyCount><MaxKeys>");
        body.append(decimal_text(requested as u64).as_str());
        body.append("</MaxKeys><IsTruncated>");
        body.append(
            if truncated {
                "true"
            } else {
                "false"
            },
        );
        body.append("</IsTruncated>");
        let ghost start = body@;
        if truncated && count > 0 {
            let last: usize = places[count - 1];
            assert(page.last() == all[last as int]);
            body.append("<NextContinuationToken>");
            body.append(escape_xml(self.objects.entries[last].0.as_str()).as_str());
            body.append("</NextContinuationToken>");
        }
        assert(body@ =~= start + token_element(page, truncated));
        let ghost head = body@;
        let mut i: usize = 0;
        assert(page.take(0) =~= Seq::<Entry>::empty());
        assert(body@ =~= head + contents_elements(page.take(0)));
        while i < count
            invariant
                i <= count <= places@.len(),
                all == self.entries(),
                page.len() == count,
                forall|j: int|
                    0 <= j < count ==> page[j] == all[#[trigger] places@[j] as int],
                forall|j: int|
                    0 <= j < places@.len() ==> (#[trigger] places@[j] as int) < all.len(),
                body@ == head + contents_elements(page.take(i as int)),
            decreases count - i,
        {
            let at: usize = places[i];
            assert(page[i as int] == all[at as int]);
            push_contents(
                &mut body,
                self.objects.entries[at].0.as_str(),
                &self.objects.entries[at].1,
            );
            proof {
                let taken = page.take(i + 1);
                assert(taken.drop_last() =~= page.take(i as int));
                assert(taken.last() == page[i as int]);
                assert(body@ =~= head + contents_elements(taken));
            }
            i += 1;
        }
        assert(page.take(i as int) =~= page);
        body.append("</ListBucketResult>");
        body
    }

    /// Answers one page of a listing.
    pub fn list(&self, query: &str) -> (response: Response)
        requires
            self.wf(),
            whole_query(query@),
        ensures
            response@ == list_response(self@, self.entries(), query_parameters(query@)),
    {
        let params: OrderedMap<String> = parse_query(query);
        let ghost names = query_parameters(query@);
        assert(forall|k: Seq<char>|
            #![trigger params@.dom().contains(k)]
            params@.dom().contains(k) == names.dom().contains(k) && (names.dom().contains(k)
                ==> params@[k]@ == names[k])) by {
            assert forall|k: Seq<char>|
                #![trigger params@.dom().contains(k)]
                params@.dom().contains(k) == names.dom().contains(k) && (names.dom().contains(k)
                    ==> params@[k]@ == names[k]) by {
                assert(text_map(params@).dom().contains(k) == names.dom().contains(k));
            }
        }
        let second: bool = match params.get("list-type") {
            Some(value) => same_text(value.as_str(), "2"),
            None => false,
        };
        if !second {
            return Response::error(
                501,
                "NotImplemented",
                "the stub only implements ListObjectsV2 (list-type=2)",
            );
        }
        let delimited: bool = match params.get("delimiter") {
            Some(value) => !value.as_str().is_empty(),
            None => false,
        };
        if delimited {
            return Response::error(
                501,
                "NotImplemented",
                "the stub lists without a delimiter; nothing in this repository asks for one",
            );
        }
        let prefix: String = match params.get("prefix") {
            Some(value) => value.clone(),
            None => String::new(),
        };
        let after: Option<String> = match params.get("continuation-token") {
            Some(value) => Some(value.clone()),
            None => match params.get("start-after") {
                Some(value) => Some(value.clone()),
                None => None,
            },
        };
        let requested: usize = match params.get("max-keys") {
            Some(value) => match parse_number(value.as_str(), 10) {
                Some(n) => n,
                None => 1000,
            },
            None => 1000,
        };
        let smaller: usize = if requested < self.options.page_size {
            requested
        } else {
            self.options.page_size
        };
        let size: usize = if smaller == 0 {
            1
        } else {
            smaller
        };
        let ghost all = self.entries();
        let places: Vec<usize> = self.matching(prefix.as_str(), &after);
        let ghost found = listed(all, prefix@, opt_text(after));
        let truncated: bool = places.len() > size && !self.options.faulted(Fault::TruncateListing);
        let count: usize = if places.len() > size {
            size
        } else {
            places.len()
        };
        let ghost page = page_of(found, size as nat);
        assert(page.len() == count);
        assert forall|j: int| 0 <= j < count implies page[j] == all[#[trigger] places@[j] as int] by {
            assert(found[j] == picked(all, places@)[j]);
        }
        assert(picked(all, places@.take(count as int)) =~= page);
        let body: String = self.page_document(
            prefix.as_str(),
            &places,
            count,
            requested,
            truncated,
        );
        Response::xml(200, body)
    }
}

} // verus!
