//! What the bucket answers and keeps, told from what it is asked.

use vstd::prelude::*;
use vstd::utf8::{encode_utf8, valid_utf8};

use crate::numbers::{decimal, digit_value, number, padded};
use crate::s3_stub::dates::{
    clock, date_of, day_number, days_before_month, days_before_year, days_in_month, http_date,
    is_date, iso_date, law_dates_are_unique, law_year_length, month_name, weekday_name,
};
use crate::s3_stub::listing::{
    contents_elements, keys_per_page, list_document, list_response, listed, page_of,
    parameter_or, requested_keys, resume_after, token_element, Entry,
};
use crate::s3_stub::options::{
    error_document, error_response, header_lines, reason_phrase, response_bytes, response_head,
    Fault, OptionsView, RequestView, ResponseView,
};
use crate::s3_stub::reader::{
    at_body, blank, header_of, read_on, request_line, DemandView, HeadView, InputView,
    ReadErrorView, ReaderView,
};
use crate::s3_stub::serve::{after_request, answer, operation, record_of, Operation};
use crate::s3_stub::state::{
    after_put, get_response, is_wildcard, put_decision, put_response, Bucket, ObjectView,
    PutDecision,
};
use crate::s3_stub::wire::{
    first_header, hex_pair, parameter, parameters, percent_decoded, routed, unescaped,
};
use crate::s3_stub::xml::{bare_etag, xml_escaped};
use crate::text::{has_prefix, lex_less, quoted, split_first};
use crate::trim::{
    ascii_lowered, first_word, is_space, space_from, trimmed, without_start, CharClass,
};

verus! {

// ---- Writes -------------------------------------------------------------------------------

/// A write is refused where it must create and the key is there, where it must replace and
/// the key is not there or has another tag, and where a conflict is injected; otherwise it is
/// accepted. An unconditional write is always accepted.
pub proof fn law_when_a_write_is_accepted(
    bucket: Bucket,
    key: Seq<char>,
    tag: Seq<char>,
    if_match: Option<Seq<char>>,
    if_none_match: Option<Seq<char>>,
)
    requires
        bucket.options.faults.len() == 0,
    ensures
        put_decision(bucket, key, None, None) is Accepted,
        is_wildcard("*"@),
        put_decision(bucket, key, None, Some("*"@)) is Exists <==> bucket.objects.dom().contains(
            key,
        ),
        put_decision(bucket, key, None, Some("*"@)) is Accepted
            <==> !bucket.objects.dom().contains(key),
        put_decision(bucket, key, Some(tag), None) is Missing <==> !bucket.objects.dom().contains(
            key,
        ),
        put_decision(bucket, key, Some(tag), None) is Moved <==> bucket.objects.dom().contains(key)
            && !is_wildcard(tag) && bare_etag(tag) != bare_etag(bucket.objects[key].etag),
        put_decision(bucket, key, Some(tag), None) is Accepted <==> bucket.objects.dom().contains(
            key,
        ) && (is_wildcard(tag) || bare_etag(tag) == bare_etag(bucket.objects[key].etag))
            && bucket.conflicts_left == 0,
        put_decision(bucket, key, if_match, if_none_match) is Accepted || put_decision(
            bucket,
            key,
            if_match,
            if_none_match,
        ) is Conflict || put_response(bucket, key, if_match, if_none_match, Seq::empty(), 0).status
            != 200,
{
    reveal_strlit("*");
    assert(trimmed("*"@, CharClass::Space) =~= "*"@) by {
        crate::search::mentions::law_a_trim_takes_both_ends("*"@, CharClass::Space, 0, 1);
        assert("*"@.subrange(0, 1) =~= "*"@);
    }
    assert(!bucket.options.faults.contains(Fault::IgnoreIfMatch));
}

/// An accepted write puts the bytes under the key with a new tag and a new version, and
/// leaves every other key as it was; the answer carries the tag.
pub proof fn law_an_accepted_write_is_kept(
    bucket: Bucket,
    key: Seq<char>,
    other: Seq<char>,
    if_match: Option<Seq<char>>,
    if_none_match: Option<Seq<char>>,
    body: Seq<u8>,
    now: nat,
)
    requires
        put_decision(bucket, key, if_match, if_none_match) is Accepted,
        other != key,
    ensures
        ({
            let next = after_put(bucket, key, if_match, if_none_match, body, now);
            let response = put_response(bucket, key, if_match, if_none_match, body, now);
            let tag = "\"stub-"@ + decimal(bucket.etag_seq + 1) + "-"@ + decimal(body.len())
                + "\""@;
            &&& next.objects.dom() == bucket.objects.dom().insert(key)
            &&& next.objects[key].bytes == body
            &&& next.objects[key].etag == tag
            &&& next.objects[key].last_modified == now
            &&& next.objects[key].version_id == "stub-version-"@ + decimal(bucket.version_seq + 1)
            &&& bucket.objects.dom().contains(other) ==> next.objects[other]
                == bucket.objects[other]
            &&& next.etag_seq == bucket.etag_seq + 1
            &&& next.version_seq == bucket.version_seq + 1
            &&& next.conflicts_left == bucket.conflicts_left
            &&& next.options == bucket.options
            &&& response.status == 200
            &&& response.body.len() == 0
            &&& response.headers.len() == (if bucket.options.put_version_id {
                2int
            } else {
                1
            })
            &&& response.headers[0] == ("etag"@, tag)
            &&& bucket.options.put_version_id ==> response.headers[1] == (
                "x-amz-version-id"@,
                next.objects[key].version_id,
            )
        }),
{
}

/// A write that is refused changes nothing, and one that meets an injected conflict uses that
/// up; each is answered with its status and its code.
pub proof fn law_a_refused_write_is_told_why(
    bucket: Bucket,
    key: Seq<char>,
    if_match: Option<Seq<char>>,
    if_none_match: Option<Seq<char>>,
    body: Seq<u8>,
    now: nat,
)
    ensures
        ({
            let decision = put_decision(bucket, key, if_match, if_none_match);
            let next = after_put(bucket, key, if_match, if_none_match, body, now);
            let response = put_response(bucket, key, if_match, if_none_match, body, now);
            &&& decision is Exists ==> next == bucket && response == error_response(
                412,
                "PreconditionFailed"@,
                "the object already exists"@,
            )
            &&& decision is Missing ==> next == bucket && response == error_response(
                404,
                "NoSuchKey"@,
                "the object does not exist"@,
            )
            &&& decision is Moved ==> next == bucket && response == error_response(
                412,
                "PreconditionFailed"@,
                "the object moved: the If-Match ETag is not the stored one"@,
            )
            &&& decision is Conflict ==> next.objects == bucket.objects && next.etag_seq
                == bucket.etag_seq && next.conflicts_left + 1 == bucket.conflicts_left && response
                == error_response(
                409,
                "Conflict"@,
                "a conflicting conditional write is in flight (injected)"@,
            )
        }),
{
}

// ---- Reads --------------------------------------------------------------------------------

/// A read without faults answers with the bytes, the tag and the time of what is stored, and
/// says where nothing is; conditional reads are refused.
pub proof fn law_a_read_answers_with_what_is_stored(
    bucket: Bucket,
    key: Seq<char>,
    headers: Seq<(Seq<char>, Seq<char>)>,
)
    requires
        bucket.options.faults.len() == 0,
    ensures
        ({
            let response = get_response(bucket, key, headers);
            let plain = first_header(headers, "if-none-match"@) is None && first_header(
                headers,
                "if-match"@,
            ) is None;
            &&& plain && bucket.objects.dom().contains(key) ==> {
                &&& response.status == 200
                &&& response.body == bucket.objects[key].bytes
                &&& response.headers.len() == 3
                &&& response.headers[0] == ("etag"@, bucket.objects[key].etag)
                &&& response.headers[1] == (
                    "last-modified"@,
                    http_date(bucket.objects[key].last_modified),
                )
                &&& response.headers[2] == ("content-type"@, "application/octet-stream"@)
            }
            &&& plain && !bucket.objects.dom().contains(key) ==> response == error_response(
                404,
                "NoSuchKey"@,
                "no object at "@ + quoted(key),
            )
            &&& !plain ==> response.status == 501
        }),
{
    assert(!bucket.options.faults.contains(Fault::StaleReadEtag));
    assert(!bucket.options.faults.contains(Fault::TruncateReadBody));
}

/// The faults of reads: a stale tag is not the stored one but spelled from it, and a
/// truncated body is its first byte.
pub proof fn law_injected_faults_spoil_reads(bucket: Bucket, key: Seq<char>)
    requires
        bucket.objects.dom().contains(key),
    ensures
        ({
            let response = get_response(bucket, key, Seq::empty());
            let object = bucket.objects[key];
            &&& bucket.options.faults.contains(Fault::StaleReadEtag) ==> response.headers[0] == (
                "etag"@,
                "\"stale-"@ + trimmed(object.etag, CharClass::Char('"')) + "\""@,
            )
            &&& bucket.options.faults.contains(Fault::TruncateReadBody) && object.bytes.len() > 1
                ==> response.body == object.bytes.take(1)
            &&& bucket.options.faults.contains(Fault::TruncateReadBody) && object.bytes.len() <= 1
                ==> response.body == object.bytes
        }),
{
}

// ---- Requests -----------------------------------------------------------------------------

/// What a request asks for is told by its method and whether it names a key.
pub proof fn law_the_method_tells_the_operation(bucket: Bucket, request: RequestView)
    ensures
        ({
            let found = routed(request.target);
            let own = found.bucket == bucket.options.bucket;
            let keyed = found.key.len() > 0;
            &&& !own ==> operation(bucket, request) is ForeignBucket
            &&& own && request.method == "PUT"@ && keyed ==> operation(bucket, request) is Put
            &&& own && request.method == "GET"@ && !keyed ==> operation(bucket, request) is List
            &&& own && request.method == "GET"@ && keyed ==> operation(bucket, request) is Get
            &&& own && request.method == "HEAD"@ ==> operation(bucket, request) is Get
            &&& own && request.method == "DELETE"@ && keyed ==> operation(bucket, request)
                is Delete
            &&& own && request.method != "PUT"@ && request.method != "GET"@ && request.method
                != "HEAD"@ && request.method != "DELETE"@ ==> operation(bucket, request)
                is Unsupported
        }),
{
    reveal_strlit("PUT");
    reveal_strlit("GET");
    reveal_strlit("HEAD");
    reveal_strlit("DELETE");
    assert("PUT"@[0] == 'P' && "GET"@[0] == 'G' && "HEAD"@[0] == 'H' && "DELETE"@[0] == 'D');
}

/// A request changes the bucket only by a write or a deletion of the key that it names, and
/// is answered for that key; a deletion takes away exactly that key.
pub proof fn law_a_request_is_carried_out(
    bucket: Bucket,
    entries: Seq<Entry>,
    request: RequestView,
    now: nat,
)
    ensures
        ({
            let key = routed(request.target).key;
            let next = after_request(bucket, request, now);
            let response = answer(bucket, entries, request, now);
            let if_match = first_header(request.headers, "if-match"@);
            let if_none_match = first_header(request.headers, "if-none-match"@);
            &&& operation(bucket, request) is Put ==> next == after_put(
                bucket,
                key,
                if_match,
                if_none_match,
                request.body,
                now,
            ) && response == put_response(
                bucket,
                key,
                if_match,
                if_none_match,
                request.body,
                now,
            )
            &&& operation(bucket, request) is Get ==> next == bucket && response == get_response(
                bucket,
                key,
                request.headers,
            )
            &&& operation(bucket, request) is List ==> next == bucket
            &&& operation(bucket, request) is Delete ==> next.objects == bucket.objects.remove(key)
                && next.etag_seq == bucket.etag_seq && response.status == 204
                && response.body.len() == 0
            &&& operation(bucket, request) is ForeignBucket ==> next == bucket && response
                == error_response(
                404,
                "NoSuchBucket"@,
                "the stub only serves "@ + quoted(bucket.options.bucket),
            )
            &&& operation(bucket, request) is Unsupported ==> next == bucket && response
                == error_response(
                501,
                "NotImplemented"@,
                "the stub does not implement "@ + request.method + " on this target"@,
            )
        }),
{
}

/// A request is recorded with its method, its target, its conditions, its key and the status
/// of its answer.
pub proof fn law_a_request_is_recorded(request: RequestView, status: u16)
    ensures
        record_of(request, status).method == request.method,
        record_of(request, status).target == request.target,
        record_of(request, status).if_match == first_header(request.headers, "if-match"@),
        record_of(request, status).if_none_match == first_header(
            request.headers,
            "if-none-match"@,
        ),
        record_of(request, status).authorization == first_header(
            request.headers,
            "authorization"@,
        ),
        record_of(request, status).key == routed(request.target).key,
        record_of(request, status).status == status,
{
}

// ---- Listings -----------------------------------------------------------------------------

/// A listing takes the entries one by one, in their order: those whose key starts with the
/// prefix and comes behind the place to resume from.
pub proof fn law_a_listing_takes_wanted_keys(
    entries: Seq<Entry>,
    one: Entry,
    prefix: Seq<char>,
    rest: Seq<char>,
    after: Seq<char>,
)
    ensures
        one.0 == prefix + rest ==> listed(entries.push(one), prefix, None) == listed(
            entries,
            prefix,
            None,
        ).push(one),
        one.0 == prefix + rest && lex_less(after, one.0) ==> listed(
            entries.push(one),
            prefix,
            Some(after),
        ) == listed(entries, prefix, Some(after)).push(one),
        !lex_less(after, one.0) ==> listed(entries.push(one), prefix, Some(after)) == listed(
            entries,
            prefix,
            Some(after),
        ),
        (forall|tail: Seq<char>| one.0 != #[trigger] (prefix + tail)) ==> listed(
            entries.push(one),
            prefix,
            None,
        ) == listed(entries, prefix, None),
        listed(Seq::<Entry>::empty(), prefix, None).len() == 0,
{
    assert(entries.push(one).drop_last() =~= entries);
    if one.0 == prefix + rest {
        assert(one.0.take(prefix.len() as int) =~= prefix);
    }
    if has_prefix(one.0, prefix) {
        let tail = one.0.skip(prefix.len() as int);
        assert(one.0 =~= prefix + tail);
    }
}

/// A page holds as many keys as are asked for, a thousand where nothing is said, but no more
/// than the bucket gives and never none.
pub proof fn law_the_size_of_a_page(
    params: Map<Seq<char>, Seq<char>>,
    requested: nat,
    page_size: nat,
    found: Seq<Entry>,
)
    ensures
        !params.dom().contains("max-keys"@) ==> requested_keys(params) == 1000,
        params.dom().contains("max-keys"@) && number(
            params["max-keys"@],
            10,
            usize::MAX as nat,
        ) is None ==> requested_keys(params) == 1000,
        params.dom().contains("max-keys"@) ==> (number(
            params["max-keys"@],
            10,
            usize::MAX as nat,
        ) matches Some(n) ==> requested_keys(params) == n),
        requested > 0 && page_size > 0 ==> keys_per_page(requested, page_size) == (if requested
            < page_size {
            requested
        } else {
            page_size
        }),
        requested == 0 || page_size == 0 ==> keys_per_page(requested, page_size) == 1,
        found.len() <= requested ==> page_of(found, requested) == found,
        found.len() > requested ==> page_of(found, requested) == found.take(requested as int),
{
}

/// A listing resumes behind the token, without one behind the key to start after, and
/// otherwise at the beginning.
pub proof fn law_where_a_listing_resumes(params: Map<Seq<char>, Seq<char>>)
    ensures
        params.dom().contains("continuation-token"@) ==> resume_after(params) == Some(
            params["continuation-token"@],
        ),
        !params.dom().contains("continuation-token"@) && params.dom().contains("start-after"@)
            ==> resume_after(params) == Some(params["start-after"@]),
        !params.dom().contains("continuation-token"@) && !params.dom().contains("start-after"@)
            ==> resume_after(params) is None,
{
}

/// A listing names the bucket and the prefix, counts its keys, says whether more follow and
/// where to go on, and then gives every entry of the page in order.
pub proof fn law_a_listing_is_put_together(
    bucket: Seq<char>,
    prefix: Seq<char>,
    page: Seq<Entry>,
    one: Entry,
    requested: nat,
)
    ensures
        list_document(bucket, prefix, page, requested, false)
            == "<?xml version=\"1.0\" encoding=\"UTF-8\"?>\n"@
            + "<ListBucketResult xmlns=\"http://s3.amazonaws.com/doc/2006-03-01/\"><Name>"@
            + xml_escaped(bucket) + "</Name><Prefix>"@ + xml_escaped(prefix)
            + "</Prefix><KeyCount>"@ + decimal(page.len()) + "</KeyCount><MaxKeys>"@ + decimal(
            requested,
        ) + "</MaxKeys><IsTruncated>"@ + "false"@ + "</IsTruncated>"@ + contents_elements(page)
            + "</ListBucketResult>"@,
        page.len() > 0 ==> list_document(bucket, prefix, page, requested, true)
            == "<?xml version=\"1.0\" encoding=\"UTF-8\"?>\n"@
            + "<ListBucketResult xmlns=\"http://s3.amazonaws.com/doc/2006-03-01/\"><Name>"@
            + xml_escaped(bucket) + "</Name><Prefix>"@ + xml_escaped(prefix)
            + "</Prefix><KeyCount>"@ + decimal(page.len()) + "</KeyCount><MaxKeys>"@ + decimal(
            requested,
        ) + "</MaxKeys><IsTruncated>"@ + "true"@ + "</IsTruncated>"@ + (
        "<NextContinuationToken>"@ + xml_escaped(page.last().0) + "</NextContinuationToken>"@)
            + contents_elements(page) + "</ListBucketResult>"@,
        contents_elements(Seq::<Entry>::empty()).len() == 0,
        contents_elements(page.push(one)) == contents_elements(page) + ("<Contents><Key>"@
            + xml_escaped(one.0) + "</Key><LastModified>"@ + iso_date(one.1.last_modified)
            + "</LastModified><ETag>&quot;"@ + xml_escaped(
            trimmed(one.1.etag, CharClass::Char('"')),
        ) + "&quot;</ETag><Size>"@ + decimal(one.1.bytes.len())
            + "</Size><StorageClass>STANDARD</StorageClass></Contents>"@),
{
    assert(page.push(one).drop_last() =~= page);
    let head = "<?xml version=\"1.0\" encoding=\"UTF-8\"?>\n"@
        + "<ListBucketResult xmlns=\"http://s3.amazonaws.com/doc/2006-03-01/\"><Name>"@
        + xml_escaped(bucket) + "</Name><Prefix>"@ + xml_escaped(prefix) + "</Prefix><KeyCount>"@
        + decimal(page.len()) + "</KeyCount><MaxKeys>"@ + decimal(requested)
        + "</MaxKeys><IsTruncated>"@ + "false"@ + "</IsTruncated>"@;
    assert(head + token_element(page, false) =~= head);
}

/// A listing of the bucket is the page of the wanted entries; a request of another kind, or
/// for a delimiter, is refused.
pub proof fn law_the_answer_to_a_listing(
    bucket: Bucket,
    entries: Seq<Entry>,
    params: Map<Seq<char>, Seq<char>>,
)
    ensures
        ({
            let prefix = if params.dom().contains("prefix"@) {
                params["prefix"@]
            } else {
                Seq::empty()
            };
            let found = listed(entries, prefix, resume_after(params));
            let size = keys_per_page(requested_keys(params), bucket.options.page_size);
            let asked = params.dom().contains("list-type"@) && params["list-type"@] == "2"@;
            let delimited = params.dom().contains("delimiter"@) && params["delimiter"@].len() > 0;
            &&& asked && !delimited ==> list_response(bucket, entries, params) == (ResponseView {
                status: 200,
                headers: seq![("content-type"@, "application/xml"@)],
                body: encode_utf8(
                    list_document(
                        bucket.options.bucket,
                        prefix,
                        page_of(found, size),
                        requested_keys(params),
                        found.len() > size && !bucket.options.faults.contains(
                            Fault::TruncateListing,
                        ),
                    ),
                ),
            })
            &&& !asked || delimited ==> list_response(bucket, entries, params).status == 501
        }),
{
}

// ---- Text on the wire ---------------------------------------------------------------------

/// Text is escaped character by character: the ampersand, the angle brackets and the double
/// quote by their entities, everything else as it is.
pub proof fn law_text_is_escaped_by_character(a: Seq<char>, b: Seq<char>, c: char)
    ensures
        xml_escaped(a + b) == xml_escaped(a) + xml_escaped(b),
        xml_escaped(seq!['&']) == "&amp;"@,
        xml_escaped(seq!['<']) == "&lt;"@,
        xml_escaped(seq!['>']) == "&gt;"@,
        xml_escaped(seq!['"']) == "&quot;"@,
        c != '&' && c != '<' && c != '>' && c != '"' ==> xml_escaped(seq![c]) == seq![c],
    decreases b.len(),
{
    lemma_escaped_one('&');
    lemma_escaped_one('<');
    lemma_escaped_one('>');
    lemma_escaped_one('"');
    lemma_escaped_one(c);
    if b.len() == 0 {
        assert(a + b =~= a);
        assert(xml_escaped(b) =~= Seq::empty());
        assert(xml_escaped(a) + xml_escaped(b) =~= xml_escaped(a));
    } else {
        law_text_is_escaped_by_character(a, b.drop_last(), c);
        assert((a + b).drop_last() =~= a + b.drop_last());
        assert((a + b).last() == b.last());
        assert(xml_escaped(a + b) =~= xml_escaped(a) + xml_escaped(b));
    }
}

proof fn lemma_escaped_one(c: char)
    ensures
        xml_escaped(seq![c]) == crate::s3_stub::xml::xml_char(c),
{
    assert(seq![c].drop_last() =~= Seq::empty());
    reveal_with_fuel(xml_escaped, 2);
    assert(xml_escaped(seq![c]) =~= crate::s3_stub::xml::xml_char(c));
}

/// A percent sign with two hexadecimal digits stands for the byte that they spell, and what
/// stands before and behind it is read on its own.
pub proof fn law_an_escape_is_its_byte(a: Seq<char>, high: char, low: char, b: Seq<char>)
    requires
        !a.contains('%'),
        digit_value(high) is Some,
        digit_value(low) is Some,
    ensures
        unescaped(a + seq!['%', high, low] + b) == encode_utf8(a) + seq![
            (16 * digit_value(high)->0 + digit_value(low)->0) as u8,
        ] + unescaped(b),
    decreases a.len(),
{
    let whole = a + seq!['%', high, low] + b;
    let byte = (16 * digit_value(high)->0 + digit_value(low)->0) as u8;
    if a.len() == 0 {
        lemma_pair(high, low);
        assert(whole[0] == '%' && whole[1] == high && whole[2] == low);
        assert(whole.skip(3) =~= b);
        assert(encode_utf8(a) =~= Seq::empty());
        assert(unescaped(whole) =~= encode_utf8(a) + seq![byte] + unescaped(b));
    } else {
        let rest = a.skip(1);
        assert(a.contains(a[0]));
        assert(!rest.contains('%')) by {
            if rest.contains('%') {
                let i = choose|i: int| 0 <= i < rest.len() && rest[i] == '%';
                assert(a[i + 1] == '%');
            }
        }
        law_an_escape_is_its_byte(rest, high, low, b);
        assert(whole.skip(1) =~= rest + seq!['%', high, low] + b);
        assert(whole[0] == a[0]);
        crate::unicode::lemma_encode_concat(seq![a[0]], rest);
        assert(seq![a[0]] + rest =~= a);
        assert(unescaped(whole) =~= encode_utf8(a) + seq![byte] + unescaped(b));
    }
}

proof fn lemma_pair(high: char, low: char)
    requires
        digit_value(high) is Some,
        digit_value(low) is Some,
    ensures
        hex_pair(high, low) == Some((16 * digit_value(high)->0 + digit_value(low)->0) as u8),
{
    let digits = seq![high, low];
    let h = digit_value(high)->0;
    let l = digit_value(low)->0;
    assert(h < 16 && l < 16);
    assert(high != '+');
    assert(digits.drop_last() =~= seq![high]);
    assert(seq![high].drop_last() =~= Seq::empty());
    crate::numbers::law_digits_are_read_by_place(Seq::empty(), high, 0, h, 16);
    assert(Seq::<char>::empty().push(high) =~= seq![high]);
    crate::numbers::law_digits_are_read_by_place(seq![high], low, h, l, 16);
    assert(seq![high].push(low) =~= digits);
    assert(h * 16 + l <= 255);
}

/// A percent sign that no two hexadecimal digits follow stands for itself.
pub proof fn law_a_lone_percent_sign_is_kept(high: char, low: char, b: Seq<char>)
    requires
        digit_value(high) is None,
        high != '+',
    ensures
        unescaped(seq!['%', high, low] + b) == encode_utf8(seq!['%']) + unescaped(
            seq![high, low] + b,
        ),
{
    let whole = seq!['%', high, low] + b;
    assert(whole.skip(1) =~= seq![high, low] + b);
    let digits = seq![high, low];
    assert(digits.drop_last() =~= seq![high]);
    reveal_with_fuel(crate::numbers::digits_value, 3);
    assert(crate::numbers::digits_value(digits, 16) is None);
    assert(hex_pair(high, low) is None);
}

/// A parameter of a query is a name and a value with an equals sign between them; later ones
/// take the place of earlier ones of the same name, and empty pieces are passed over.
pub proof fn law_parameters_are_names_and_values(
    pieces: Seq<Seq<char>>,
    name: Seq<char>,
    text: Seq<char>,
)
    requires
        !name.contains('=') && !name.contains('%') && !text.contains('%'),
        name.len() > 0,
    ensures
        parameters(pieces.push(name.push('=') + text)) == parameters(pieces).insert(name, text),
        parameters(pieces.push(name)) == parameters(pieces).insert(name, Seq::empty()),
        parameters(pieces.push(Seq::empty())) == parameters(pieces),
        parameters(Seq::<Seq<char>>::empty()) == Map::<Seq<char>, Seq<char>>::empty(),
{
    let piece = name.push('=') + text;
    assert(pieces.push(piece).drop_last() =~= pieces);
    assert(pieces.push(name).drop_last() =~= pieces);
    assert(pieces.push(Seq::empty()).drop_last() =~= pieces);
    crate::store::upkeep::law_a_text_is_taken_apart_at_its_first_separator(name, text, '=');
    crate::s3_stub::wire::law_plain_text_is_kept(name);
    crate::s3_stub::wire::law_plain_text_is_kept(text);
}

/// A header is found by its name, the first where there are several.
pub proof fn law_the_first_header_of_a_name_counts(
    headers: Seq<(Seq<char>, Seq<char>)>,
    name: Seq<char>,
    i: int,
)
    requires
        0 <= i < headers.len(),
        headers[i].0 == name,
        forall|j: int| 0 <= j < i ==> (#[trigger] headers[j]).0 != name,
    ensures
        first_header(headers, name) == Some(headers[i].1),
    decreases i,
{
    if i > 0 {
        assert(headers[0].0 != name);
        let rest = headers.skip(1);
        assert forall|j: int| 0 <= j < i - 1 implies (#[trigger] rest[j]).0 != name by {
            assert(headers[j + 1].0 != name);
        }
        assert(rest[i - 1] == headers[i]);
        law_the_first_header_of_a_name_counts(rest, name, i - 1);
    }
}

/// A tag is bare without white space, without the mark of a weak tag, and without quotes.
pub proof fn law_a_tag_is_bare_without_its_quotes(tag: Seq<char>)
    requires
        tag.len() > 0,
        tag[0] != '"' && tag.last() != '"',
    ensures
        bare_etag("\""@ + tag + "\""@) == tag,
        bare_etag("W/\""@ + tag + "\""@) == tag,
{
    reveal_strlit("\"");
    reveal_strlit("W/\"");
    reveal_strlit("W/");
    let strong = "\""@ + tag + "\""@;
    let n: int = strong.len() as int;
    crate::search::mentions::law_a_trim_takes_both_ends(strong, CharClass::Space, 0, n);
    assert(strong.subrange(0, n) =~= strong);
    assert(strong.take(2)[0] == '"');
    assert(strong[1] == tag[0] && strong[n - 2] == tag.last());
    crate::search::mentions::law_a_trim_takes_both_ends(strong, CharClass::Char('"'), 1, n - 1);
    assert(strong.subrange(1, n - 1) =~= tag);
    let weak = "W/\""@ + tag + "\""@;
    let m: int = weak.len() as int;
    crate::search::mentions::law_a_trim_takes_both_ends(weak, CharClass::Space, 0, m);
    assert(weak.subrange(0, m) =~= weak);
    assert(weak.take(2) =~= "W/"@);
    assert(weak.skip(2) =~= strong);
}

/// What an error says: its code and its message, in a document of their own.
pub proof fn law_an_error_names_its_code(status: u16, code: Seq<char>, message: Seq<char>)
    ensures
        error_response(status, code, message).status == status,
        error_response(status, code, message).headers == seq![
            ("content-type"@, "application/xml"@),
        ],
        error_response(status, code, message).body == encode_utf8(
            "<?xml version=\"1.0\" encoding=\"UTF-8\"?>\n<Error><Code>"@ + code
                + "</Code><Message>"@ + xml_escaped(message) + "</Message></Error>"@,
        ),
        reason_phrase(200) == "OK"@,
        reason_phrase(204) == "No Content"@,
        reason_phrase(400) == "Bad Request"@,
        reason_phrase(404) == "Not Found"@,
        reason_phrase(409) == "Conflict"@,
        reason_phrase(412) == "Precondition Failed"@,
        reason_phrase(501) == "Not Implemented"@,
        status != 200 && status != 204 && status != 400 && status != 404 && status != 409 && status
            != 412 && status != 501 ==> reason_phrase(status) == "Internal Server Error"@,
{
}

/// A response goes out with its status line, every one of its headers in order, its length,
/// and its body, except that the answer to a HEAD request has none.
pub proof fn law_a_response_goes_out_whole(
    method: Seq<char>,
    response: ResponseView,
    headers: Seq<(Seq<char>, Seq<char>)>,
    one: (Seq<char>, Seq<char>),
)
    ensures
        response_head(response) == "HTTP/1.1 "@ + decimal(response.status as nat) + " "@
            + reason_phrase(response.status) + "\r\n"@ + header_lines(response.headers)
            + "content-length: "@ + decimal(response.body.len()) + "\r\n"@
            + "connection: close\r\n\r\n"@,
        header_lines(Seq::<(Seq<char>, Seq<char>)>::empty()).len() == 0,
        header_lines(headers.push(one)) == header_lines(headers) + (one.0 + ": "@ + one.1
            + "\r\n"@),
        method != "HEAD"@ ==> response_bytes(method, response) == encode_utf8(
            response_head(response),
        ) + response.body,
        method == "HEAD"@ ==> response_bytes(method, response) == encode_utf8(
            response_head(response),
        ),
{
    assert(headers.push(one).drop_last() =~= headers);
    assert(encode_utf8(response_head(response)) + Seq::<u8>::empty() =~= encode_utf8(
        response_head(response),
    ));
}

// ---- Requests on the wire -----------------------------------------------------------------

/// A header line is a name and a value with a colon between them, without the white space
/// around each, the name in lower case.
pub proof fn law_a_header_line_is_a_name_and_a_value(name: Seq<char>, rest: Seq<char>)
    requires
        !name.contains(':'),
    ensures
        header_of(name.push(':') + rest) == Some(
            (ascii_lowered(trimmed(name, CharClass::Space)), trimmed(rest, CharClass::Space)),
        ),
        header_of(name) is None,
{
    crate::store::upkeep::law_a_text_is_taken_apart_at_its_first_separator(name, rest, ':');
}

/// A request is read line by line: blank lines before it are passed over, its first line is
/// its method and its target, every header line is added to its headers, and a line without a
/// colon is passed over.
pub proof fn law_a_request_is_read_line_by_line(head: HeadView, line: Seq<char>)
    ensures
        blank(line) ==> read_on(ReaderView::Start, InputView::Line(line)) == (
            ReaderView::Start,
            DemandView::Line,
        ),
        !blank(line) ==> read_on(ReaderView::Start, InputView::Line(line)) == (
            ReaderView::Headers(
                HeadView {
                    method: request_line(line).0,
                    target: request_line(line).1,
                    headers: Seq::empty(),
                },
            ),
            DemandView::Line,
        ),
        !blank(line) && header_of(line) is Some ==> read_on(
            ReaderView::Headers(head),
            InputView::Line(line),
        ) == (
            ReaderView::Headers(
                HeadView {
                    method: head.method,
                    target: head.target,
                    headers: head.headers.push(header_of(line)->0),
                },
            ),
            DemandView::Line,
        ),
        !blank(line) && header_of(line) is None ==> read_on(
            ReaderView::Headers(head),
            InputView::Line(line),
        ) == (ReaderView::Headers(head), DemandView::Line),
        read_on(ReaderView::Headers(head), InputView::Closed).1 == DemandView::Fail(
            ReadErrorView::ClosedInHeaders,
        ),
        read_on(ReaderView::Start, InputView::Closed).1 is Nothing,
{
}

/// A body of known length is read at once and is the body of the request; without a length
/// there is none.
pub proof fn law_a_body_of_known_length_is_read(
    head: HeadView,
    line: Seq<char>,
    digits: Seq<char>,
    length: nat,
    body: Seq<u8>,
)
    requires
        blank(line),
        first_header(head.headers, "expect"@) is None,
        first_header(head.headers, "transfer-encoding"@) is None,
        first_header(head.headers, "content-length"@) == Some(digits),
        number(digits, 10, usize::MAX as nat) == Some(length),
    ensures
        ({
            let read = read_on(ReaderView::Headers(head), InputView::Line(line));
            &&& length == 0 ==> read.1 == DemandView::Done(
                RequestView {
                    method: head.method,
                    target: head.target,
                    headers: head.headers,
                    body: Seq::empty(),
                },
            )
            &&& length > 0 ==> read.1 == DemandView::Bytes(length) && read_on(
                read.0,
                InputView::Bytes(body),
            ).1 == DemandView::Done(
                RequestView {
                    method: head.method,
                    target: head.target,
                    headers: head.headers,
                    body,
                },
            )
        }),
{
}

/// A body in chunks is the chunks one behind the other: the size of each is read, then its
/// bytes, then the two bytes behind it; the chunk of size zero ends the body, and the lines
/// behind it are passed over up to a blank one.
pub proof fn law_a_body_in_chunks_is_put_together(
    head: HeadView,
    body: Seq<u8>,
    line: Seq<char>,
    size: nat,
    chunk: Seq<u8>,
    end: Seq<u8>,
    last: Seq<char>,
)
    requires
        number(crate::s3_stub::reader::chunk_digits(line), 16, usize::MAX as nat) == Some(size),
    ensures
        ({
            let sized = read_on(ReaderView::ChunkSize(head, body), InputView::Line(line));
            let data = read_on(sized.0, InputView::Bytes(chunk));
            let ended = read_on(data.0, InputView::Bytes(end));
            &&& size > 0 ==> sized.1 == DemandView::Bytes(size) && data.1 == DemandView::Bytes(2)
                && ended == (ReaderView::ChunkSize(head, body + chunk), DemandView::Line)
            &&& size == 0 && blank(last) ==> sized.1 is Line && read_on(
                sized.0,
                InputView::Line(last),
            ).1 == DemandView::Done(
                RequestView {
                    method: head.method,
                    target: head.target,
                    headers: head.headers,
                    body,
                },
            )
            &&& size == 0 && !blank(last) ==> read_on(sized.0, InputView::Line(last)) == (
                ReaderView::Trailer(head, body),
                DemandView::Line,
            )
        }),
{
}

/// A client that waits to be told to go on is told so before the body is read.
pub proof fn law_a_waiting_client_is_told_to_go_on(head: HeadView, line: Seq<char>)
    requires
        blank(line),
        first_header(head.headers, "expect"@) == Some("100-continue"@),
    ensures
        read_on(ReaderView::Headers(head), InputView::Line(line)) == (
            ReaderView::Interim(head),
            DemandView::SendContinue,
        ),
        read_on(ReaderView::Interim(head), InputView::Sent) == at_body(head),
{
}

// ---- Dates --------------------------------------------------------------------------------

/// The days are counted from the first of January 1970, and each day is the one after the
/// day before, over the ends of months and years.
pub proof fn law_days_are_counted_one_by_one(year: int, month: int, day: int)
    requires
        is_date(year, month, day),
        1 <= year,
    ensures
        day_number(1970, 1, 1) == 0,
        is_date(year, month, day + 1) ==> day_number(year, month, day + 1) == day_number(
            year,
            month,
            day,
        ) + 1,
        !is_date(year, month, day + 1) && month < 12 ==> day_number(year, month + 1, 1)
            == day_number(year, month, day) + 1,
        !is_date(year, month, day + 1) && month == 12 ==> day_number(year + 1, 1, 1) == day_number(
            year,
            month,
            day,
        ) + 1,
{
    assert(days_before_month(1970, 1) == 0);
    if month == 12 {
        law_year_length(year);
        reveal_with_fuel(days_before_month, 13);
    }
}

/// Thirty days have April, June, September and November, thirty-one have the others, and
/// February has twenty-eight, twenty-nine where the year is a multiple of four, except for
/// centuries that are no multiple of four hundred.
pub proof fn law_the_lengths_of_months(year: int, month: int)
    requires
        1 <= month <= 12,
    ensures
        month == 4 || month == 6 || month == 9 || month == 11 ==> days_in_month(year, month) == 30,
        month == 1 || month == 3 || month == 5 || month == 7 || month == 8 || month == 10 || month
            == 12 ==> days_in_month(year, month) == 31,
        month == 2 && year % 4 != 0 ==> days_in_month(year, month) == 28,
        month == 2 && year % 4 == 0 && year % 100 != 0 ==> days_in_month(year, month) == 29,
        month == 2 && year % 100 == 0 && year % 400 != 0 ==> days_in_month(year, month) == 28,
        month == 2 && year % 400 == 0 ==> days_in_month(year, month) == 29,
{
}

/// Dates are spelled with the day of the week, counted from the Thursday that the first of
/// January 1970 was, and with the day, the month, the year and the time of the day.
pub proof fn law_dates_are_spelled(
    year: int,
    month: int,
    day: int,
    hour: nat,
    minute: nat,
    second: nat,
)
    requires
        is_date(year, month, day),
        day_number(year, month, day) >= 0,
        hour < 24 && minute < 60 && second < 60,
    ensures
        ({
            let days = day_number(year, month, day);
            let at = (86_400 * days + 3600 * hour + 60 * minute + second) as nat;
            let time = padded(hour, 2) + ":"@ + padded(minute, 2) + ":"@ + padded(second, 2);
            &&& http_date(at) == weekday_name((days + 4) % 7) + ", "@ + padded(day as nat, 2) + " "@
                + month_name(month) + " "@ + padded(year as nat, 4) + " "@ + time + " GMT"@
            &&& iso_date(at) == padded(year as nat, 4) + "-"@ + padded(month as nat, 2) + "-"@
                + padded(day as nat, 2) + "T"@ + time + ".000Z"@
        }),
{
    let days = day_number(year, month, day);
    let at = (86_400 * days + 3600 * hour + 60 * minute + second) as nat;
    assert(at / 86_400 == days && at % 86_400 == 3600 * hour + 60 * minute + second);
    let rest: nat = at % 86_400;
    assert(rest / 3600 == hour && rest % 3600 == 60 * minute + second && (rest % 3600) / 60
        == minute && rest % 60 == second);
    let date = date_of(days);
    assert(is_date(year, month, day));
    let known = (year, month, day);
    assert(is_date(known.0, known.1, known.2) && day_number(known.0, known.1, known.2) == days);
    law_dates_are_unique(date, known);
}

/// The names of the days of the week and of the months.
pub proof fn law_the_names_of_days_and_months()
    ensures
        weekday_name(0) == "Sun"@,
        weekday_name(1) == "Mon"@,
        weekday_name(2) == "Tue"@,
        weekday_name(3) == "Wed"@,
        weekday_name(4) == "Thu"@,
        weekday_name(5) == "Fri"@,
        weekday_name(6) == "Sat"@,
        month_name(1) == "Jan"@,
        month_name(2) == "Feb"@,
        month_name(3) == "Mar"@,
        month_name(4) == "Apr"@,
        month_name(5) == "May"@,
        month_name(6) == "Jun"@,
        month_name(7) == "Jul"@,
        month_name(8) == "Aug"@,
        month_name(9) == "Sep"@,
        month_name(10) == "Oct"@,
        month_name(11) == "Nov"@,
        month_name(12) == "Dec"@,
{
}

// ---- Words and letters --------------------------------------------------------------------

/// A read that carries a condition is refused, and told which header it carries.
pub proof fn law_a_conditional_read_is_refused(
    bucket: Bucket,
    key: Seq<char>,
    headers: Seq<(Seq<char>, Seq<char>)>,
)
    ensures
        first_header(headers, "if-none-match"@) is Some ==> get_response(bucket, key, headers)
            == error_response(
            501,
            "NotImplemented"@,
            "the stub does not implement conditional reads ("@ + "if-none-match"@
                + " on GET/HEAD)"@,
        ),
        first_header(headers, "if-none-match"@) is None && first_header(headers, "if-match"@)
            is Some ==> get_response(bucket, key, headers) == error_response(
            501,
            "NotImplemented"@,
            "the stub does not implement conditional reads ("@ + "if-match"@ + " on GET/HEAD)"@,
        ),
{
}

/// Where a word starts behind white space, and where it ends.
pub proof fn law_a_word_ends_at_white_space(before: Seq<char>, word: Seq<char>, after: Seq<char>)
    requires
        forall|i: int| 0 <= i < before.len() ==> is_space(#[trigger] before[i]),
        forall|i: int| 0 <= i < word.len() ==> !is_space(#[trigger] word[i]),
        word.len() > 0,
        after.len() > 0 ==> is_space(after[0]),
    ensures
        first_word(before + word + after) == (word, after),
    decreases before.len(),
{
    let text = before + word + after;
    if before.len() > 0 {
        assert(text[0] == before[0]);
        let rest = before.skip(1);
        assert forall|i: int| 0 <= i < rest.len() implies is_space(#[trigger] rest[i]) by {
            assert(is_space(before[i + 1]));
        }
        law_a_word_ends_at_white_space(rest, word, after);
        assert(text.skip(1) =~= rest + word + after);
    } else {
        assert(text =~= word + after);
        assert(text[0] == word[0]);
        assert(without_start(text, CharClass::Space) == text);
        lemma_word_end(word, after, 0);
        assert(text.take(word.len() as int) =~= word);
        assert(text.skip(word.len() as int) =~= after);
    }
}

/// No white space stands in the word before its end.
proof fn lemma_word_end(word: Seq<char>, after: Seq<char>, from: int)
    requires
        0 <= from <= word.len(),
        forall|i: int| 0 <= i < word.len() ==> !is_space(#[trigger] word[i]),
        after.len() > 0 ==> is_space(after[0]),
    ensures
        space_from(word + after, from) == word.len(),
    decreases word.len() - from,
{
    let text = word + after;
    if from < word.len() {
        assert(text[from] == word[from]);
        lemma_word_end(word, after, from + 1);
    } else if after.len() > 0 {
        assert(text[from] == after[0]);
    }
}

/// A request line is its method and its target, apart by white space; what follows is left
/// aside.
pub proof fn law_a_request_line_is_its_first_two_words(
    before: Seq<char>,
    method: Seq<char>,
    gap: Seq<char>,
    target: Seq<char>,
    after: Seq<char>,
)
    requires
        forall|i: int| 0 <= i < before.len() ==> is_space(#[trigger] before[i]),
        forall|i: int| 0 <= i < gap.len() ==> is_space(#[trigger] gap[i]),
        forall|i: int| 0 <= i < method.len() ==> !is_space(#[trigger] method[i]),
        forall|i: int| 0 <= i < target.len() ==> !is_space(#[trigger] target[i]),
        method.len() > 0,
        gap.len() > 0,
        target.len() > 0,
        after.len() > 0 ==> is_space(after[0]),
    ensures
        request_line(before + method + (gap + target + after)) == (method, target),
        request_line(before + method) == (method, Seq::<char>::empty()),
{
    let rest = gap + target + after;
    assert(rest[0] == gap[0]);
    law_a_word_ends_at_white_space(before, method, rest);
    law_a_word_ends_at_white_space(gap, target, after);
    let none = Seq::<char>::empty();
    law_a_word_ends_at_white_space(before, method, none);
    assert(before + method + none =~= before + method);
    assert(without_start(none, CharClass::Space) == none);
    assert(none.take(0) =~= none);
}

/// Each of the letters from A to Z is lowered, each on its own; no other character changes.
pub proof fn law_only_ascii_letters_are_lowered(a: Seq<char>, b: Seq<char>, c: char, i: int)
    ensures
        ascii_lowered(a + b) == ascii_lowered(a) + ascii_lowered(b),
        0 <= i < 26 ==> ascii_lowered(seq!["ABCDEFGHIJKLMNOPQRSTUVWXYZ"@[i]])
            == seq!["abcdefghijklmnopqrstuvwxyz"@[i]],
        !("ABCDEFGHIJKLMNOPQRSTUVWXYZ"@.contains(c)) ==> ascii_lowered(seq![c]) == seq![c],
{
    reveal_strlit("ABCDEFGHIJKLMNOPQRSTUVWXYZ");
    reveal_strlit("abcdefghijklmnopqrstuvwxyz");
    let upper = "ABCDEFGHIJKLMNOPQRSTUVWXYZ"@;
    let lower = "abcdefghijklmnopqrstuvwxyz"@;
    assert forall|k: int| 0 <= k < 26 implies #[trigger] upper[k] as int == 65 + k && lower[k]
        as int == 97 + k by {
        assert(k == 0 || k == 1 || k == 2 || k == 3 || k == 4 || k == 5 || k == 6 || k == 7 || k
            == 8 || k == 9 || k == 10 || k == 11 || k == 12 || k == 13 || k == 14 || k == 15 || k
            == 16 || k == 17 || k == 18 || k == 19 || k == 20 || k == 21 || k == 22 || k == 23 || k
            == 24 || k == 25);
    }
    assert(ascii_lowered(a + b) =~= ascii_lowered(a) + ascii_lowered(b));
    if 0 <= i < 26 {
        assert(upper[i] as int == 65 + i);
        assert(ascii_lowered(seq![upper[i]]) =~= seq![lower[i]]);
    }
    if !upper.contains(c) {
        if 65 <= c as int <= 90 {
            assert(upper[c as int - 65] == c);
        }
        assert(ascii_lowered(seq![c]) =~= seq![c]);
    }
}

} // verus!
