//! What holds of a stub bucket over several requests.

use vstd::prelude::*;

use crate::numbers::{decimal, lemma_decimal_digits, lemma_decimal_injective};
use crate::s3_stub::listing::{
    keys_per_page, list_document, list_response, listed, page_of, parameter_or, requested_keys,
    resume_after, wanted, Entry,
};
use crate::s3_stub::options::{xml_response, Fault, RequestView, ResponseView};
use crate::s3_stub::serve::{after_request, operation, Operation};
use crate::s3_stub::state::{
    after_put, etag_of, get_response, is_wildcard, put_decision, put_response, written, Bucket,
    ObjectView, PutDecision,
};
use crate::s3_stub::wire::{first_header, routed};
use crate::s3_stub::xml::bare_etag;
use crate::text::{lemma_lex_asymmetric, lemma_lex_irreflexive, lemma_lex_transitive, lex_less};
use crate::trim::{is_space, trimmed, without_end, without_start, CharClass};

verus! {

// ---- ETags ---------------------------------------------------------------------

/// An ETag of the stub without its quotes.
spec fn etag_core(seq: nat, len: nat) -> Seq<char> {
    "stub-"@ + decimal(seq) + "-"@ + decimal(len)
}

/// Comparing an ETag of the stub compares what stands between its quotes.
proof fn lemma_bare_etag(seq: nat, len: nat)
    ensures
        bare_etag(etag_of(seq, len)) == etag_core(seq, len),
        !is_wildcard(etag_of(seq, len)),
{
    reveal_strlit("\"stub-");
    reveal_strlit("stub-");
    reveal_strlit("\"");
    reveal_strlit("-");
    reveal_strlit("W/");
    reveal_strlit("*");
    lemma_decimal_digits(seq);
    lemma_decimal_digits(len);
    let tag = etag_of(seq, len);
    let core = etag_core(seq, len);
    assert(tag =~= seq!['"'] + core + seq!['"']);
    assert(!is_space('"'));
    assert(tag[0] == '"' && tag.last() == '"');
    assert(without_start(tag, CharClass::Space) == tag);
    assert(without_end(tag, CharClass::Space) == tag);
    assert(trimmed(tag, CharClass::Space) == tag);
    assert(tag.len() >= 2);
    assert("*"@.len() == 1);
    assert(tag.take(2)[0] == '"');
    assert("W/"@[0] == 'W');
    assert(tag.take(2) != "W/"@);
    let tail = core + seq!['"'];
    assert(tag.skip(1) =~= tail);
    assert(tail[0] == 's');
    assert(without_start(tail, CharClass::Char('"')) == tail);
    assert(without_start(tag, CharClass::Char('"')) == tail);
    assert(tail.drop_last() =~= core);
    assert(core.last() == decimal(len).last());
    assert(core.last() != '"');
    assert(without_end(core, CharClass::Char('"')) == core);
    assert(without_end(tail, CharClass::Char('"')) == core);
}

/// The number of a write can be read off its ETag.
proof fn lemma_etag_number(a: nat, len_a: nat, b: nat, len_b: nat)
    requires
        bare_etag(etag_of(a, len_a)) == bare_etag(etag_of(b, len_b)),
    ensures
        a == b,
{
    lemma_bare_etag(a, len_a);
    lemma_bare_etag(b, len_b);
    lemma_decimal_digits(a);
    lemma_decimal_digits(b);
    reveal_strlit("stub-");
    reveal_strlit("-");
    let left = etag_core(a, len_a);
    let right = etag_core(b, len_b);
    let na: int = decimal(a).len() as int;
    let nb: int = decimal(b).len() as int;
    assert(left[5 + na] == '-');
    assert(right[5 + nb] == '-');
    if na < nb {
        assert(right[5 + na] == decimal(b)[na]);
        assert(false);
    } else if nb < na {
        assert(left[5 + nb] == decimal(a)[nb]);
        assert(false);
    }
    assert(left.subrange(5, 5 + na) =~= decimal(a));
    assert(right.subrange(5, 5 + na) =~= decimal(b));
    lemma_decimal_injective(a, b);
}

// ---- Conditional writes ------------------------------------------------------------

/// Whether `object` is what the write with the number `n` stored.
pub open spec fn tagged(object: ObjectView, n: nat) -> bool {
    object.etag == etag_of(n, object.bytes.len())
}

/// Whether each object carries the ETag of one of the writes accepted so far.
pub open spec fn numbered(bucket: Bucket) -> bool {
    forall|k: Seq<char>| #[trigger]
        bucket.objects.dom().contains(k) ==> exists|n: nat|
            1 <= n <= bucket.etag_seq && #[trigger] tagged(bucket.objects[k], n)
}

/// An empty bucket is numbered, and every request keeps it so.
pub proof fn law_buckets_stay_numbered(bucket: Bucket, request: RequestView, now: nat)
    ensures
        bucket.objects == Map::<Seq<char>, ObjectView>::empty() ==> numbered(bucket),
        numbered(bucket) ==> numbered(after_request(bucket, request, now)),
        after_request(bucket, request, now).options == bucket.options,
        after_request(bucket, request, now).etag_seq >= bucket.etag_seq,
{
    if numbered(bucket) {
        let next = after_request(bucket, request, now);
        assert forall|k: Seq<char>| #[trigger] next.objects.dom().contains(k) implies exists|n: nat|
            1 <= n <= next.etag_seq && #[trigger] tagged(next.objects[k], n) by {
            if bucket.objects.dom().contains(k) && next.objects[k] == bucket.objects[k] {
                let n = choose|n: nat|
                    1 <= n <= bucket.etag_seq && #[trigger] tagged(bucket.objects[k], n);
                assert(1 <= n <= next.etag_seq && tagged(next.objects[k], n));
            } else {
                let n: nat = bucket.etag_seq + 1;
                assert(1 <= n <= next.etag_seq && tagged(next.objects[k], n));
            }
        }
    }
}

/// The bucket after a list of requests, each with the time it was served at.
pub open spec fn after_requests(bucket: Bucket, requests: Seq<(RequestView, nat)>) -> Bucket
    decreases requests.len(),
{
    if requests.len() == 0 {
        bucket
    } else {
        after_request(
            after_requests(bucket, requests.drop_last()),
            requests.last().0,
            requests.last().1,
        )
    }
}

/// Whether the object under `key` is gone, or was written after the write with
/// the number `seq`.
spec fn moved_on(bucket: Bucket, key: Seq<char>, seq: nat) -> bool {
    bucket.objects.dom().contains(key) ==> exists|n: nat|
        n > seq && #[trigger] tagged(bucket.objects[key], n)
}

/// What can have become of an object after a list of requests.
proof fn lemma_object_stays_or_moves(
    bucket: Bucket,
    requests: Seq<(RequestView, nat)>,
    key: Seq<char>,
)
    ensures
        after_requests(bucket, requests).options == bucket.options,
        after_requests(bucket, requests).etag_seq >= bucket.etag_seq,
        ({
            let later = after_requests(bucket, requests);
            moved_on(later, key, bucket.etag_seq) || (bucket.objects.dom().contains(key)
                && later.objects.dom().contains(key) && later.objects[key] == bucket.objects[key])
        }),
    decreases requests.len(),
{
    if requests.len() == 0 {
    } else {
        lemma_object_stays_or_moves(bucket, requests.drop_last(), key);
        let before = after_requests(bucket, requests.drop_last());
        let request = requests.last().0;
        let now = requests.last().1;
        law_buckets_stay_numbered(before, request, now);
        let later = after_request(before, request, now);
        if later.objects.dom().contains(key) && !(before.objects.dom().contains(key)
            && later.objects[key] == before.objects[key]) {
            assert(tagged(later.objects[key], before.etag_seq + 1));
        }
    }
}

/// A write that a precondition refuses stores nothing and changes nothing.
pub proof fn law_refused_writes_change_nothing(
    bucket: Bucket,
    key: Seq<char>,
    if_match: Option<Seq<char>>,
    if_none_match: Option<Seq<char>>,
    body: Seq<u8>,
    now: nat,
)
    ensures
        ({
            let response = put_response(bucket, key, if_match, if_none_match, body, now);
            let later = after_put(bucket, key, if_match, if_none_match, body, now);
            &&& response.status == 404 || response.status == 412 ==> later == bucket
            &&& response.status == 409 ==> later.objects == bucket.objects && later.etag_seq
                == bucket.etag_seq
            &&& response.status == 200 <==> put_decision(bucket, key, if_match, if_none_match)
                is Accepted
        }),
{
}

/// An accepted write with `If-Match` replaces exactly the object that was read
/// under that ETag, whatever happened in between.
pub proof fn law_conditional_write_replaces_what_was_read(
    bucket: Bucket,
    requests: Seq<(RequestView, nat)>,
    key: Seq<char>,
    if_none_match: Option<Seq<char>>,
)
    requires
        numbered(bucket),
        bucket.objects.dom().contains(key),
        !bucket.options.faults.contains(Fault::IgnoreIfMatch),
        put_decision(
            after_requests(bucket, requests),
            key,
            Some(bucket.objects[key].etag),
            if_none_match,
        ) is Accepted,
    ensures
        after_requests(bucket, requests).objects.dom().contains(key),
        after_requests(bucket, requests).objects[key] == bucket.objects[key],
{
    let later = after_requests(bucket, requests);
    lemma_object_stays_or_moves(bucket, requests, key);
    let n = choose|n: nat| 1 <= n <= bucket.etag_seq && #[trigger] tagged(bucket.objects[key], n);
    let len = bucket.objects[key].bytes.len();
    lemma_bare_etag(n, len);
    if moved_on(later, key, bucket.etag_seq) {
        let m = choose|m: nat| m > bucket.etag_seq && #[trigger] tagged(later.objects[key], m);
        lemma_etag_number(n, len, m, later.objects[key].bytes.len());
    }
}

/// Of the writes that carry the same ETag at most one is accepted: once one was,
/// every later one finds the object gone or moved.
pub proof fn law_an_etag_wins_once(
    bucket: Bucket,
    key: Seq<char>,
    body: Seq<u8>,
    now: nat,
    requests: Seq<(RequestView, nat)>,
    if_none_match: Option<Seq<char>>,
)
    requires
        numbered(bucket),
        bucket.objects.dom().contains(key),
        !bucket.options.faults.contains(Fault::IgnoreIfMatch),
        put_decision(bucket, key, Some(bucket.objects[key].etag), None) is Accepted,
    ensures
        ({
            let won = after_put(bucket, key, Some(bucket.objects[key].etag), None, body, now);
            let later = after_requests(won, requests);
            let decision = put_decision(
                later,
                key,
                Some(bucket.objects[key].etag),
                if_none_match,
            );
            !(decision is Accepted) && !(decision is Conflict)
        }),
{
    let etag = bucket.objects[key].etag;
    let won = after_put(bucket, key, Some(etag), None, body, now);
    let later = after_requests(won, requests);
    lemma_object_stays_or_moves(won, requests, key);
    let n = choose|n: nat| 1 <= n <= bucket.etag_seq && #[trigger] tagged(bucket.objects[key], n);
    let len = bucket.objects[key].bytes.len();
    lemma_bare_etag(n, len);
    assert(tagged(won.objects[key], bucket.etag_seq + 1));
    if later.objects.dom().contains(key) {
        let object = later.objects[key];
        if moved_on(later, key, won.etag_seq) {
            let m = choose|m: nat| m > won.etag_seq && #[trigger] tagged(object, m);
            if bare_etag(etag) == bare_etag(object.etag) {
                lemma_etag_number(n, len, m, object.bytes.len());
            }
        } else {
            if bare_etag(etag) == bare_etag(object.etag) {
                lemma_etag_number(n, len, bucket.etag_seq + 1, object.bytes.len());
            }
        }
    }
}

/// Creating twice: once a create was accepted, a second one is refused while the
/// object is there.
pub proof fn law_a_key_is_created_once(
    bucket: Bucket,
    key: Seq<char>,
    body: Seq<u8>,
    now: nat,
    if_match: Option<Seq<char>>,
)
    requires
        put_decision(bucket, key, None, Some("*"@)) is Accepted,
    ensures
        put_decision(
            after_put(bucket, key, None, Some("*"@), body, now),
            key,
            if_match,
            Some("*"@),
        ) is Exists,
{
    reveal_strlit("*");
    assert(without_start("*"@, CharClass::Space) == "*"@);
    assert(trimmed("*"@, CharClass::Space) == "*"@);
}

/// A read that follows an accepted write answers with the body that was written
/// and the ETag that the write returned.
pub proof fn law_a_read_gives_back_the_write(
    bucket: Bucket,
    key: Seq<char>,
    if_match: Option<Seq<char>>,
    if_none_match: Option<Seq<char>>,
    body: Seq<u8>,
    now: nat,
    headers: Seq<(Seq<char>, Seq<char>)>,
)
    requires
        put_decision(bucket, key, if_match, if_none_match) is Accepted,
        !bucket.options.faults.contains(Fault::StaleReadEtag),
        !bucket.options.faults.contains(Fault::TruncateReadBody),
        first_header(headers, "if-match"@) is None,
        first_header(headers, "if-none-match"@) is None,
    ensures
        ({
            let put = put_response(bucket, key, if_match, if_none_match, body, now);
            let later = after_put(bucket, key, if_match, if_none_match, body, now);
            let read = get_response(later, key, headers);
            &&& read.status == 200
            &&& read.body == body
            &&& first_header(read.headers, "etag"@) == first_header(put.headers, "etag"@)
            &&& first_header(put.headers, "etag"@) is Some
            &&& first_header(read.headers, "x-amz-version-id"@) is None
        }),
{
    let later = after_put(bucket, key, if_match, if_none_match, body, now);
    let read = get_response(later, key, headers);
    reveal_strlit("etag");
    reveal_strlit("last-modified");
    reveal_strlit("content-type");
    reveal_strlit("x-amz-version-id");
    assert("etag"@.len() == 4);
    assert("last-modified"@.len() == 13);
    assert("content-type"@.len() == 12);
    assert("x-amz-version-id"@.len() == 16);
    reveal_with_fuel(first_header, 4);
    assert(read.headers.skip(1)[0] == read.headers[1]);
    assert(read.headers.skip(1).skip(1)[0] == read.headers[2]);
    assert(read.headers.skip(1).skip(1).skip(1).len() == 0);
}

/// No two accepted writes share an ETag, whatever was written and whatever was asked in
/// between, be it the same body under the same key.
pub proof fn law_no_two_writes_share_an_etag(
    bucket: Bucket,
    first: PutTry,
    requests: Seq<(RequestView, nat)>,
    second: PutTry,
)
    requires
        decided(bucket, first) is Accepted,
        decided(after_requests(after_try(bucket, first), requests), second) is Accepted,
    ensures
        ({
            let one = answered(bucket, first);
            let other = answered(after_requests(after_try(bucket, first), requests), second);
            let a = first_header(one.headers, "etag"@);
            let b = first_header(other.headers, "etag"@);
            &&& one.status == 200 && other.status == 200
            &&& a is Some && b is Some
            &&& a != b
            &&& bare_etag(a->0) != bare_etag(b->0)
        }),
{
    let won = after_try(bucket, first);
    let later = after_requests(won, requests);
    lemma_object_stays_or_moves(won, requests, first.key);
    lemma_put_etag(bucket, first);
    lemma_put_etag(later, second);
    let n: nat = bucket.etag_seq + 1;
    let m: nat = later.etag_seq + 1;
    if bare_etag(etag_of(n, first.body.len())) == bare_etag(etag_of(m, second.body.len())) {
        lemma_etag_number(n, first.body.len(), m, second.body.len());
    }
}

/// The answer to an accepted write names the ETag that was stored.
proof fn lemma_put_etag(bucket: Bucket, one: PutTry)
    requires
        decided(bucket, one) is Accepted,
    ensures
        answered(bucket, one).status == 200,
        first_header(answered(bucket, one).headers, "etag"@) == Some(
            etag_of(bucket.etag_seq + 1, one.body.len()),
        ),
        after_try(bucket, one).objects.dom().contains(one.key),
        after_try(bucket, one).objects[one.key].etag == etag_of(
            bucket.etag_seq + 1,
            one.body.len(),
        ),
        after_try(bucket, one).etag_seq == bucket.etag_seq + 1,
{
    reveal_with_fuel(first_header, 2);
}

/// Whether a request writes or removes the object under a key.
pub open spec fn touches(bucket: Bucket, request: RequestView, key: Seq<char>) -> bool {
    &&& routed(request.target).key == key
    &&& match operation(bucket, request) {
        Operation::Put => put_decision(
            bucket,
            key,
            first_header(request.headers, "if-match"@),
            first_header(request.headers, "if-none-match"@),
        ) is Accepted,
        Operation::Delete => true,
        _ => false,
    }
}

/// Whether none of the requests writes or removes the object under a key.
pub open spec fn leave_alone(
    bucket: Bucket,
    requests: Seq<(RequestView, nat)>,
    key: Seq<char>,
) -> bool {
    forall|i: int|
        0 <= i < requests.len() ==> !touches(
            after_requests(bucket, requests.take(i)),
            (#[trigger] requests[i]).0,
            key,
        )
}

proof fn lemma_left_alone(bucket: Bucket, requests: Seq<(RequestView, nat)>, key: Seq<char>)
    requires
        leave_alone(bucket, requests, key),
        bucket.objects.dom().contains(key),
    ensures
        after_requests(bucket, requests).objects.dom().contains(key),
        after_requests(bucket, requests).objects[key] == bucket.objects[key],
        after_requests(bucket, requests).options == bucket.options,
    decreases requests.len(),
{
    if requests.len() > 0 {
        let front = requests.drop_last();
        assert forall|i: int| 0 <= i < front.len() implies !touches(
            after_requests(bucket, front.take(i)),
            (#[trigger] front[i]).0,
            key,
        ) by {
            assert(front.take(i) =~= requests.take(i));
            assert(!touches(after_requests(bucket, requests.take(i)), requests[i].0, key));
        }
        lemma_left_alone(bucket, front, key);
        let last = requests.len() - 1;
        assert(requests.take(last) =~= front);
        assert(!touches(after_requests(bucket, requests.take(last)), requests[last].0, key));
        law_buckets_stay_numbered(
            after_requests(bucket, front),
            requests.last().0,
            requests.last().1,
        );
    }
}

/// Until the object under its key is written or removed again, the ETag that an accepted
/// write returned is what a read of the key answers with and what the bucket lists.
pub proof fn law_an_etag_stays_until_the_next_write(
    bucket: Bucket,
    one: PutTry,
    requests: Seq<(RequestView, nat)>,
    headers: Seq<(Seq<char>, Seq<char>)>,
)
    requires
        decided(bucket, one) is Accepted,
        leave_alone(after_try(bucket, one), requests, one.key),
        !bucket.options.faults.contains(Fault::StaleReadEtag),
        first_header(headers, "if-match"@) is None,
        first_header(headers, "if-none-match"@) is None,
    ensures
        ({
            let later = after_requests(after_try(bucket, one), requests);
            let tag = first_header(answered(bucket, one).headers, "etag"@);
            &&& first_header(get_response(later, one.key, headers).headers, "etag"@) == tag
            &&& later.objects.dom().contains(one.key)
            &&& Some(later.objects[one.key].etag) == tag
        }),
{
    lemma_put_etag(bucket, one);
    lemma_left_alone(after_try(bucket, one), requests, one.key);
    reveal_with_fuel(first_header, 2);
}

/// A write that is tried: where, under which preconditions, what and when.
pub struct PutTry {
    pub key: Seq<char>,
    pub if_match: Option<Seq<char>>,
    pub if_none_match: Option<Seq<char>>,
    pub body: Seq<u8>,
    pub now: nat,
}

/// How a write that is tried is decided.
pub open spec fn decided(bucket: Bucket, one: PutTry) -> PutDecision {
    put_decision(bucket, one.key, one.if_match, one.if_none_match)
}

/// The bucket after a write that was tried.
pub open spec fn after_try(bucket: Bucket, one: PutTry) -> Bucket {
    after_put(bucket, one.key, one.if_match, one.if_none_match, one.body, one.now)
}

/// The answer to a write that was tried.
pub open spec fn answered(bucket: Bucket, one: PutTry) -> ResponseView {
    put_response(bucket, one.key, one.if_match, one.if_none_match, one.body, one.now)
}

/// The bucket after the first `n` of a list of writes.
pub open spec fn after_tries(bucket: Bucket, tries: Seq<PutTry>, n: int) -> Bucket
    decreases n,
{
    if n <= 0 {
        bucket
    } else {
        after_try(after_tries(bucket, tries, n - 1), tries[n - 1])
    }
}

/// Whether a write carries `If-Match` and its preconditions hold.
pub open spec fn satisfied(bucket: Bucket, one: PutTry) -> bool {
    one.if_match is Some && (decided(bucket, one) is Accepted || decided(bucket, one) is Conflict)
}

/// How many of the first `n` writes carry `If-Match` and have their preconditions hold.
pub open spec fn satisfied_before(bucket: Bucket, tries: Seq<PutTry>, n: int) -> nat
    decreases n,
{
    if n <= 0 {
        0
    } else {
        satisfied_before(bucket, tries, n - 1) + (if satisfied(
            after_tries(bucket, tries, n - 1),
            tries[n - 1],
        ) {
            1nat
        } else {
            0
        })
    }
}

proof fn lemma_conflicts_left(bucket: Bucket, tries: Seq<PutTry>, n: int)
    requires
        0 <= n <= tries.len(),
    ensures
        ({
            let spent = satisfied_before(bucket, tries, n);
            after_tries(bucket, tries, n).conflicts_left == (if spent < bucket.conflicts_left {
                (bucket.conflicts_left - spent) as nat
            } else {
                0
            })
        }),
    decreases n,
{
    if n > 0 {
        lemma_conflicts_left(bucket, tries, n - 1);
    }
}

/// Over any sequence of writes, the injected conflicts go to the first writes that carry
/// `If-Match` and whose preconditions hold, as many as were asked for: those are answered
/// with 409 and store nothing, and the next one is answered with 200 and stores. No other
/// write is answered with 409 or uses up a conflict.
pub proof fn law_conflicts_meet_the_first_writes(bucket: Bucket, tries: Seq<PutTry>, at: int)
    requires
        0 <= at < tries.len(),
    ensures
        ({
            let before = after_tries(bucket, tries, at);
            let one = tries[at];
            let later = after_tries(bucket, tries, at + 1);
            let spent = satisfied_before(bucket, tries, at);
            &&& satisfied(before, one) && spent < bucket.conflicts_left ==> {
                &&& answered(before, one).status == 409
                &&& later.objects == before.objects
                &&& later.etag_seq == before.etag_seq
            }
            &&& satisfied(before, one) && spent >= bucket.conflicts_left ==> {
                &&& answered(before, one).status == 200
                &&& later.objects == before.objects.insert(
                    one.key,
                    written(before, one.body, one.now),
                )
            }
            &&& !satisfied(before, one) ==> {
                &&& answered(before, one).status != 409
                &&& later.conflicts_left == before.conflicts_left
            }
        }),
{
    lemma_conflicts_left(bucket, tries, at);
}

/// An accepted write gets an ETag that no object of the bucket has.
pub proof fn law_every_write_gets_a_fresh_etag(
    bucket: Bucket,
    body: Seq<u8>,
    now: nat,
    other: Seq<char>,
)
    requires
        numbered(bucket),
        bucket.objects.dom().contains(other),
    ensures
        bare_etag(written(bucket, body, now).etag) != bare_etag(bucket.objects[other].etag),
{
    let n = choose|n: nat|
        1 <= n <= bucket.etag_seq && #[trigger] tagged(bucket.objects[other], n);
    if bare_etag(written(bucket, body, now).etag) == bare_etag(bucket.objects[other].etag) {
        lemma_etag_number(
            bucket.etag_seq + 1,
            body.len(),
            n,
            bucket.objects[other].bytes.len(),
        );
    }
}

// ---- Listings ----------------------------------------------------------------------

/// Whether the keys of the entries ascend.
pub open spec fn keys_ascend(entries: Seq<Entry>) -> bool {
    forall|i: int, j: int|
        0 <= i < j < entries.len() ==> lex_less(#[trigger] entries[i].0, #[trigger] entries[j].0)
}

/// A listing holds an entry exactly when the bucket does and it is wanted.
pub proof fn law_a_listing_holds_what_is_wanted(
    entries: Seq<Entry>,
    prefix: Seq<char>,
    after: Option<Seq<char>>,
)
    ensures
        forall|e: Entry| #[trigger]
            listed(entries, prefix, after).contains(e) <==> entries.contains(e) && wanted(
                e.0,
                prefix,
                after,
            ),
        listed(entries, prefix, after).len() <= entries.len(),
    decreases entries.len(),
{
    if entries.len() > 0 {
        let shorter = entries.drop_last();
        let before = listed(shorter, prefix, after);
        law_a_listing_holds_what_is_wanted(shorter, prefix, after);
        let found = listed(entries, prefix, after);
        assert forall|e: Entry| #[trigger]
            found.contains(e) <==> entries.contains(e) && wanted(e.0, prefix, after) by {
            if found.contains(e) {
                let i = choose|i: int| 0 <= i < found.len() && found[i] == e;
                if i < before.len() {
                    assert(before[i] == e);
                    assert(before.contains(e));
                    assert(shorter.contains(e));
                    let j = choose|j: int| 0 <= j < shorter.len() && shorter[j] == e;
                    assert(entries[j] == e);
                } else {
                    assert(entries[entries.len() - 1] == e);
                }
            }
            if entries.contains(e) && wanted(e.0, prefix, after) {
                let j = choose|j: int| 0 <= j < entries.len() && entries[j] == e;
                if j < shorter.len() {
                    assert(shorter[j] == e);
                    assert(before.contains(e));
                    let i = choose|i: int| 0 <= i < before.len() && before[i] == e;
                    assert(found[i] == e);
                } else {
                    assert(found[found.len() - 1] == e);
                }
            }
        }
    } else {
        assert(listed(entries, prefix, after) =~= Seq::empty());
    }
}

/// A listing that resumes after the last key of a page holds what the listing
/// before it held behind that page: nothing is left out and nothing comes twice.
pub proof fn law_a_token_resumes_where_the_page_ended(
    entries: Seq<Entry>,
    prefix: Seq<char>,
    after: Option<Seq<char>>,
    at: int,
)
    requires
        keys_ascend(entries),
        0 <= at < listed(entries, prefix, after).len(),
    ensures
        listed(entries, prefix, Some(listed(entries, prefix, after)[at].0)) == listed(
            entries,
            prefix,
            after,
        ).skip(at + 1),
    decreases entries.len(),
{
    let found = listed(entries, prefix, after);
    let key = found[at].0;
    let shorter = entries.drop_last();
    let last = entries.last();
    let before = listed(shorter, prefix, after);
    assert(keys_ascend(shorter));
    law_a_listing_holds_what_is_wanted(entries, prefix, after);
    law_a_listing_holds_what_is_wanted(shorter, prefix, after);
    law_a_listing_holds_what_is_wanted(shorter, prefix, Some(key));
    assert(found.contains(found[at]));
    let resumed = listed(shorter, prefix, Some(key));
    if at < before.len() {
        assert(before[at] == found[at]);
        law_a_token_resumes_where_the_page_ended(shorter, prefix, after, at);
        assert(before.contains(found[at]));
        let j = choose|j: int| 0 <= j < shorter.len() && shorter[j] == found[at];
        assert(entries[j].0 == key);
        assert(lex_less(entries[j].0, entries[entries.len() - 1].0));
        if wanted(last.0, prefix, after) {
            assert(wanted(last.0, prefix, Some(key)));
            assert(found.skip(at + 1) =~= before.skip(at + 1).push(last));
        } else {
            if wanted(last.0, prefix, Some(key)) {
                if let Some(first) = after {
                    lemma_lex_transitive(first, key, last.0);
                }
            }
        }
    } else {
        assert(found[at] == last);
        lemma_lex_irreflexive(key);
        if resumed.len() > 0 {
            assert(resumed.contains(resumed[0]));
            let j = choose|j: int| 0 <= j < shorter.len() && shorter[j] == resumed[0];
            assert(lex_less(entries[j].0, entries[entries.len() - 1].0));
            lemma_lex_asymmetric(entries[j].0, key);
        }
        assert(found.skip(at + 1) =~= Seq::empty());
        assert(resumed =~= Seq::empty());
    }
}

/// Following the continuation tokens from `after`, page by page.
pub open spec fn all_pages(
    entries: Seq<Entry>,
    prefix: Seq<char>,
    after: Option<Seq<char>>,
    size: nat,
) -> Seq<Entry>
    decreases listed(entries, prefix, after).len(),
    when keys_ascend(entries) && size > 0
    via all_pages_decreases
{
    let found = listed(entries, prefix, after);
    let page = page_of(found, size);
    if found.len() > size {
        page + all_pages(entries, prefix, Some(page.last().0), size)
    } else {
        page
    }
}

#[via_fn]
proof fn all_pages_decreases(
    entries: Seq<Entry>,
    prefix: Seq<char>,
    after: Option<Seq<char>>,
    size: nat,
) {
    let found = listed(entries, prefix, after);
    if found.len() > size {
        assert(page_of(found, size).last() == found[size - 1]);
        law_a_token_resumes_where_the_page_ended(entries, prefix, after, size - 1);
    }
}

/// A client that follows the continuation tokens sees the whole listing, whatever
/// the size of a page.
pub proof fn law_paging_is_complete(
    entries: Seq<Entry>,
    prefix: Seq<char>,
    after: Option<Seq<char>>,
    size: nat,
)
    requires
        keys_ascend(entries),
        size > 0,
    ensures
        all_pages(entries, prefix, after, size) == listed(entries, prefix, after),
    decreases listed(entries, prefix, after).len(),
{
    let found = listed(entries, prefix, after);
    if found.len() > size {
        let page = page_of(found, size);
        assert(page.last() == found[size - 1]);
        law_a_token_resumes_where_the_page_ended(entries, prefix, after, size - 1);
        law_paging_is_complete(entries, prefix, Some(page.last().0), size);
        assert(page + found.skip(size as int) =~= found);
    }
}

// ---- The answers of a listing --------------------------------------------------------

/// How many answers it takes to list `n` keys, `size` to a page: as many pages as they
/// fill, and one where there is none.
pub open spec fn page_count(n: nat, size: nat) -> nat {
    if n == 0 {
        1
    } else {
        ((n + size - 1) / (size as int)) as nat
    }
}

/// What a listing with these parameters is to hold.
pub open spec fn asked_for(entries: Seq<Entry>, params: Map<Seq<char>, Seq<char>>) -> Seq<Entry> {
    listed(entries, parameter_or(params, "prefix"@, Seq::empty()), resume_after(params))
}

/// The parameters with which the client goes on behind a key.
pub open spec fn resumed(params: Map<Seq<char>, Seq<char>>, key: Seq<char>) -> Map<
    Seq<char>,
    Seq<char>,
> {
    params.insert("continuation-token"@, key)
}

/// Going on behind a key changes nothing but where the listing resumes.
proof fn lemma_resumed(params: Map<Seq<char>, Seq<char>>, key: Seq<char>)
    ensures
        resume_after(resumed(params, key)) == Some(key),
        parameter_or(resumed(params, key), "prefix"@, Seq::empty()) == parameter_or(
            params,
            "prefix"@,
            Seq::empty(),
        ),
        requested_keys(resumed(params, key)) == requested_keys(params),
        resumed(params, key).dom().contains("list-type"@) == params.dom().contains("list-type"@),
        params.dom().contains("list-type"@) ==> resumed(params, key)["list-type"@]
            == params["list-type"@],
        resumed(params, key).dom().contains("delimiter"@) == params.dom().contains("delimiter"@),
        params.dom().contains("delimiter"@) ==> resumed(params, key)["delimiter"@]
            == params["delimiter"@],
{
    reveal_strlit("continuation-token");
    reveal_strlit("prefix");
    reveal_strlit("max-keys");
    reveal_strlit("list-type");
    reveal_strlit("delimiter");
    assert("continuation-token"@.len() == 18);
    assert("prefix"@.len() == 6);
    assert("max-keys"@.len() == 8);
    assert("list-type"@.len() == 9);
    assert("delimiter"@.len() == 9);
}

/// Whether the parameters ask for a listing that the stub gives.
pub open spec fn plain_listing(params: Map<Seq<char>, Seq<char>>) -> bool {
    &&& params.dom().contains("list-type"@) && params["list-type"@] == "2"@
    &&& params.dom().contains("delimiter"@) ==> params["delimiter"@].len() == 0
}

/// The answers that a client gets that follows the continuation tokens: each is the answer
/// to the parameters behind the last key of the page before.
pub open spec fn answers(
    bucket: Bucket,
    entries: Seq<Entry>,
    params: Map<Seq<char>, Seq<char>>,
) -> Seq<ResponseView>
    decreases asked_for(entries, params).len(),
    when keys_ascend(entries)
    via answers_decreases
{
    let found = asked_for(entries, params);
    let size = keys_per_page(requested_keys(params), bucket.options.page_size);
    let here = list_response(bucket, entries, params);
    if found.len() > size {
        seq![here] + answers(bucket, entries, resumed(params, page_of(found, size).last().0))
    } else {
        seq![here]
    }
}

#[via_fn]
proof fn answers_decreases(
    bucket: Bucket,
    entries: Seq<Entry>,
    params: Map<Seq<char>, Seq<char>>,
) {
    let found = asked_for(entries, params);
    let size = keys_per_page(requested_keys(params), bucket.options.page_size);
    if found.len() > size {
        let key = page_of(found, size).last().0;
        lemma_resumed(params, key);
        assert(page_of(found, size).last() == found[size - 1]);
        law_a_token_resumes_where_the_page_ended(
            entries,
            parameter_or(params, "prefix"@, Seq::empty()),
            resume_after(params),
            size - 1,
        );
    }
}

/// The `k`th page of what was found, counted from zero.
pub open spec fn nth_page(found: Seq<Entry>, size: nat, k: int) -> Seq<Entry> {
    let from = k * size;
    let to = if from + size < found.len() {
        from + size
    } else {
        found.len() as int
    };
    found.subrange(from, to)
}

/// Whether an answer is the `k`th page of a listing: its keys, their number, and a token
/// for the next page exactly where one follows.
pub open spec fn is_page(
    bucket: Bucket,
    params: Map<Seq<char>, Seq<char>>,
    found: Seq<Entry>,
    k: int,
    answer: ResponseView,
) -> bool {
    let requested = requested_keys(params);
    let size = keys_per_page(requested, bucket.options.page_size);
    answer == xml_response(
        200,
        list_document(
            bucket.options.bucket,
            parameter_or(params, "prefix"@, Seq::empty()),
            nth_page(found, size, k),
            requested,
            k + 1 < page_count(found.len(), size),
        ),
    )
}

proof fn lemma_page_count(n: nat, size: nat)
    requires
        size > 0,
    ensures
        0 < n <= size ==> page_count(n, size) == 1,
        n > size ==> page_count(n, size) == page_count((n - size) as nat, size) + 1,
        page_count(n, size) >= 1,
{
    if 0 < n <= size {
        assert((n + size - 1) / (size as int) == 1) by (nonlinear_arith)
            requires
                0 < n <= size,
        ;
    } else if n > size {
        vstd::arithmetic::div_mod::lemma_div_plus_one((n - 1) as int, size as int);
        assert((n - size) + size - 1 == n - 1);
        vstd::arithmetic::div_mod::lemma_div_pos_is_pos((n - 1) as int, size as int);
    }
}

/// A client that follows the continuation tokens gets one answer for each page that the
/// keys fill, and one where there is none; the answers hold the pages in their order, each
/// with the number of its keys, no more than a page holds, and name the next token exactly
/// where another page follows.
pub proof fn law_the_answers_are_the_pages(
    bucket: Bucket,
    entries: Seq<Entry>,
    params: Map<Seq<char>, Seq<char>>,
)
    requires
        keys_ascend(entries),
        plain_listing(params),
        !bucket.options.faults.contains(Fault::TruncateListing),
    ensures
        ({
            let found = asked_for(entries, params);
            let size = keys_per_page(requested_keys(params), bucket.options.page_size);
            &&& answers(bucket, entries, params).len() == page_count(found.len(), size)
            &&& forall|k: int|
                0 <= k < page_count(found.len(), size) ==> is_page(
                    bucket,
                    params,
                    found,
                    k,
                    #[trigger] answers(bucket, entries, params)[k],
                ) && nth_page(found, size, k).len() <= size
        }),
    decreases asked_for(entries, params).len(),
{
    let found = asked_for(entries, params);
    let size = keys_per_page(requested_keys(params), bucket.options.page_size);
    let all = answers(bucket, entries, params);
    let page = page_of(found, size);
    let count = page_count(found.len(), size);
    lemma_page_count(found.len(), size);
    assert(nth_page(found, size, 0) =~= page);
    if found.len() > size {
        let key = page.last().0;
        let next = resumed(params, key);
        lemma_resumed(params, key);
        assert(page.last() == found[size - 1]);
        law_a_token_resumes_where_the_page_ended(
            entries,
            parameter_or(params, "prefix"@, Seq::empty()),
            resume_after(params),
            size - 1,
        );
        let rest = asked_for(entries, next);
        assert(rest == found.skip(size as int));
        law_the_answers_are_the_pages(bucket, entries, next);
        let later = answers(bucket, entries, next);
        assert(all == seq![list_response(bucket, entries, params)] + later);
        assert forall|k: int| 0 <= k < count implies is_page(
            bucket,
            params,
            found,
            k,
            #[trigger] all[k],
        ) && nth_page(found, size, k).len() <= size by {
            if k > 0 {
                assert(all[k] == later[k - 1]);
                assert(is_page(bucket, next, rest, k - 1, later[k - 1]));
                lemma_page_shift(found, size, k);
            }
        }
    } else {
        assert(all.len() == 1);
        assert forall|k: int| 0 <= k < count implies is_page(
            bucket,
            params,
            found,
            k,
            #[trigger] all[k],
        ) && nth_page(found, size, k).len() <= size by {
            assert(k == 0);
        }
    }
}

/// The pages behind the first one are those of what is left.
proof fn lemma_page_shift(found: Seq<Entry>, size: nat, k: int)
    requires
        size > 0,
        found.len() > size,
        0 < k < page_count(found.len(), size),
    ensures
        nth_page(found.skip(size as int), size, k - 1) == nth_page(found, size, k),
{
    assert((k - 1) * size + size == k * size) by (nonlinear_arith);
    assert((k - 1) * size >= 0) by (nonlinear_arith)
        requires
            k >= 1,
    ;
    let n = found.len();
    let count = page_count(n, size);
    assert(k * size < n) by {
        vstd::arithmetic::div_mod::lemma_fundamental_div_mod((n + size - 1) as int, size as int);
        let q = (n + size - 1) / (size as int);
        let r = (n + size - 1) % (size as int);
        assert(n + size - 1 == size * q + r);
        assert(k * size <= (q - 1) * size) by (nonlinear_arith)
            requires
                k <= q - 1,
                size > 0,
        ;
        assert((q - 1) * size == size * q - size) by (nonlinear_arith);
        assert(r >= 0);
    }
    assert(nth_page(found.skip(size as int), size, k - 1) =~= nth_page(found, size, k));
}

} // verus!
