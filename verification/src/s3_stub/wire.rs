//! Request targets, query strings and headers.

use vstd::prelude::*;
use vstd::utf8::{decode_utf8, encode_utf8, valid_utf8};

use crate::numbers::{digit_of, number};
use crate::ordered::OrderedMap;
use crate::text::{
    chars_of, code_point, find_from, lemma_find_from, same_text, split_all, split_first, split_on,
    split_once, texts,
};
use crate::trim::{trim, trimmed, CharClass};

verus! {

/// A header name and its value.
pub type Header = (String, String);

/// The characters of a header.
pub open spec fn header_view(header: Header) -> (Seq<char>, Seq<char>) {
    (header.0@, header.1@)
}

/// The characters of a list of headers.
pub open spec fn headers_view(headers: Seq<Header>) -> Seq<(Seq<char>, Seq<char>)> {
    Seq::new(headers.len(), |i: int| header_view(headers[i]))
}

/// The value of the first header called `name`.
pub open spec fn first_header(
    headers: Seq<(Seq<char>, Seq<char>)>,
    name: Seq<char>,
) -> Option<Seq<char>>
    decreases headers.len(),
{
    if headers.len() == 0 {
        None
    } else if headers[0].0 == name {
        Some(headers[0].1)
    } else {
        first_header(headers.skip(1), name)
    }
}

/// The value of the first header called `name`.
pub fn header(headers: &Vec<Header>, name: &str) -> (value: Option<String>)
    ensures
        crate::text::opt_text(value) == first_header(headers_view(headers@), name@),
{
    let ghost all = headers_view(headers@);
    let mut i: usize = 0;
    assert(all.skip(0) =~= all);
    while i < headers.len()
        invariant
            i <= headers@.len(),
            all == headers_view(headers@),
            first_header(all, name@) == first_header(all.skip(i as int), name@),
        decreases headers@.len() - i,
    {
        assert(all.skip(i as int)[0] == header_view(headers@[i as int]));
        if same_text(headers[i].0.as_str(), name) {
            return Some(headers[i].1.clone());
        }
        assert(all.skip(i as int).skip(1) =~= all.skip(i + 1));
        i += 1;
    }
    None
}

/// The byte that two hexadecimal digits spell, a plus sign counting as a leading
/// zero.
pub open spec fn hex_pair(high: char, low: char) -> Option<u8> {
    match number(seq![high, low], 16, 255) {
        Some(value) => Some(value as u8),
        None => None,
    }
}

/// Bytes of `text` after its percent escapes are replaced by what they stand for.
/// What is no escape stays as it is.
pub open spec fn unescaped(text: Seq<char>) -> Seq<u8>
    decreases text.len(),
{
    if text.len() == 0 {
        Seq::empty()
    } else if text[0] == '%' && text.len() > 2 && hex_pair(text[1], text[2]) is Some {
        seq![hex_pair(text[1], text[2])->0] + unescaped(text.skip(3))
    } else {
        encode_utf8(seq![text[0]]) + unescaped(text.skip(1))
    }
}

/// Whether the two bytes after each percent sign end where a character ends.
#[verifier::opaque]
pub open spec fn whole_escapes(text: Seq<char>) -> bool {
    forall|i: int|
        0 <= i && i + 1 < text.len() && #[trigger] text[i] == '%' ==> {
            ||| 0x80 <= text[i + 1] as int && (text[i + 1] as int) < 0x800
            ||| (text[i + 1] as int) < 0x80 && (i + 2 < text.len() ==> (text[i + 2] as int) < 0x80)
        }
}

/// Whether the two bytes after each percent sign end where a character ends.
pub fn has_whole_escapes(text: &str) -> (whole: bool)
    ensures
        whole == whole_escapes(text@),
{
    let chars: Vec<char> = chars_of(text);
    let mut i: usize = 0;
    reveal(whole_escapes);
    while i < chars.len()
        invariant
            chars@ == text@,
            i <= chars@.len(),
            forall|j: int|
                0 <= j < i && j + 1 < text@.len() && #[trigger] text@[j] == '%' ==> {
                    ||| 0x80 <= text@[j + 1] as int && (text@[j + 1] as int) < 0x800
                    ||| (text@[j + 1] as int) < 0x80 && (j + 2 < text@.len() ==> (text@[j
                        + 2] as int) < 0x80)
                },
        decreases chars@.len() - i,
    {
        if chars[i] == '%' && chars.len() - i > 1 {
            let next: u32 = code_point(chars[i + 1]);
            let two_bytes: bool = 0x80 <= next && next < 0x800;
            let plain: bool = next < 0x80 && (chars.len() - i <= 2 || code_point(chars[i + 2]) < 0x80);
            if !two_bytes && !plain {
                reveal(whole_escapes);
                assert(text@[i as int] == '%');
                return false;
            }
        }
        i += 1;
    }
    true
}

/// The characters that bytes spell, with a replacement character for what is not
/// UTF-8.
pub uninterp spec fn lossy_text(bytes: Seq<u8>) -> Seq<char>;

/// `String::from_utf8_lossy`: the text that the bytes spell, a replacement
/// character standing for each part that is not UTF-8. Bytes that are UTF-8 keep
/// their meaning.
#[verifier::external_body]
pub(crate) fn text_from_bytes(bytes: &Vec<u8>) -> (text: String)
    ensures
        text@ == lossy_text(bytes@),
        valid_utf8(bytes@) ==> text@ == decode_utf8(bytes@),
{
    String::from_utf8_lossy(bytes).into_owned()
}

/// The UTF-8 bytes of one character.
fn char_bytes(c: char) -> (bytes: Vec<u8>)
    ensures
        bytes@ == encode_utf8(seq![c]),
{
    let mut text: String = String::new();
    text.push(c);
    assert(text@ =~= seq![c]);
    text.as_str().as_bytes_vec()
}

/// The byte that two hexadecimal digits spell, a plus sign counting as a leading
/// zero.
fn hex_byte(high: char, low: char) -> (byte: Option<u8>)
    ensures
        byte == hex_pair(high, low),
{
    let ghost pair = seq![high, low];
    reveal_with_fuel(crate::numbers::digits_value, 3);
    if high == '+' {
        assert(pair.skip(1) =~= seq![low]);
        assert(seq![low].drop_last() =~= Seq::<char>::empty());
        return digit_of(low);
    }
    assert(pair.drop_last() =~= seq![high]);
    assert(seq![high].drop_last() =~= Seq::<char>::empty());
    match (digit_of(high), digit_of(low)) {
        (Some(h), Some(l)) => Some(h * 16 + l),
        _ => None,
    }
}

/// The text that bytes spell: what they encode, where they are UTF-8.
pub open spec fn spelled(bytes: Seq<u8>) -> Seq<char> {
    if valid_utf8(bytes) {
        decode_utf8(bytes)
    } else {
        lossy_text(bytes)
    }
}

/// `text` with its percent escapes replaced by what they stand for.
pub open spec fn percent_decoded(text: Seq<char>) -> Seq<char> {
    spelled(unescaped(text))
}

/// The bytes of `text` after its percent escapes are replaced.
pub fn percent_bytes(text: &str) -> (bytes: Vec<u8>)
    ensures
        bytes@ == unescaped(text@),
{
    let chars: Vec<char> = chars_of(text);
    let mut out: Vec<u8> = Vec::new();
    let mut i: usize = 0;
    assert(text@.skip(0) =~= text@);
    assert(out@ + unescaped(text@) =~= unescaped(text@));
    while i < chars.len()
        invariant
            chars@ == text@,
            i <= chars@.len(),
            out@ + unescaped(text@.skip(i as int)) == unescaped(text@),
        decreases chars@.len() - i,
    {
        let ghost rest = text@.skip(i as int);
        let ghost before = out@;
        if chars[i] == '%' && chars.len() - i > 2 {
            if let Some(byte) = hex_byte(chars[i + 1], chars[i + 2]) {
                out.push(byte);
                assert(rest.skip(3) =~= text@.skip(i + 3));
                assert(out@ + unescaped(rest.skip(3)) =~= before + (seq![byte] + unescaped(
                    rest.skip(3),
                )));
                i += 3;
                continue ;
            }
        }
        let mut bytes: Vec<u8> = char_bytes(chars[i]);
        let ghost spelled = bytes@;
        out.append(&mut bytes);
        assert(rest.skip(1) =~= text@.skip(i + 1));
        assert(out@ + unescaped(rest.skip(1)) =~= before + (spelled + unescaped(rest.skip(1))));
        i += 1;
    }
    assert(text@.skip(i as int) =~= Seq::<char>::empty());
    assert(out@ =~= unescaped(text@));
    out
}

/// `text` with its percent escapes replaced by what they stand for.
pub fn percent_decode(text: &str) -> (decoded: String)
    requires
        whole_escapes(text@),
    ensures
        decoded@ == percent_decoded(text@),
{
    let bytes: Vec<u8> = percent_bytes(text);
    text_from_bytes(&bytes)
}

/// A text without percent signs spells its own bytes, and is decoded to itself.
pub proof fn law_plain_text_is_kept(text: Seq<char>)
    requires
        !text.contains('%'),
    ensures
        unescaped(text) == encode_utf8(text),
        percent_decoded(text) == text,
    decreases text.len(),
{
    if text.len() > 0 {
        assert(text.contains(text[0]));
        assert forall|i: int| 0 <= i < text.skip(1).len() implies text.skip(1)[i] != '%' by {
            assert(text.contains(text[i + 1]));
        }
        law_plain_text_is_kept(text.skip(1));
        assert(seq![text[0]].skip(1) =~= Seq::<char>::empty());
        assert(text.drop_first() =~= text.skip(1));
        assert(seq![text[0]].drop_first() =~= Seq::<char>::empty());
        reveal_with_fuel(encode_utf8, 2);
        assert(encode_utf8(seq![text[0]]) + encode_utf8(text.skip(1)) =~= encode_utf8(text));
    } else {
        assert(unescaped(text) =~= encode_utf8(text));
    }
    vstd::utf8::encode_utf8_valid_utf8(text);
    vstd::utf8::encode_utf8_decode_utf8(text);
}

/// A request target taken apart.
#[derive(Debug)]
pub struct Route {
    /// The bucket that the target names.
    pub bucket: String,
    /// The object key behind the bucket, empty for the bucket itself.
    pub key: String,
    /// What follows the question mark, as it was sent.
    pub query: String,
}

/// The characters of a `Route`.
pub struct RouteView {
    pub bucket: Seq<char>,
    pub key: Seq<char>,
    pub query: Seq<char>,
}

impl View for Route {
    type V = RouteView;

    open spec fn view(&self) -> RouteView {
        RouteView { bucket: self.bucket@, key: self.key@, query: self.query@ }
    }
}

/// The path of a target, before the question mark.
pub open spec fn target_path(target: Seq<char>) -> Seq<char> {
    match split_first(target, '?') {
        Some(parts) => parts.0,
        None => target,
    }
}

/// The query of a target, after the question mark.
pub open spec fn target_query(target: Seq<char>) -> Seq<char> {
    match split_first(target, '?') {
        Some(parts) => parts.1,
        None => Seq::empty(),
    }
}

/// How a target is taken apart: the decoded path without its outer slashes is a
/// bucket and, behind the first slash that is left, a key.
pub open spec fn routed(target: Seq<char>) -> RouteView {
    let rest = trimmed(percent_decoded(target_path(target)), CharClass::Char('/'));
    match split_first(rest, '/') {
        Some(parts) => RouteView { bucket: parts.0, key: parts.1, query: target_query(target) },
        None => RouteView { bucket: rest, key: Seq::empty(), query: target_query(target) },
    }
}

/// Takes a request target apart.
pub fn route(target: &str) -> (found: Route)
    requires
        whole_escapes(target_path(target@)),
    ensures
        found@ == routed(target@),
{
    let (path, query): (String, String) = match split_once(target, '?') {
        Some(parts) => parts,
        None => (target.to_owned(), String::new()),
    };
    let decoded: String = percent_decode(path.as_str());
    let rest: String = trim(decoded.as_str(), CharClass::Char('/'));
    match split_once(rest.as_str(), '/') {
        Some((bucket, key)) => Route { bucket, key, query },
        None => Route { bucket: rest, key: String::new(), query },
    }
}

/// What stands before and after the first `c` of a text that is put together around it.
proof fn lemma_split_around(before: Seq<char>, c: char, after: Seq<char>)
    requires
        !before.contains(c),
    ensures
        split_first(before + seq![c] + after, c) == Some((before, after)),
{
    let text = before + seq![c] + after;
    let at: int = find_from(text, c, 0);
    lemma_find_from(text, c, 0);
    assert(text[before.len() as int] == c);
    if at < before.len() {
        assert(before.contains(before[at]));
    }
    assert(text.take(at) =~= before);
    assert(text.skip(at + 1) =~= after);
}

/// A path that starts with a slash and a character that is none, and ends with one that is
/// none, loses the slash.
proof fn lemma_slash_goes(rest: Seq<char>)
    requires
        rest.len() > 0,
        rest[0] != '/',
        rest.last() != '/',
    ensures
        trimmed(seq!['/'] + rest, CharClass::Char('/')) == rest,
{
    let path = seq!['/'] + rest;
    assert(path.skip(1) =~= rest);
    reveal_with_fuel(crate::trim::without_start, 2);
}

/// A target in plain text names the bucket, the key and the query that it is put together
/// from.
pub proof fn law_a_plain_target_is_taken_apart(
    bucket: Seq<char>,
    key: Seq<char>,
    query: Seq<char>,
)
    requires
        bucket.len() > 0,
        key.len() > 0,
        key.last() != '/',
        !bucket.contains('/') && !bucket.contains('?') && !bucket.contains('%'),
        !key.contains('?') && !key.contains('%'),
    ensures
        routed(seq!['/'] + bucket + seq!['/'] + key + seq!['?'] + query) == (RouteView {
            bucket,
            key,
            query,
        }),
        routed(seq!['/'] + bucket + seq!['?'] + query) == (RouteView {
            bucket,
            key: Seq::empty(),
            query,
        }),
{
    let object = seq!['/'] + bucket + seq!['/'] + key;
    let rest = bucket + seq!['/'] + key;
    assert(object =~= seq!['/'] + rest);
    assert forall|i: int| 0 <= i < object.len() implies object[i] != '?' && object[i] != '%' by {
        if 0 < i <= bucket.len() {
            assert(bucket.contains(bucket[i - 1]));
        } else if i > bucket.len() + 1 {
            assert(key.contains(key[i - bucket.len() - 2]));
        }
    }
    lemma_split_around(object, '?', query);
    law_plain_text_is_kept(object);
    assert(bucket.contains(bucket[0]));
    lemma_slash_goes(rest);
    lemma_split_around(bucket, '/', key);

    let list = seq!['/'] + bucket;
    assert forall|i: int| 0 <= i < list.len() implies list[i] != '?' && list[i] != '%' by {
        if 0 < i {
            assert(bucket.contains(bucket[i - 1]));
        }
    }
    lemma_split_around(list, '?', query);
    law_plain_text_is_kept(list);
    assert(bucket.contains(bucket.last()));
    lemma_slash_goes(bucket);
    lemma_find_from(bucket, '/', 0);
    let at = find_from(bucket, '/', 0);
    if at < bucket.len() {
        assert(bucket.contains(bucket[at]));
    }
}

/// The parameter that one piece of a query string names, and its value.
pub open spec fn parameter(piece: Seq<char>) -> (Seq<char>, Seq<char>) {
    match split_first(piece, '=') {
        Some(parts) => (percent_decoded(parts.0), percent_decoded(parts.1)),
        None => (percent_decoded(piece), Seq::empty()),
    }
}

/// The parameters of the pieces of a query string. Of two that share a name the
/// later one counts; empty pieces are passed over.
pub open spec fn parameters(pieces: Seq<Seq<char>>) -> Map<Seq<char>, Seq<char>>
    decreases pieces.len(),
{
    if pieces.len() == 0 {
        Map::empty()
    } else {
        let before = parameters(pieces.drop_last());
        if pieces.last().len() == 0 {
            before
        } else {
            before.insert(parameter(pieces.last()).0, parameter(pieces.last()).1)
        }
    }
}

/// The parameters of a query string.
pub open spec fn query_parameters(query: Seq<char>) -> Map<Seq<char>, Seq<char>> {
    parameters(split_all(query, '&'))
}

/// The characters behind each key.
pub open spec fn text_map(map: Map<Seq<char>, String>) -> Map<Seq<char>, Seq<char>> {
    Map::new(|k: Seq<char>| map.dom().contains(k), |k: Seq<char>| map[k]@)
}

/// Whether the escapes of the name and of the value of a piece of a query string are
/// whole.
pub open spec fn whole_parameter(piece: Seq<char>) -> bool {
    match split_first(piece, '=') {
        Some(parts) => whole_escapes(parts.0) && whole_escapes(parts.1),
        None => whole_escapes(piece),
    }
}

/// Whether the escapes of each name and each value of a query string are whole.
pub open spec fn whole_query(query: Seq<char>) -> bool {
    forall|i: int|
        0 <= i < split_all(query, '&').len() ==> whole_parameter(
            #[trigger] split_all(query, '&')[i],
        )
}

/// Whether the escapes of each name and each value of a query string are whole.
pub fn has_whole_query(query: &str) -> (whole: bool)
    ensures
        whole == whole_query(query@),
{
    let pieces: Vec<String> = split_on(query, '&');
    let ghost all = texts(pieces@);
    let mut i: usize = 0;
    while i < pieces.len()
        invariant
            all == texts(pieces@),
            all == split_all(query@, '&'),
            i <= pieces@.len(),
            forall|j: int| 0 <= j < i ==> whole_parameter(#[trigger] split_all(query@, '&')[j]),
        decreases pieces@.len() - i,
    {
        let piece: &str = pieces[i].as_str();
        assert(all[i as int] == piece@);
        let whole: bool = match split_once(piece, '=') {
            Some((name, value)) => has_whole_escapes(name.as_str()) && has_whole_escapes(
                value.as_str(),
            ),
            None => has_whole_escapes(piece),
        };
        if !whole {
            assert(!whole_parameter(split_all(query@, '&')[i as int]));
            return false;
        }
        i += 1;
    }
    true
}

/// The parameters of a query string, by name.
pub fn parse_query(query: &str) -> (params: OrderedMap<String>)
    requires
        whole_query(query@),
    ensures
        params.wf(),
        text_map(params@) == query_parameters(query@),
{
    let pieces: Vec<String> = split_on(query, '&');
    let ghost all = texts(pieces@);
    let mut params: OrderedMap<String> = OrderedMap::new();
    let mut i: usize = 0;
    assert(all.take(0) =~= Seq::<Seq<char>>::empty());
    assert(text_map(params@) =~= Map::<Seq<char>, Seq<char>>::empty());
    while i < pieces.len()
        invariant
            all == texts(pieces@),
            all == split_all(query@, '&'),
            whole_query(query@),
            i <= pieces@.len(),
            params.wf(),
            text_map(params@) == parameters(all.take(i as int)),
        decreases pieces@.len() - i,
    {
        let ghost taken = all.take(i + 1);
        assert(taken.drop_last() =~= all.take(i as int));
        assert(taken.last() == pieces@[i as int]@);
        let piece: &str = pieces[i].as_str();
        assert(whole_parameter(split_all(query@, '&')[i as int]));
        if !piece.is_empty() {
            let (name, value): (String, String) = match split_once(piece, '=') {
                Some((name, value)) => (
                    percent_decode(name.as_str()),
                    percent_decode(value.as_str()),
                ),
                None => (percent_decode(piece), String::new()),
            };
            let ghost before = params@;
            let ghost pair = (name@, value@);
            params.insert(name, value);
            assert(pair == parameter(piece@));
            assert(text_map(params@) =~= text_map(before).insert(pair.0, pair.1));
        }
        i += 1;
    }
    assert(all.take(i as int) =~= all);
    params
}

} // verus!
