//! What a body mentions, told from the body itself.

use vstd::prelude::*;

use crate::search::entities::{
    bare, extraction, fit_ones, fits, in_text_order, law_the_earliest_identifiers_win, leaf,
    like_identifier, like_path, link_target, link_targets, seen_links, seen_names, seen_paths,
    seen_spans, seen_tags, sightings, tag_end, without_md,
};
use crate::text::{
    find_from, lemma_find_from, lemma_part_from, part_from, stands_at, without_suffix,
};
use crate::trim::{
    lemma_end_done, lemma_start_done, parts_from, parts_of, trimmed, without_end, without_start,
    CharClass,
};
use crate::unicode::{byte_len, lemma_offset_step, offset, text_lower};

verus! {

// ---- Trimming -----------------------------------------------------------------------------

proof fn lemma_start_at(text: Seq<char>, strip: CharClass, p: int)
    requires
        0 <= p < text.len(),
        forall|i: int| 0 <= i < p ==> strip.takes(#[trigger] text[i]),
        !strip.takes(text[p]),
    ensures
        without_start(text, strip) == text.skip(p),
    decreases p,
{
    if p > 0 {
        assert(strip.takes(text[0]));
        let rest = text.skip(1);
        assert forall|i: int| 0 <= i < p - 1 implies strip.takes(#[trigger] rest[i]) by {
            assert(strip.takes(text[i + 1]));
        }
        lemma_start_at(rest, strip, p - 1);
        assert(rest.skip(p - 1) =~= text.skip(p));
    } else {
        assert(text.skip(0) =~= text);
    }
}

proof fn lemma_end_at(text: Seq<char>, strip: CharClass, q: int)
    requires
        0 < q <= text.len(),
        forall|i: int| q <= i < text.len() ==> strip.takes(#[trigger] text[i]),
        !strip.takes(text[q - 1]),
    ensures
        without_end(text, strip) == text.take(q),
    decreases text.len(),
{
    if q < text.len() {
        let rest = text.drop_last();
        assert(strip.takes(text[text.len() - 1]));
        assert forall|i: int| q <= i < rest.len() implies strip.takes(#[trigger] rest[i]) by {
            assert(strip.takes(text[i]));
        }
        lemma_end_at(rest, strip, q);
        assert(rest.take(q) =~= text.take(q));
    } else {
        assert(text.take(q) =~= text);
    }
}

/// A trim takes off what belongs to the class before the first character and behind the last
/// character that do not, and nothing else.
pub proof fn law_a_trim_takes_both_ends(text: Seq<char>, strip: CharClass, p: int, q: int)
    requires
        0 <= p < q <= text.len(),
        forall|i: int| 0 <= i < p ==> strip.takes(#[trigger] text[i]),
        forall|i: int| q <= i < text.len() ==> strip.takes(#[trigger] text[i]),
        !strip.takes(text[p]),
        !strip.takes(text[q - 1]),
    ensures
        trimmed(text, strip) == text.subrange(p, q),
{
    lemma_start_at(text, strip, p);
    let rest = text.skip(p);
    assert forall|i: int| q - p <= i < rest.len() implies strip.takes(#[trigger] rest[i]) by {
        assert(strip.takes(text[i + p]));
    }
    assert(rest[q - p - 1] == text[q - 1]);
    lemma_end_at(rest, strip, q - p);
    assert(rest.take(q - p) =~= text.subrange(p, q));
}

/// Of a text whose characters all belong to the class a trim leaves nothing.
pub proof fn law_a_trim_can_leave_nothing(text: Seq<char>, strip: CharClass)
    requires
        forall|i: int| 0 <= i < text.len() ==> strip.takes(#[trigger] text[i]),
    ensures
        trimmed(text, strip).len() == 0,
    decreases text.len(),
{
    if text.len() > 0 {
        assert(strip.takes(text[0]));
        let rest = text.skip(1);
        assert forall|i: int| 0 <= i < rest.len() implies strip.takes(#[trigger] rest[i]) by {
            assert(strip.takes(text[i + 1]));
        }
        law_a_trim_can_leave_nothing(rest, strip);
    }
}

/// The classes of characters: white space as Unicode has it; backticks and quotation marks;
/// brackets, quotation marks, commas, full stops, colons and semicolons; and white space with
/// commas and semicolons.
pub proof fn law_the_classes_of_characters(c: char)
    ensures
        CharClass::Space.takes(c) <==> (9 <= c as int <= 13 || c as int == 32 || c as int == 0x85
            || c as int == 0xa0 || c as int == 0x1680 || 0x2000 <= c as int <= 0x200a || c as int
            == 0x2028 || c as int == 0x2029 || c as int == 0x202f || c as int == 0x205f || c as int
            == 0x3000),
        CharClass::Quotes.takes(c) <==> (c == '`' || c == '"' || c == '\''),
        CharClass::Punctuation.takes(c) <==> "()[]{},.:;\"'"@.contains(c),
        CharClass::Separators.takes(c) <==> (CharClass::Space.takes(c) || c == ',' || c == ';'),
{
    reveal_strlit("()[]{},.:;\"'");
    let marks = "()[]{},.:;\"'"@;
    assert(marks[0] == '(' && marks[1] == ')' && marks[2] == '[' && marks[3] == ']' && marks[4]
        == '{' && marks[5] == '}' && marks[6] == ',' && marks[7] == '.' && marks[8] == ':'
        && marks[9] == ';' && marks[10] == '"' && marks[11] == '\'');
}

// ---- Parts --------------------------------------------------------------------------------

proof fn lemma_part_found(
    text: Seq<char>,
    class: CharClass,
    start: int,
    i: int,
    end: int,
    a: int,
    b: int,
)
    requires
        0 <= start <= i <= end <= text.len(),
        start <= a <= b <= end,
        i <= b,
        a == start || (i < a && class.takes(text[a - 1])) || (i == a && start == a),
        b == end || class.takes(text[b]),
        forall|j: int| a <= j < b ==> !class.takes(#[trigger] text[j]),
        a == start ==> (forall|j: int| start <= j < i ==> !class.takes(#[trigger] text[j])),
    ensures
        parts_from(text, class, start, i, end).contains((a, b)),
    decreases end - i,
{
    let all = parts_from(text, class, start, i, end);
    if i >= end {
        assert(all[0] == (start, end));
    } else if class.takes(text[i]) {
        let rest = parts_from(text, class, i + 1, i + 1, end);
        if a == start && i == b {
            assert(all[0] == (a, b));
        } else {
            assert(i < a) by {
                if a <= i {
                    assert(!class.takes(text[i]));
                }
            }
            lemma_part_found(text, class, i + 1, i + 1, end, a, b);
            let k = choose|k: int| 0 <= k < rest.len() && rest[k] == (a, b);
            assert(all[k + 1] == (a, b));
        }
    } else {
        assert(i < b);
        assert(i + 1 != a || a == start || class.takes(text[i]));
        lemma_part_found(text, class, start, i + 1, end, a, b);
    }
}

/// Every longest stretch without a character of the class is a part.
pub proof fn law_every_stretch_is_a_part(
    text: Seq<char>,
    class: CharClass,
    from: int,
    end: int,
    a: int,
    b: int,
)
    requires
        0 <= from <= a <= b <= end <= text.len(),
        a == from || class.takes(text[a - 1]),
        b == end || class.takes(text[b]),
        forall|j: int| a <= j < b ==> !class.takes(#[trigger] text[j]),
    ensures
        parts_of(text, class, from, end).contains((a, b)),
{
    lemma_part_found(text, class, from, from, end, a, b);
}

spec fn is_stretch(text: Seq<char>, class: CharClass, from: int, end: int, part: (int, int)) -> bool {
    from <= part.0 <= part.1 <= end && forall|j: int|
        part.0 <= j < part.1 ==> !class.takes(#[trigger] text[j])
}

proof fn lemma_parts_are_stretches(
    text: Seq<char>,
    class: CharClass,
    start: int,
    i: int,
    end: int,
    k: int,
)
    requires
        0 <= start <= i <= end <= text.len(),
        forall|j: int| start <= j < i ==> !class.takes(#[trigger] text[j]),
        0 <= k < parts_from(text, class, start, i, end).len(),
    ensures
        is_stretch(text, class, start, end, parts_from(text, class, start, i, end)[k]),
    decreases end - i,
{
    let all = parts_from(text, class, start, i, end);
    if i < end {
        if class.takes(text[i]) {
            let rest = parts_from(text, class, i + 1, i + 1, end);
            if k > 0 {
                lemma_parts_are_stretches(text, class, i + 1, i + 1, end, k - 1);
                assert(all[k] == rest[k - 1]);
            } else {
                assert(all[0] == (start, i));
            }
        } else {
            lemma_parts_are_stretches(text, class, start, i + 1, end, k);
        }
    }
}

/// No part holds a character of the class, and each lies within the stretch.
pub proof fn law_every_part_is_a_stretch(
    text: Seq<char>,
    class: CharClass,
    from: int,
    end: int,
    k: int,
)
    requires
        0 <= from <= end <= text.len(),
        0 <= k < parts_of(text, class, from, end).len(),
    ensures
        ({
            let part = parts_of(text, class, from, end)[k];
            from <= part.0 <= part.1 <= end && forall|j: int|
                part.0 <= j < part.1 ==> !class.takes(#[trigger] text[j])
        }),
{
    lemma_parts_are_stretches(text, class, from, from, end, k);
}

// ---- Identifiers --------------------------------------------------------------------------

/// Whether a character is one of those that identifiers are made of.
pub open spec fn of_an_identifier(c: char) -> bool {
    ('a' <= c && c <= 'z') || ('A' <= c && c <= 'Z') || ('0' <= c && c <= '9')
        || "-_.:/#"@.contains(c)
}

/// Whether a token is an identifier: two to a hundred and twenty-eight letters and digits of
/// ASCII and hyphens, underscores, full stops, colons, slashes and number signs, with a
/// letter among them.
pub open spec fn names_something(token: Seq<char>) -> bool {
    &&& 2 <= token.len() <= 128
    &&& forall|j: int| 0 <= j < token.len() ==> of_an_identifier(#[trigger] token[j])
    &&& exists|j: int|
        0 <= j < token.len() && (('a' <= #[trigger] token[j] && token[j] <= 'z') || ('A' <= token[j]
            && token[j] <= 'Z'))
}

proof fn lemma_marks(c: char)
    ensures
        "-_.:/#"@.contains(c) <==> (c == '-' || c == '_' || c == '.' || c == ':' || c == '/' || c
            == '#'),
{
    reveal_strlit("-_.:/#");
    let marks = "-_.:/#"@;
    assert(marks[0] == '-' && marks[1] == '_' && marks[2] == '.' && marks[3] == ':' && marks[4]
        == '/' && marks[5] == '#');
}

proof fn lemma_ascii_bytes(text: Seq<char>, n: int)
    requires
        0 <= n <= text.len(),
        forall|i: int| 0 <= i < text.len() ==> (#[trigger] text[i] as int) < 0x80,
    ensures
        offset(text, n) == n,
    decreases n,
{
    if n > 0 {
        lemma_ascii_bytes(text, n - 1);
        lemma_offset_step(text, n - 1);
        assert((text[n - 1] as int) < 0x80);
    } else {
        assert(text.take(0) =~= Seq::empty());
    }
}

proof fn lemma_ascii_len(text: Seq<char>)
    requires
        forall|i: int| 0 <= i < text.len() ==> (#[trigger] text[i] as int) < 0x80,
    ensures
        byte_len(text) == text.len(),
{
    lemma_ascii_bytes(text, text.len() as int);
    assert(text.take(text.len() as int) =~= text);
}

proof fn lemma_whole(text: Seq<char>, class: CharClass)
    requires
        text.len() > 0,
        !class.takes(text[0]),
        !class.takes(text.last()),
    ensures
        trimmed(text, class) == text,
{
    law_a_trim_takes_both_ends(text, class, 0, text.len() as int);
    assert(text.subrange(0, text.len() as int) =~= text);
}

/// A token without white space is an identifier if and only if it is made as identifiers are.
pub proof fn law_identifiers_are_made_of_these_characters(token: Seq<char>)
    requires
        forall|j: int| 0 <= j < token.len() ==> !CharClass::Space.takes(#[trigger] token[j]),
    ensures
        like_identifier(token) <==> names_something(token),
{
    assert forall|c: char| #[trigger] of_an_identifier(c) <==> (('a' <= c && c <= 'z') || ('A' <= c
        && c <= 'Z') || ('0' <= c && c <= '9') || c == '-' || c == '_' || c == '.' || c == ':' || c
        == '/' || c == '#') by {
        lemma_marks(c);
    }
    if token.len() > 0 {
        assert(!CharClass::Space.takes(token[0]));
        assert(!CharClass::Space.takes(token[token.len() - 1]));
        lemma_whole(token, CharClass::Space);
    } else {
        law_a_trim_can_leave_nothing(token, CharClass::Space);
    }
    if names_something(token) {
        assert forall|j: int| 0 <= j < token.len() implies (#[trigger] token[j] as int) < 0x80 by {
            assert(of_an_identifier(token[j]));
        }
        lemma_ascii_len(token);
        assert forall|j: int| 0 <= j < token.len() implies
            crate::search::entities::identifier_char(#[trigger] token[j]) by {
            assert(of_an_identifier(token[j]));
        }
        let j = choose|j: int|
            0 <= j < token.len() && (('a' <= #[trigger] token[j] && token[j] <= 'z') || ('A'
                <= token[j] && token[j] <= 'Z'));
        assert(crate::search::entities::ascii_letter(token[j]));
    }
    if like_identifier(token) {
        assert(trimmed(token, CharClass::Space) =~= token);
        assert forall|j: int| 0 <= j < token.len() implies of_an_identifier(
            #[trigger] token[j],
        ) by {
            assert(crate::search::entities::identifier_char(token[j]));
        }
        assert forall|j: int| 0 <= j < token.len() implies (#[trigger] token[j] as int) < 0x80 by {
            assert(of_an_identifier(token[j]));
        }
        lemma_ascii_len(token);
        let j = choose|j: int|
            0 <= j < token.len() && crate::search::entities::ascii_letter(#[trigger] token[j]);
        assert(('a' <= token[j] && token[j] <= 'z') || ('A' <= token[j] && token[j] <= 'Z'));
    }
}

/// How many backticks stand before the `i`th character.
pub open spec fn ticks(text: Seq<char>, i: int) -> nat
    decreases i,
{
    if i <= 0 {
        0
    } else {
        ticks(text, i - 1) + if text[i - 1] == '`' {
            1nat
        } else {
            0
        }
    }
}

proof fn lemma_no_ticks(text: Seq<char>, i: int, j: int)
    requires
        0 <= i <= j <= text.len(),
        forall|n: int| i <= n < j ==> #[trigger] text[n] != '`',
    ensures
        ticks(text, j) == ticks(text, i),
    decreases j - i,
{
    if i < j {
        lemma_no_ticks(text, i, j - 1);
        assert(text[j - 1] != '`');
    }
}

proof fn lemma_name_kept(text: Seq<char>, parts: Seq<(int, int)>, n: int)
    requires
        0 <= n < parts.len(),
        like_identifier(text.subrange(parts[n].0, parts[n].1)),
    ensures
        seen_names(text, parts).contains(
            (parts[n].0, text.subrange(parts[n].0, parts[n].1)),
        ),
    decreases parts.len(),
{
    let front = parts.drop_last();
    let all = seen_names(text, parts);
    let one = (parts[n].0, text.subrange(parts[n].0, parts[n].1));
    if n < front.len() {
        lemma_name_kept(text, front, n);
        let before = seen_names(text, front);
        let k = choose|k: int| 0 <= k < before.len() && before[k] == one;
        assert(all[k] == one);
    } else {
        assert(all.last() == one);
    }
}

/// Whether the backticks at `s` and `e` are a pair: an even number of them stands before the
/// first, and none between the two.
pub open spec fn paired(text: Seq<char>, s: int, e: int) -> bool {
    &&& 0 <= s < e < text.len()
    &&& text[s] == '`'
    &&& text[e] == '`'
    &&& ticks(text, s) % 2 == 0
    &&& forall|n: int| s < n < e ==> #[trigger] text[n] != '`'
}

/// Whether the characters from `a` up to `b` stand between white space, commas and
/// semicolons or the ends of a stretch, and hold none of them.
pub open spec fn is_token(text: Seq<char>, from: int, end: int, a: int, b: int) -> bool {
    &&& from <= a < b <= end
    &&& a == from || CharClass::Separators.takes(text[a - 1])
    &&& b == end || CharClass::Separators.takes(text[b])
}

proof fn lemma_span_seen(text: Seq<char>, i: int, s: int, e: int, a: int, b: int)
    requires
        paired(text, s, e),
        0 <= i <= s,
        ticks(text, i) % 2 == 0,
        is_token(text, s + 1, e, a, b),
        names_something(text.subrange(a, b)),
    ensures
        seen_spans(text, i).contains((a, text.subrange(a, b))),
    decreases s - i,
{
    let token = text.subrange(a, b);
    let one = (a, token);
    let s0 = find_from(text, '`', i);
    lemma_find_from(text, '`', i);
    assert(s0 <= s) by {
        if s < s0 {
            assert(text[s] != '`');
        }
    }
    let e0 = find_from(text, '`', s0 + 1);
    lemma_find_from(text, '`', s0 + 1);
    let here = seen_names(text, parts_of(text, CharClass::Separators, s0 + 1, e0));
    let all = seen_spans(text, i);
    if s0 == s {
        assert(e0 == e) by {
            if e0 < e {
                assert(text[e0] != '`');
            }
            if e < e0 {
                assert(text[e] != '`');
            }
        }
        assert forall|j: int| a <= j < b implies !CharClass::Separators.takes(
            #[trigger] text[j],
        ) by {
            assert(token[j - a] == text[j]);
            assert(of_an_identifier(token[j - a]));
            lemma_marks(text[j]);
        }
        assert forall|j: int| 0 <= j < token.len() implies !CharClass::Space.takes(
            #[trigger] token[j],
        ) by {
            assert(of_an_identifier(token[j]));
            lemma_marks(token[j]);
        }
        law_identifiers_are_made_of_these_characters(token);
        let parts = parts_of(text, CharClass::Separators, s + 1, e);
        law_every_stretch_is_a_part(text, CharClass::Separators, s + 1, e, a, b);
        let n = choose|n: int| 0 <= n < parts.len() && parts[n] == (a, b);
        lemma_name_kept(text, parts, n);
        let k = choose|k: int| 0 <= k < here.len() && here[k] == one;
        assert(all[k] == one);
    } else {
        lemma_no_ticks(text, i, s0);
        assert(ticks(text, s0 + 1) == ticks(text, s0) + 1);
        assert(e0 <= s) by {
            if s < e0 {
                assert(text[s] != '`');
            }
        }
        lemma_no_ticks(text, s0 + 1, e0);
        assert(e0 != s);
        assert(ticks(text, e0 + 1) == ticks(text, e0) + 1);
        lemma_span_seen(text, e0 + 1, s, e, a, b);
        let rest = seen_spans(text, e0 + 1);
        let k = choose|k: int| 0 <= k < rest.len() && rest[k] == one;
        assert(all[here.len() + k] == one);
    }
}

/// Every identifier between a pair of backticks is declared by the body, at its place.
pub proof fn law_every_quoted_identifier_is_seen(body: Seq<char>, s: int, e: int, a: int, b: int)
    requires
        paired(body, s, e),
        is_token(body, s + 1, e, a, b),
        names_something(body.subrange(a, b)),
    ensures
        sightings(body).contains((a, body.subrange(a, b))),
{
    assert(ticks(body, 0) == 0);
    lemma_span_seen(body, 0, s, e, a, b);
    let one = (a, body.subrange(a, b));
    let spans = seen_spans(body, 0);
    let k = choose|k: int| 0 <= k < spans.len() && spans[k] == one;
    let n: int = seen_links(body, 0).len() + k;
    assert(sightings(body)[n] == one);
}

/// Whether a list names a text, whatever the case it is written in.
pub open spec fn names(list: Seq<Seq<char>>, text: Seq<char>) -> bool {
    exists|i: int| 0 <= i < list.len() && text_lower(#[trigger] list[i]) == text_lower(text)
}

/// What a body declares is among its entities, unless sixty-four others are declared no
/// later.
pub proof fn law_what_is_declared_is_an_entity(body: Seq<char>, place: int, value: Seq<char>)
    requires
        sightings(body).contains((place, value)),
        bare(value).len() > 0,
        byte_len(bare(value)) <= 128,
    ensures
        extraction(body).entities.len() < 64 ==> names(extraction(body).entities, bare(value)),
        !names(extraction(body).entities, bare(value)) ==> extraction(body).entities.len() == 64
            && forall|i: int|
            0 <= i < 64 ==> exists|at: int, other: Seq<char>|
                at <= place && #[trigger] sightings(body).contains((at, other)) && bare(other)
                    == #[trigger] extraction(body).entities[i],
{
    broadcast use vstd::seq_lib::group_to_multiset_ensures;

    law_the_earliest_identifiers_win(body);
    let seen = in_text_order(sightings(body));
    let kept = extraction(body).entities;
    let one = (place, value);
    assert(sightings(body).to_multiset().count(one) > 0);
    assert(seen.contains(one));
    let k = choose|k: int| 0 <= k < seen.len() && seen[k] == one;
    assert(fits(bare(seen[k].1)));
    if !names(kept, bare(value)) {
        assert(kept.len() == 64);
        assert forall|i: int| 0 <= i < 64 implies exists|at: int, other: Seq<char>|
            at <= place && #[trigger] sightings(body).contains((at, other)) && bare(other)
                == #[trigger] kept[i] by {
            let n = crate::search::entities::first_seen(seen, text_lower(kept[i]), 0);
            assert(n < k);
            assert(seen[n].0 <= seen[k].0);
            assert(seen.contains(seen[n]));
            assert(seen.to_multiset().count(seen[n]) > 0);
            assert(sightings(body).contains((seen[n].0, seen[n].1)));
        }
    }
}

/// Every identifier between a pair of backticks is an entity, up to case, unless sixty-four
/// entities are there already.
pub proof fn law_every_quoted_identifier_is_an_entity(
    body: Seq<char>,
    s: int,
    e: int,
    a: int,
    b: int,
)
    requires
        paired(body, s, e),
        is_token(body, s + 1, e, a, b),
        2 <= b - a <= 128,
        forall|j: int|
            a <= j < b ==> ('a' <= #[trigger] body[j] && body[j] <= 'z') || ('A' <= body[j]
                && body[j] <= 'Z') || ('0' <= body[j] && body[j] <= '9') || body[j] == '-'
                || body[j] == '_' || body[j] == '.' || body[j] == ':' || body[j] == '/' || body[j]
                == '#',
        exists|j: int|
            a <= j < b && (('a' <= #[trigger] body[j] && body[j] <= 'z') || ('A' <= body[j]
                && body[j] <= 'Z')),
        extraction(body).entities.len() < 64,
    ensures
        names(extraction(body).entities, body.subrange(a, b)),
{
    let token = body.subrange(a, b);
    assert forall|j: int| 0 <= j < token.len() implies of_an_identifier(#[trigger] token[j]) by {
        assert(token[j] == body[a + j]);
        lemma_marks(token[j]);
    }
    let j = choose|j: int|
        a <= j < b && (('a' <= #[trigger] body[j] && body[j] <= 'z') || ('A' <= body[j] && body[j]
            <= 'Z'));
    assert(token[j - a] == body[j]);
    law_every_quoted_identifier_is_seen(body, s, e, a, b);
    assert(token.last() == token[token.len() - 1]);
    assert(of_an_identifier(token[0]) && of_an_identifier(token[token.len() - 1]));
    lemma_marks(token[0]);
    lemma_marks(token[token.len() - 1]);
    lemma_whole(token, CharClass::Space);
    lemma_whole(token, CharClass::Quotes);
    assert forall|n: int| 0 <= n < token.len() implies (#[trigger] token[n] as int) < 0x80 by {
        assert(of_an_identifier(token[n]));
        lemma_marks(token[n]);
    }
    lemma_ascii_len(token);
    law_what_is_declared_is_an_entity(body, a, token);
}

// ---- Tags ---------------------------------------------------------------------------------

/// Whether a character is one of those that tags are made of.
pub open spec fn of_a_tag(c: char) -> bool {
    ('a' <= c && c <= 'z') || ('A' <= c && c <= 'Z') || ('0' <= c && c <= '9') || c == '-' || c
        == '_' || c == '/'
}

/// Whether the characters behind the number sign at `k`, up to `e`, are a tag: at least two,
/// all of them of a tag, and as many as there are.
pub open spec fn is_tag(text: Seq<char>, k: int, e: int) -> bool {
    &&& 0 <= k
    &&& k + 3 <= e <= text.len()
    &&& text[k] == '#'
    &&& forall|j: int| k < j < e ==> of_a_tag(#[trigger] text[j])
    &&& e == text.len() || !of_a_tag(text[e])
}

proof fn lemma_tag_runs(text: Seq<char>, i: int, e: int)
    requires
        0 <= i <= e <= text.len(),
        forall|j: int| i <= j < e ==> of_a_tag(#[trigger] text[j]),
        e == text.len() || !of_a_tag(text[e]),
    ensures
        tag_end(text, i) == e,
    decreases e - i,
{
    if i < e {
        assert(of_a_tag(text[i]));
        lemma_tag_runs(text, i + 1, e);
    }
}

proof fn lemma_tag_stops(text: Seq<char>, i: int)
    requires
        0 <= i <= text.len(),
    ensures
        i <= tag_end(text, i) <= text.len(),
        forall|j: int| i <= j < tag_end(text, i) ==> of_a_tag(#[trigger] text[j]),
        tag_end(text, i) < text.len() ==> !of_a_tag(text[tag_end(text, i)]),
    decreases text.len() - i,
{
    if i < text.len() && of_a_tag(text[i]) {
        lemma_tag_stops(text, i + 1);
    }
}

proof fn lemma_tag_seen(text: Seq<char>, i: int, k: int, e: int)
    requires
        is_tag(text, k, e),
        k == 0 || text[k - 1] != '#',
        0 <= i <= k,
    ensures
        seen_tags(text, i).contains((k, text.subrange(k + 1, e))),
    decreases k - i,
{
    let one = (k, text.subrange(k + 1, e));
    let at = find_from(text, '#', i);
    lemma_find_from(text, '#', i);
    assert(at <= k) by {
        if k < at {
            assert(text[k] != '#');
        }
    }
    let end = tag_end(text, at + 1);
    lemma_tag_stops(text, at + 1);
    let all = seen_tags(text, i);
    if at == k {
        lemma_tag_runs(text, k + 1, e);
        assert(all[0] == one);
    } else {
        assert(end <= k) by {
            if k < end {
                assert(of_a_tag(text[k]));
            }
        }
        let next = crate::search::entities::behind_tag(text, at);
        lemma_tag_seen(text, next, k, e);
        let rest = seen_tags(text, next);
        let n = choose|n: int| 0 <= n < rest.len() && rest[n] == one;
        assert(all[all.len() - rest.len() + n] == one);
    }
}

/// Every tag of a body is declared by it, unless another number sign stands before it.
pub proof fn law_every_tag_is_seen(body: Seq<char>, k: int, e: int)
    requires
        is_tag(body, k, e),
        k == 0 || body[k - 1] != '#',
    ensures
        sightings(body).contains((k, body.subrange(k + 1, e))),
{
    lemma_tag_seen(body, 0, k, e);
    let one = (k, body.subrange(k + 1, e));
    let tags = seen_tags(body, 0);
    let n = choose|n: int| 0 <= n < tags.len() && tags[n] == one;
    let all = sightings(body);
    assert(all[all.len() - tags.len() + n] == one);
}

/// Nothing else is declared as a tag.
pub proof fn law_only_tags_are_seen_as_tags(text: Seq<char>, i: int, n: int)
    requires
        0 <= i <= text.len(),
        0 <= n < seen_tags(text, i).len(),
    ensures
        ({
            let one = seen_tags(text, i)[n];
            i <= one.0 && is_tag(text, one.0, one.0 + 1 + one.1.len()) && one.1 == text.subrange(
                one.0 + 1,
                one.0 + 1 + one.1.len(),
            )
        }),
    decreases text.len() - i,
{
    let at = find_from(text, '#', i);
    lemma_find_from(text, '#', i);
    if at + 1 < text.len() {
        let e = tag_end(text, at + 1);
        lemma_tag_stops(text, at + 1);
        let next = crate::search::entities::behind_tag(text, at);
        let rest = seen_tags(text, next);
        let all = seen_tags(text, i);
        let k: int = n - (all.len() - rest.len());
        if 0 <= k {
            law_only_tags_are_seen_as_tags(text, next, k);
            assert(all[n] == rest[k]);
        }
    }
}

// ---- Paths --------------------------------------------------------------------------------

/// Whether a text ends with the ending of a file that is known by it.
pub open spec fn ends_as_a_file(text: Seq<char>) -> bool {
    exists|name: Seq<char>|
        text == #[trigger] (name + ".rs"@) || text == name + ".md"@ || text == name + ".toml"@
            || text == name + ".json"@ || text == name + ".yaml"@ || text == name + ".yml"@ || text
            == name + ".py"@ || text == name + ".ts"@ || text == name + ".tsx"@ || text == name
            + ".go"@ || text == name + ".sql"@ || text == name + ".sh"@
}

/// Whether a word is a path: it has a slash and four bytes, or the ending of a known file.
pub open spec fn is_a_path(word: Seq<char>) -> bool {
    (word.contains('/') && byte_len(word) >= 4) || ends_as_a_file(word)
}

proof fn lemma_ending(text: Seq<char>, suffix: Seq<char>)
    ensures
        crate::text::has_suffix(text, suffix) <==> exists|name: Seq<char>|
            text == #[trigger] (name + suffix),
{
    if crate::text::has_suffix(text, suffix) {
        let name = text.take(text.len() - suffix.len());
        assert(text =~= name + suffix);
    }
    if exists|name: Seq<char>| text == #[trigger] (name + suffix) {
        let name = choose|name: Seq<char>| text == #[trigger] (name + suffix);
        assert(text.skip(text.len() - suffix.len()) =~= suffix);
    }
}

/// A word is taken for a path if and only if it is one.
pub proof fn law_paths_have_a_slash_or_a_known_ending(word: Seq<char>)
    ensures
        like_path(word) <==> is_a_path(word),
{
    lemma_ending(word, ".rs"@);
    lemma_ending(word, ".md"@);
    lemma_ending(word, ".toml"@);
    lemma_ending(word, ".json"@);
    lemma_ending(word, ".yaml"@);
    lemma_ending(word, ".yml"@);
    lemma_ending(word, ".py"@);
    lemma_ending(word, ".ts"@);
    lemma_ending(word, ".tsx"@);
    lemma_ending(word, ".go"@);
    lemma_ending(word, ".sql"@);
    lemma_ending(word, ".sh"@);
    let known = crate::search::entities::known_file(word);
    reveal_strlit(".rs");
    reveal_strlit(".md");
    reveal_strlit(".toml");
    reveal_strlit(".json");
    reveal_strlit(".yaml");
    reveal_strlit(".yml");
    reveal_strlit(".py");
    reveal_strlit(".ts");
    reveal_strlit(".tsx");
    reveal_strlit(".go");
    reveal_strlit(".sql");
    reveal_strlit(".sh");
    if known {
        if crate::text::has_suffix(word, ".rs"@) {
            lemma_dot(word, ".rs"@);
        } else if crate::text::has_suffix(word, ".md"@) {
            lemma_dot(word, ".md"@);
        } else if crate::text::has_suffix(word, ".toml"@) {
            lemma_dot(word, ".toml"@);
        } else if crate::text::has_suffix(word, ".json"@) {
            lemma_dot(word, ".json"@);
        } else if crate::text::has_suffix(word, ".yaml"@) {
            lemma_dot(word, ".yaml"@);
        } else if crate::text::has_suffix(word, ".yml"@) {
            lemma_dot(word, ".yml"@);
        } else if crate::text::has_suffix(word, ".py"@) {
            lemma_dot(word, ".py"@);
        } else if crate::text::has_suffix(word, ".ts"@) {
            lemma_dot(word, ".ts"@);
        } else if crate::text::has_suffix(word, ".tsx"@) {
            lemma_dot(word, ".tsx"@);
        } else if crate::text::has_suffix(word, ".go"@) {
            lemma_dot(word, ".go"@);
        } else if crate::text::has_suffix(word, ".sql"@) {
            lemma_dot(word, ".sql"@);
        } else {
            lemma_dot(word, ".sh"@);
        }
    }
    if ends_as_a_file(word) {
        let name = choose|name: Seq<char>|
            word == #[trigger] (name + ".rs"@) || word == name + ".md"@ || word == name + ".toml"@
                || word == name + ".json"@ || word == name + ".yaml"@ || word == name + ".yml"@
                || word == name + ".py"@ || word == name + ".ts"@ || word == name + ".tsx"@ || word
                == name + ".go"@ || word == name + ".sql"@ || word == name + ".sh"@;
        assert(known);
    }
}

proof fn lemma_dot(word: Seq<char>, suffix: Seq<char>)
    requires
        crate::text::has_suffix(word, suffix),
        suffix.len() > 0,
        suffix[0] == '.',
        suffix == ".rs"@ || suffix == ".md"@ || suffix == ".toml"@ || suffix == ".json"@ || suffix
            == ".yaml"@ || suffix == ".yml"@ || suffix == ".py"@ || suffix == ".ts"@ || suffix
            == ".tsx"@ || suffix == ".go"@ || suffix == ".sql"@ || suffix == ".sh"@,
    ensures
        word.contains('.'),
        ends_as_a_file(word),
{
    let n: int = word.len() - suffix.len();
    assert(word.skip(n)[0] == word[n]);
    let name = word.take(n);
    assert(word =~= name + suffix);
    assert(ends_as_a_file(word)) by {
        let other = name + ".rs"@;
    }
}

proof fn lemma_path_kept(text: Seq<char>, words: Seq<(int, int)>, n: int, p: int, q: int)
    requires
        0 <= n < words.len(),
        0 <= words[n].0 <= p < q <= words[n].1 <= text.len(),
        forall|j: int|
            words[n].0 <= j < p || q <= j < words[n].1 ==> CharClass::Punctuation.takes(
                #[trigger] text[j],
            ),
        !CharClass::Punctuation.takes(text[p]),
        !CharClass::Punctuation.takes(text[q - 1]),
        like_path(text.subrange(p, q)),
    ensures
        seen_paths(text, words).contains((p, text.subrange(p, q))),
    decreases words.len(),
{
    let front = words.drop_last();
    let all = seen_paths(text, words);
    let one = (p, text.subrange(p, q));
    if n < front.len() {
        lemma_path_kept(text, front, n, p, q);
        let before = seen_paths(text, front);
        let k = choose|k: int| 0 <= k < before.len() && before[k] == one;
        assert(all[k] == one);
    } else {
        let from = words[n].0;
        let whole = text.subrange(from, words[n].1);
        assert forall|i: int| 0 <= i < p - from implies CharClass::Punctuation.takes(
            #[trigger] whole[i],
        ) by {
            assert(CharClass::Punctuation.takes(text[from + i]));
        }
        assert forall|i: int| q - from <= i < whole.len() implies CharClass::Punctuation.takes(
            #[trigger] whole[i],
        ) by {
            assert(CharClass::Punctuation.takes(text[from + i]));
        }
        assert(whole[p - from] == text[p] && whole[q - from - 1] == text[q - 1]);
        law_a_trim_takes_both_ends(whole, CharClass::Punctuation, p - from, q - from);
        lemma_start_at(whole, CharClass::Punctuation, p - from);
        assert(whole.subrange(p - from, q - from) =~= text.subrange(p, q));
        assert(all.last() == one);
    }
}

/// Whether the characters from `p` up to `q` are a word without the punctuation around it:
/// white space or the end of the text stands before and behind the punctuation.
pub open spec fn is_core(text: Seq<char>, a: int, p: int, q: int, b: int) -> bool {
    &&& 0 <= a <= p < q <= b <= text.len()
    &&& a == 0 || CharClass::Space.takes(text[a - 1])
    &&& b == text.len() || CharClass::Space.takes(text[b])
    &&& forall|j: int| a <= j < b ==> !CharClass::Space.takes(#[trigger] text[j])
    &&& forall|j: int| a <= j < p || q <= j < b ==> "()[]{},.:;\"'"@.contains(#[trigger] text[j])
    &&& !"()[]{},.:;\"'"@.contains(text[p])
    &&& !"()[]{},.:;\"'"@.contains(text[q - 1])
}

/// Every word of a body that is a path is declared by it, without the punctuation around it.
pub proof fn law_every_path_is_seen(body: Seq<char>, a: int, p: int, q: int, b: int)
    requires
        is_core(body, a, p, q, b),
        is_a_path(body.subrange(p, q)),
    ensures
        sightings(body).contains((p, body.subrange(p, q))),
{
    let n: int = body.len() as int;
    let words = parts_of(body, CharClass::Space, 0, n);
    law_every_stretch_is_a_part(body, CharClass::Space, 0, n, a, b);
    let k = choose|k: int| 0 <= k < words.len() && words[k] == (a, b);
    assert forall|j: int| a <= j < p || q <= j < b implies CharClass::Punctuation.takes(
        #[trigger] body[j],
    ) by {
        law_the_classes_of_characters(body[j]);
    }
    law_the_classes_of_characters(body[p]);
    law_the_classes_of_characters(body[q - 1]);
    law_paths_have_a_slash_or_a_known_ending(body.subrange(p, q));
    lemma_path_kept(body, words, k, p, q);
    let one = (p, body.subrange(p, q));
    let paths = seen_paths(body, words);
    let m = choose|m: int| 0 <= m < paths.len() && paths[m] == one;
    let all = sightings(body);
    let at: int = seen_links(body, 0).len() + seen_spans(body, 0).len() + m;
    assert(all[at] == one);
}

// ---- Links --------------------------------------------------------------------------------

/// What follows the last slash is the leaf, and without a slash it is all.
pub proof fn law_the_leaf_follows_the_last_slash(before: Seq<char>, name: Seq<char>)
    requires
        !name.contains('/'),
    ensures
        leaf(name) == name,
        leaf(before + "/"@ + name) == name,
    decreases before.len(),
{
    reveal_strlit("/");
    lemma_find_from(name, '/', 0);
    let at = find_from(name, '/', 0);
    if at < name.len() {
        assert(name[at] == '/');
    }
    let whole = before + "/"@ + name;
    let first = find_from(whole, '/', 0);
    lemma_find_from(whole, '/', 0);
    assert(whole[before.len() as int] == '/');
    assert(first <= before.len());
    let behind = whole.skip(first + 1);
    assert(leaf(whole) == leaf(behind));
    if first < before.len() {
        let rest = before.skip(first + 1);
        assert(behind =~= rest + "/"@ + name);
        law_the_leaf_follows_the_last_slash(rest, name);
    } else {
        assert(behind =~= name);
        assert(leaf(name) == name);
    }
}

/// The ending `.md` is taken off, and of a name without it nothing is.
pub proof fn law_the_md_ending_is_taken_off(name: Seq<char>)
    ensures
        without_md(name + ".md"@) == without_md(name),
        (forall|rest: Seq<char>| name != #[trigger] (rest + ".md"@)) ==> without_md(name) == name,
{
    lemma_ending(name, ".md"@);
    let whole = name + ".md"@;
    reveal_strlit(".md");
    assert(whole.skip(whole.len() - 3) =~= ".md"@);
    assert(whole.take(whole.len() - 3) =~= name);
}

/// The target of a link is what stands before the first bar, without the white space around
/// it.
pub proof fn law_the_target_stands_before_the_bar(
    left: Seq<char>,
    target: Seq<char>,
    right: Seq<char>,
    label: Seq<char>,
)
    requires
        forall|i: int| 0 <= i < left.len() ==> CharClass::Space.takes(#[trigger] left[i]),
        forall|i: int| 0 <= i < right.len() ==> CharClass::Space.takes(#[trigger] right[i]),
        target.len() > 0,
        !CharClass::Space.takes(target[0]),
        !CharClass::Space.takes(target.last()),
        !target.contains('|'),
    ensures
        link_target(left + target + right) == target,
        link_target(left + target + right + "|"@ + label) == target,
{
    reveal_strlit("|");
    let inner = left + target + right;
    let p: int = left.len() as int;
    let q: int = p + target.len();
    assert forall|i: int| 0 <= i < inner.len() implies #[trigger] inner[i] != '|' by {
        if i < p {
            assert(CharClass::Space.takes(left[i]));
        } else if i < q {
            assert(target.contains(target[i - p]));
        } else {
            assert(CharClass::Space.takes(right[i - q]));
        }
    }
    lemma_find_from(inner, '|', 0);
    assert(find_from(inner, '|', 0) == inner.len());
    assert(inner.take(inner.len() as int) =~= inner);
    assert(inner[p] == target[0] && inner[q - 1] == target.last());
    assert forall|i: int| q <= i < inner.len() implies CharClass::Space.takes(
        #[trigger] inner[i],
    ) by {
        assert(CharClass::Space.takes(right[i - q]));
    }
    law_a_trim_takes_both_ends(inner, CharClass::Space, p, q);
    assert(inner.subrange(p, q) =~= target);
    let whole = inner + "|"@ + label;
    lemma_find_from(whole, '|', 0);
    let at = find_from(whole, '|', 0);
    assert(whole[inner.len() as int] == '|');
    assert(at == inner.len()) by {
        if at < inner.len() {
            assert(inner[at] != '|');
        }
    }
    assert(whole.take(at) =~= inner);
}

/// A link is found where it opens, up to the next place where it closes: with a target that
/// is not empty it is listed, and what follows the last slash of the target is declared
/// without its `.md`; the search goes on behind the link.
pub proof fn law_every_link_is_found(text: Seq<char>, i: int, s: int, e: int)
    requires
        0 <= i <= s,
        s + 2 <= e,
        stands_at(text, "[["@, s),
        stands_at(text, "]]"@, e),
        forall|j: int| i <= j < s ==> !#[trigger] stands_at(text, "[["@, j),
        forall|j: int| s + 2 <= j < e ==> !#[trigger] stands_at(text, "]]"@, j),
    ensures
        ({
            let target = link_target(text.subrange(s + 2, e));
            &&& target.len() > 0 ==> link_targets(text, i) == seq![target] + link_targets(
                text,
                e + 2,
            )
            &&& target.len() == 0 ==> link_targets(text, i) == link_targets(text, e + 2)
            &&& target.len() > 0 ==> seen_links(text, i) == seq![
                (s, without_md(leaf(target))),
            ] + seen_links(text, e + 2)
            &&& target.len() == 0 ==> seen_links(text, i) == seen_links(text, e + 2)
        }),
{
    reveal_strlit("[[");
    reveal_strlit("]]");
    lemma_part_from(text, "[["@, i);
    lemma_part_from(text, "]]"@, s + 2);
    assert(part_from(text, "[["@, i) == Some(s));
    assert(part_from(text, "]]"@, s + 2) == Some(e));
    assert(link_targets(text, i) =~= (if link_target(text.subrange(s + 2, e)).len() == 0 {
        Seq::empty()
    } else {
        seq![link_target(text.subrange(s + 2, e))]
    }) + link_targets(text, e + 2));
    assert(Seq::<Seq<char>>::empty() + link_targets(text, e + 2) =~= link_targets(text, e + 2));
    assert(Seq::<(int, Seq<char>)>::empty() + seen_links(text, e + 2) =~= seen_links(
        text,
        e + 2,
    ));
}

/// A text without the opening of a link has none.
pub proof fn law_without_an_opening_there_is_no_link(text: Seq<char>, i: int)
    requires
        0 <= i <= text.len(),
        forall|j: int| i <= j ==> !#[trigger] stands_at(text, "[["@, j),
    ensures
        link_targets(text, i).len() == 0,
        seen_links(text, i).len() == 0,
{
    lemma_part_from(text, "[["@, i);
}

// ---- What is kept -------------------------------------------------------------------------

/// Of the targets of the links every one that fits is listed, up to case, unless sixty-four
/// are listed already.
pub proof fn law_every_target_is_listed(body: Seq<char>, k: int)
    requires
        0 <= k < link_targets(body, 0).len(),
        bare(link_targets(body, 0)[k]).len() > 0,
        byte_len(bare(link_targets(body, 0)[k])) <= 128,
        extraction(body).links.len() < 64,
    ensures
        names(extraction(body).links, bare(link_targets(body, 0)[k])),
{
    let values = link_targets(body, 0);
    let fit = fit_ones(values);
    lemma_fit_kept(values, k);
    let n = choose|n: int| 0 <= n < fit.len() && fit[n] == bare(values[k]);
    lemma_distinct_names(fit, n);
}

proof fn lemma_fit_kept(values: Seq<Seq<char>>, k: int)
    requires
        0 <= k < values.len(),
        fits(bare(values[k])),
    ensures
        fit_ones(values).contains(bare(values[k])),
    decreases values.len(),
{
    let front = values.drop_last();
    let all = fit_ones(values);
    if k < front.len() {
        lemma_fit_kept(front, k);
        let before = fit_ones(front);
        let n = choose|n: int| 0 <= n < before.len() && before[n] == bare(values[k]);
        assert(all[n] == bare(values[k]));
    } else {
        assert(all.last() == bare(values[k]));
    }
}

proof fn lemma_distinct_names(fit: Seq<Seq<char>>, n: int)
    requires
        0 <= n < fit.len(),
    ensures
        names(
            crate::search::entities::distinct(fit, crate::search::entities::lowered(fit)),
            fit[n],
        ),
    decreases fit.len(),
{
    let front = fit.drop_last();
    let forms = crate::search::entities::lowered(fit);
    let all = crate::search::entities::distinct(fit, forms);
    assert(forms.drop_last() =~= crate::search::entities::lowered(front));
    let before = crate::search::entities::distinct(front, forms.drop_last());
    let m = if n < front.len() {
        n
    } else if forms.drop_last().contains(forms.last()) {
        choose|m: int| 0 <= m < front.len() && forms.drop_last()[m] == forms.last()
    } else {
        n
    };
    if m < front.len() {
        lemma_distinct_names(front, m);
        assert(text_lower(front[m]) == text_lower(fit[n]));
        let i = choose|i: int|
            0 <= i < before.len() && text_lower(#[trigger] before[i]) == text_lower(front[m]);
        assert(text_lower(all[i]) == text_lower(fit[n]));
    } else {
        assert(all.last() == fit[n]);
        assert(text_lower(all[all.len() - 1]) == text_lower(fit[n]));
    }
}

} // verus!
