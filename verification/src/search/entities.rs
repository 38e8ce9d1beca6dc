//! Entity and link extraction from page bodies.
//!
//! A page that declares an identifier (a wiki link, a backticked name, a file path, a
//! tag) is a stronger answer for it than a page that merely mentions it. Extraction is
//! lexical: the same body always yields the same fields. What stands earlier in the body
//! comes first, and is kept where there is too much.

use vstd::prelude::*;

use crate::ordered::OrderedMap;
use crate::sort::{sort, stable_sorted, Ranked};
use crate::text::{
    chars_of, contains_char, ends_with, find_char, find_from, find_part, has_suffix,
    lemma_find_from, lemma_find_from_skip, lemma_part_from, lemma_texts_push, part_from,
    strip_suffix, text_of, texts, without_suffix,
};
use crate::trim::{
    parts_of, parts_view, split_parts, trim, trim_span, trimmed, without_start, CharClass,
};
use crate::unicode::{byte_len, byte_len_of, text_lower, text_lower_of};

verus! {

/// Most entities that are kept for a page, and most links.
pub const MAX_ENTITIES: usize = 64;

/// Longest identifier, in bytes.
pub const MAX_IDENTIFIER_BYTES: usize = 128;

/// What a page body declares.
#[derive(Debug)]
pub struct Extraction {
    /// Identifiers that the page declares, in the order first seen, without repeats.
    pub entities: Vec<String>,
    /// Link targets that the page points at.
    pub links: Vec<String>,
}

/// What an `Extraction` says.
pub struct ExtractionView {
    pub entities: Seq<Seq<char>>,
    pub links: Seq<Seq<char>>,
}

impl View for Extraction {
    type V = ExtractionView;

    open spec fn view(&self) -> ExtractionView {
        ExtractionView { entities: texts(self.entities@), links: texts(self.links@) }
    }
}

// ---- What was seen, and where ---------------------------------------------------------------

/// An identifier that a body declares, and where.
#[derive(Debug)]
pub struct Sighting {
    /// Place of its declaration, in characters.
    pub at: usize,
    /// The identifier.
    pub value: String,
}

/// What a list of sightings says.
pub open spec fn seen_view(list: Seq<Sighting>) -> Seq<(int, Seq<char>)> {
    Seq::new(list.len(), |i: int| (list[i].at as int, list[i].value@))
}

impl Ranked for Sighting {
    open spec fn precedes(self, other: Self) -> bool {
        self.at < other.at
    }

    fn ranks_before(&self, other: &Self) -> (before: bool) {
        self.at < other.at
    }

    proof fn precedes_is_asymmetric(a: Self, b: Self) {
    }

    proof fn precedes_has_no_gaps(a: Self, b: Self, c: Self) {
    }
}

/// Adds a sighting.
fn note(list: &mut Vec<Sighting>, at: usize, value: String)
    ensures
        seen_view(final(list)@) == seen_view(old(list)@).push((at as int, value@)),
{
    let ghost before = seen_view(list@);
    list.push(Sighting { at, value });
    assert(seen_view(list@) =~= before.push((at as int, value@)));
}

/// A sighting put into a list that is in the order of the text, behind what stands
/// earlier and before what does not.
pub open spec fn put_seen(one: (int, Seq<char>), list: Seq<(int, Seq<char>)>) -> Seq<
    (int, Seq<char>),
>
    decreases list.len(),
{
    if list.len() > 0 && list[0].0 < one.0 {
        seq![list[0]] + put_seen(one, list.skip(1))
    } else {
        seq![one] + list
    }
}

/// Sightings in the order of the text, those of one place as they came.
pub open spec fn in_text_order(list: Seq<(int, Seq<char>)>) -> Seq<(int, Seq<char>)>
    decreases list.len(),
{
    if list.len() == 0 {
        Seq::empty()
    } else {
        put_seen(list[0], in_text_order(list.skip(1)))
    }
}

proof fn lemma_put_seen(one: Sighting, list: Seq<Sighting>)
    ensures
        seen_view(crate::sort::placed(one, list)) == put_seen(
            (one.at as int, one.value@),
            seen_view(list),
        ),
    decreases list.len(),
{
    let view = (one.at as int, one.value@);
    if list.len() > 0 && list[0].precedes(one) {
        lemma_put_seen(one, list.skip(1));
        assert(seen_view(list).skip(1) =~= seen_view(list.skip(1)));
        assert(seen_view(seq![list[0]] + crate::sort::placed(one, list.skip(1))) =~= seq![
            seen_view(list)[0],
        ] + seen_view(crate::sort::placed(one, list.skip(1))));
    } else {
        assert(seen_view(seq![one] + list) =~= seq![view] + seen_view(list));
    }
}

proof fn lemma_in_text_order(list: Seq<Sighting>)
    ensures
        seen_view(stable_sorted(list)) == in_text_order(seen_view(list)),
    decreases list.len(),
{
    if list.len() > 0 {
        lemma_in_text_order(list.skip(1));
        lemma_put_seen(list[0], stable_sorted(list.skip(1)));
        assert(seen_view(list).skip(1) =~= seen_view(list.skip(1)));
    } else {
        assert(seen_view(stable_sorted(list)) =~= in_text_order(seen_view(list)));
    }
}

/// The values of sightings.
pub open spec fn values_of(list: Seq<(int, Seq<char>)>) -> Seq<Seq<char>> {
    Seq::new(list.len(), |i: int| list[i].1)
}

// ---- Lists without repeats -----------------------------------------------------------------

/// A value without white space and quotation marks around it.
pub open spec fn bare(value: Seq<char>) -> Seq<char> {
    trimmed(trimmed(value, CharClass::Space), CharClass::Quotes)
}

/// Whether a bare value is neither empty nor too long.
pub open spec fn fits(value: Seq<char>) -> bool {
    0 < value.len() && byte_len(value) <= MAX_IDENTIFIER_BYTES
}

/// Those values that are neither empty nor too long, bare.
pub open spec fn fit_ones(values: Seq<Seq<char>>) -> Seq<Seq<char>>
    decreases values.len(),
{
    if values.len() == 0 {
        Seq::empty()
    } else {
        let before = fit_ones(values.drop_last());
        if fits(bare(values.last())) {
            before.push(bare(values.last()))
        } else {
            before
        }
    }
}

/// Those values whose form no earlier value has.
pub open spec fn distinct(values: Seq<Seq<char>>, forms: Seq<Seq<char>>) -> Seq<Seq<char>>
    decreases values.len(),
{
    if values.len() == 0 {
        Seq::empty()
    } else {
        let before = distinct(values.drop_last(), forms.drop_last());
        if forms.drop_last().contains(forms.last()) {
            before
        } else {
            before.push(values.last())
        }
    }
}

/// The lower-case forms of values.
pub open spec fn lowered(values: Seq<Seq<char>>) -> Seq<Seq<char>> {
    Seq::new(values.len(), |i: int| text_lower(values[i]))
}

/// At most the first of those values that fit, each once whatever the case it is written
/// in.
pub open spec fn kept_values(values: Seq<Seq<char>>) -> Seq<Seq<char>> {
    let fit = fit_ones(values);
    first_ones(distinct(fit, lowered(fit)))
}

/// At most the first `MAX_ENTITIES` of a list.
pub open spec fn first_ones(list: Seq<Seq<char>>) -> Seq<Seq<char>> {
    if list.len() > MAX_ENTITIES {
        list.take(MAX_ENTITIES as int)
    } else {
        list
    }
}

/// Those values that are neither empty nor too long, bare.
fn fit_values(values: &Vec<String>) -> (fit: Vec<String>)
    ensures
        texts(fit@) == fit_ones(texts(values@)),
{
    let ghost all = texts(values@);
    let mut fit: Vec<String> = Vec::new();
    let mut i: usize = 0;
    assert(all.take(0) =~= Seq::empty());
    assert(texts(fit@) =~= Seq::empty());
    while i < values.len()
        invariant
            all == texts(values@),
            i <= values@.len(),
            texts(fit@) == fit_ones(all.take(i as int)),
        decreases values@.len() - i,
    {
        assert(all.take(i + 1).drop_last() =~= all.take(i as int));
        let unspaced: String = trim(values[i].as_str(), CharClass::Space);
        let value: String = trim(unspaced.as_str(), CharClass::Quotes);
        if !value.as_str().is_empty() && byte_len_of(value.as_str()) <= MAX_IDENTIFIER_BYTES {
            proof {
                lemma_texts_push(fit@, value);
            }
            fit.push(value);
        }
        i += 1;
    }
    assert(all.take(i as int) =~= all);
    fit
}

/// Those values whose form no earlier value has.
pub fn keep_distinct(values: &Vec<String>, forms: &Vec<String>) -> (kept: Vec<String>)
    requires
        values@.len() == forms@.len(),
    ensures
        texts(kept@) == distinct(texts(values@), texts(forms@)),
{
    let ghost all = texts(values@);
    let ghost keys = texts(forms@);
    let mut kept: Vec<String> = Vec::new();
    let mut seen: OrderedMap<()> = OrderedMap::new();
    let mut i: usize = 0;
    assert(all.take(0) =~= Seq::empty());
    assert(texts(kept@) =~= Seq::empty());
    while i < values.len()
        invariant
            all == texts(values@),
            keys == texts(forms@),
            values@.len() == forms@.len(),
            i <= values@.len(),
            seen.wf(),
            forall|k: Seq<char>| #[trigger]
                seen@.dom().contains(k) <==> keys.take(i as int).contains(k),
            texts(kept@) == distinct(all.take(i as int), keys.take(i as int)),
        decreases values@.len() - i,
    {
        let ghost before = keys.take(i as int);
        let ghost now = keys.take(i + 1);
        proof {
            assert(all.take(i + 1).drop_last() =~= all.take(i as int));
            assert(now.drop_last() =~= before);
            assert(now =~= before.push(forms@[i as int]@));
        }
        if !seen.contains(forms[i].as_str()) {
            let value: String = values[i].clone();
            proof {
                lemma_texts_push(kept@, value);
            }
            kept.push(value);
        }
        seen.insert(forms[i].clone(), ());
        proof {
            assert forall|k: Seq<char>| #[trigger]
                seen@.dom().contains(k) <==> now.contains(k) by {
                if before.contains(k) {
                    let j = choose|j: int| 0 <= j < before.len() && before[j] == k;
                    assert(now[j] == k);
                }
                assert(now[i as int] == forms@[i as int]@);
                if now.contains(k) {
                    let j = choose|j: int| 0 <= j < now.len() && now[j] == k;
                    if j < i {
                        assert(before[j] == k);
                    }
                }
            }
        }
        i += 1;
    }
    proof {
        assert(all.take(i as int) =~= all);
        assert(keys.take(i as int) =~= keys);
    }
    kept
}

/// The lower-case forms of values.
fn lower_forms(values: &Vec<String>) -> (forms: Vec<String>)
    ensures
        texts(forms@) == lowered(texts(values@)),
{
    let mut forms: Vec<String> = Vec::new();
    let mut i: usize = 0;
    while i < values.len()
        invariant
            i <= values@.len(),
            texts(forms@) =~= lowered(texts(values@)).take(i as int),
        decreases values@.len() - i,
    {
        let form: String = text_lower_of(values[i].as_str());
        proof {
            lemma_texts_push(forms@, form);
        }
        forms.push(form);
        i += 1;
    }
    assert(texts(forms@) =~= lowered(texts(values@)));
    forms
}

/// At most the first `MAX_ENTITIES` of a list.
fn keep_first(list: Vec<String>) -> (kept: Vec<String>)
    ensures
        texts(kept@) == first_ones(texts(list@)),
{
    let mut kept: Vec<String> = list;
    if kept.len() > MAX_ENTITIES {
        kept.truncate(MAX_ENTITIES);
        assert(texts(kept@) =~= texts(list@).take(MAX_ENTITIES as int));
    }
    kept
}

/// At most the first of those values that fit, each once whatever the case it is written
/// in.
fn keep_values(values: &Vec<String>) -> (kept: Vec<String>)
    ensures
        texts(kept@) == kept_values(texts(values@)),
{
    let fit: Vec<String> = fit_values(values);
    let forms: Vec<String> = lower_forms(&fit);
    proof {
        assert(texts(fit@).len() == fit@.len());
        assert(texts(forms@).len() == forms@.len());
    }
    keep_first(keep_distinct(&fit, &forms))
}

// ---- Wiki links ----------------------------------------------------------------------------

/// What follows the last slash.
pub open spec fn leaf(text: Seq<char>) -> Seq<char>
    decreases text.len(),
{
    let at = find_from(text, '/', 0);
    if 0 <= at < text.len() {
        leaf(text.skip(at + 1))
    } else {
        text
    }
}

/// A text without the `.md` at its end, however often that is repeated.
pub open spec fn without_md(text: Seq<char>) -> Seq<char>
    decreases text.len(),
{
    proof {
        reveal_strlit(".md");
    }
    match without_suffix(text, ".md"@) {
        Some(rest) => without_md(rest),
        None => text,
    }
}

/// The target of a link: what stands before the first bar, without white space.
pub open spec fn link_target(inner: Seq<char>) -> Seq<char> {
    trimmed(inner.take(find_from(inner, '|', 0)), CharClass::Space)
}

/// The targets of the links from the `i`th character on.
pub open spec fn link_targets(text: Seq<char>, i: int) -> Seq<Seq<char>>
    decreases text.len() - i,
    when 0 <= i <= text.len()
{
    match part_from(text, "[["@, i) {
        Some(s) => match part_from(text, "]]"@, s + 2) {
            Some(e) => {
                proof {
                    reveal_strlit("[[");
                    reveal_strlit("]]");
                    lemma_part_from(text, "[["@, i);
                    lemma_part_from(text, "]]"@, s + 2);
                }
                let target = link_target(text.subrange(s + 2, e));
                let here = if target.len() == 0 {
                    Seq::empty()
                } else {
                    seq![target]
                };
                here + link_targets(text, e + 2)
            },
            None => Seq::empty(),
        },
        None => Seq::empty(),
    }
}

/// What the links from the `i`th character on are about: the last part of the path of
/// each target, where the link opens.
pub open spec fn seen_links(text: Seq<char>, i: int) -> Seq<(int, Seq<char>)>
    decreases text.len() - i,
    when 0 <= i <= text.len()
{
    match part_from(text, "[["@, i) {
        Some(s) => match part_from(text, "]]"@, s + 2) {
            Some(e) => {
                proof {
                    reveal_strlit("[[");
                    reveal_strlit("]]");
                    lemma_part_from(text, "[["@, i);
                    lemma_part_from(text, "]]"@, s + 2);
                }
                let target = link_target(text.subrange(s + 2, e));
                let here = if target.len() == 0 {
                    Seq::empty()
                } else {
                    seq![(s, without_md(leaf(target)))]
                };
                here + seen_links(text, e + 2)
            },
            None => Seq::empty(),
        },
        None => Seq::empty(),
    }
}

/// What follows the last slash.
fn leaf_of(text: &str) -> (last: String)
    ensures
        last@ == leaf(text@),
{
    let chars: Vec<char> = chars_of(text);
    let mut start: usize = 0;
    assert(text@.skip(0) =~= text@);
    loop
        invariant
            chars@ == text@,
            start <= chars@.len(),
            leaf(text@.skip(start as int)) == leaf(text@),
        decreases chars@.len() + 1 - start,
    {
        let at: usize = find_char(&chars, '/', start);
        let ghost rest = text@.skip(start as int);
        proof {
            lemma_find_from_skip(text@, '/', start as int, 0);
        }
        if at == chars.len() {
            let last: String = text_of(&chars, start, at);
            assert(last@ =~= rest);
            return last;
        }
        assert(rest.skip(at - start + 1) =~= text@.skip(at + 1));
        start = at + 1;
    }
}

/// A text without the `.md` at its end, however often that is repeated.
fn strip_md(text: String) -> (bare: String)
    ensures
        bare@ == without_md(text@),
    decreases text@.len(),
{
    proof {
        reveal_strlit(".md");
    }
    match strip_suffix(text.as_str(), ".md") {
        Some(rest) => strip_md(rest),
        None => text,
    }
}

/// Notes the links of a body: what they are about, and their targets.
fn note_links(seen: &mut Vec<Sighting>, chars: &Vec<char>) -> (targets: Vec<String>)
    ensures
        seen_view(final(seen)@) == seen_view(old(seen)@) + seen_links(chars@, 0),
        texts(targets@) == link_targets(chars@, 0),
{
    let ghost start = seen_view(seen@);
    let ghost all = start + seen_links(chars@, 0);
    let mut targets: Vec<String> = Vec::new();
    let count: usize = chars.len();
    let mut i: usize = 0;
    assert(texts(targets@) + link_targets(chars@, 0) =~= link_targets(chars@, 0));
    loop
        invariant
            count == chars@.len(),
            i <= count,
            seen_view(seen@) + seen_links(chars@, i as int) == all,
            texts(targets@) + link_targets(chars@, i as int) == link_targets(chars@, 0),
        ensures
            seen_view(seen@) == all,
            texts(targets@) == link_targets(chars@, 0),
        decreases chars@.len() - i,
    {
        proof {
            reveal_strlit("[[");
            reveal_strlit("]]");
        }
        let ghost noted = seen_view(seen@);
        let ghost aims = texts(targets@);
        let at: Option<usize> = find_part(chars, "[[", i);
        let end: Option<usize> = match at {
            Some(s) => find_part(chars, "]]", s + 2),
            None => None,
        };
        match (at, end) {
            (Some(s), Some(e)) => {
                let inner: String = text_of(chars, s + 2, e);
                let within: Vec<char> = chars_of(inner.as_str());
                let bar: usize = find_char(&within, '|', 0);
                let name: String = text_of(&within, 0, bar);
                assert(name@ =~= inner@.take(bar as int));
                let target: String = trim(name.as_str(), CharClass::Space);
                let ghost here = target@;
                if !target.as_str().is_empty() {
                    let about: String = strip_md(leaf_of(target.as_str()));
                    note(seen, s, about);
                    proof {
                        lemma_texts_push(targets@, target);
                    }
                    targets.push(target);
                }
                i = e + 2;
                proof {
                    let rest = seen_links(chars@, e + 2);
                    let more = link_targets(chars@, e + 2);
                    if here.len() > 0 {
                        let one = seq![(s as int, without_md(leaf(here)))];
                        assert(noted + (one + rest) =~= seen_view(seen@) + rest);
                        assert(aims + (seq![here] + more) =~= texts(targets@) + more);
                    } else {
                        assert(noted + (Seq::empty() + rest) =~= noted + rest);
                        assert(aims + (Seq::empty() + more) =~= aims + more);
                    }
                }
            },
            _ => {
                proof {
                    assert(noted + Seq::<(int, Seq<char>)>::empty() =~= noted);
                    assert(aims + Seq::<Seq<char>>::empty() =~= aims);
                }
                break ;
            },
        }
    }
    targets
}

// ---- Backticked names ----------------------------------------------------------------------

/// Whether a character can stand in an identifier.
pub open spec fn identifier_char(c: char) -> bool {
    ascii_letter(c) || ('0' <= c && c <= '9') || c == '-' || c == '_' || c == '.' || c == ':' || c
        == '/' || c == '#'
}

/// Whether a character is an ASCII letter.
pub open spec fn ascii_letter(c: char) -> bool {
    ('a' <= c && c <= 'z') || ('A' <= c && c <= 'Z')
}

/// Whether a token looks like an identifier worth matching on.
pub open spec fn like_identifier(token: Seq<char>) -> bool {
    let t = trimmed(token, CharClass::Space);
    &&& 2 <= byte_len(t) <= MAX_IDENTIFIER_BYTES
    &&& forall|i: int| 0 <= i < t.len() ==> identifier_char(#[trigger] t[i])
    &&& exists|i: int| 0 <= i < t.len() && ascii_letter(#[trigger] t[i])
}

/// Those of some parts of a text that look like identifiers.
pub open spec fn seen_names(text: Seq<char>, parts: Seq<(int, int)>) -> Seq<(int, Seq<char>)>
    decreases parts.len(),
{
    if parts.len() == 0 {
        Seq::empty()
    } else {
        let before = seen_names(text, parts.drop_last());
        let token = text.subrange(parts.last().0, parts.last().1);
        if like_identifier(token) {
            before.push((parts.last().0, token))
        } else {
            before
        }
    }
}

/// The identifiers in the backticked spans from the `i`th character on.
pub open spec fn seen_spans(text: Seq<char>, i: int) -> Seq<(int, Seq<char>)>
    decreases text.len() - i,
    when 0 <= i <= text.len()
{
    let s = find_from(text, '`', i);
    let e = find_from(text, '`', s + 1);
    if s < text.len() && e < text.len() {
        proof {
            lemma_find_from(text, '`', i);
            lemma_find_from(text, '`', s + 1);
        }
        seen_names(text, parts_of(text, CharClass::Separators, s + 1, e)) + seen_spans(text, e + 1)
    } else {
        Seq::empty()
    }
}

fn letter(c: char) -> (found: bool)
    ensures
        found == ascii_letter(c),
{
    ('a' <= c && c <= 'z') || ('A' <= c && c <= 'Z')
}

/// Whether a token looks like an identifier worth matching on.
fn looks_like_identifier(token: &str) -> (found: bool)
    ensures
        found == like_identifier(token@),
{
    let bare: String = trim(token, CharClass::Space);
    let bytes: usize = byte_len_of(bare.as_str());
    if bytes < 2 || bytes > MAX_IDENTIFIER_BYTES {
        return false;
    }
    let chars: Vec<char> = chars_of(bare.as_str());
    let mut lettered: bool = false;
    let mut i: usize = 0;
    while i < chars.len()
        invariant
            chars@ == trimmed(token@, CharClass::Space),
            2 <= byte_len(chars@) <= MAX_IDENTIFIER_BYTES,
            i <= chars@.len(),
            forall|j: int| 0 <= j < i ==> identifier_char(#[trigger] chars@[j]),
            lettered == exists|j: int| 0 <= j < i && ascii_letter(#[trigger] chars@[j]),
        decreases chars@.len() - i,
    {
        let c: char = chars[i];
        if !(letter(c) || ('0' <= c && c <= '9') || c == '-' || c == '_' || c == '.' || c == ':' || c
            == '/' || c == '#') {
            assert(!identifier_char(chars@[i as int]));
            return false;
        }
        if letter(c) {
            assert(ascii_letter(chars@[i as int]));
            lettered = true;
        }
        i += 1;
    }
    lettered
}

/// Notes those parts of a body that look like identifiers.
fn note_names(seen: &mut Vec<Sighting>, chars: &Vec<char>, parts: &Vec<(usize, usize)>)
    requires
        forall|i: int|
            0 <= i < parts@.len() ==> (#[trigger] parts@[i]).0 <= parts@[i].1 <= chars@.len(),
    ensures
        seen_view(final(seen)@) == seen_view(old(seen)@) + seen_names(chars@, parts_view(parts@)),
{
    let ghost start = seen_view(seen@);
    let ghost all = parts_view(parts@);
    let mut i: usize = 0;
    assert(all.take(0) =~= Seq::empty());
    assert(start + Seq::<(int, Seq<char>)>::empty() =~= start);
    while i < parts.len()
        invariant
            all == parts_view(parts@),
            i <= parts@.len(),
            forall|j: int|
                0 <= j < parts@.len() ==> (#[trigger] parts@[j]).0 <= parts@[j].1 <= chars@.len(),
            seen_view(seen@) == start + seen_names(chars@, all.take(i as int)),
        decreases parts@.len() - i,
    {
        assert(all.take(i + 1).drop_last() =~= all.take(i as int));
        let ghost before = seen_names(chars@, all.take(i as int));
        let token: String = text_of(chars, parts[i].0, parts[i].1);
        if looks_like_identifier(token.as_str()) {
            let ghost one = (parts@[i as int].0 as int, token@);
            note(seen, parts[i].0, token);
            assert((start + before).push(one) =~= start + before.push(one));
        }
        i += 1;
    }
    assert(all.take(i as int) =~= all);
}

/// Notes the identifiers in the backticked spans of a body.
fn note_spans(seen: &mut Vec<Sighting>, chars: &Vec<char>)
    ensures
        seen_view(final(seen)@) == seen_view(old(seen)@) + seen_spans(chars@, 0),
{
    let ghost all = seen_view(seen@) + seen_spans(chars@, 0);
    let mut i: usize = 0;
    loop
        invariant
            i <= chars@.len(),
            seen_view(seen@) + seen_spans(chars@, i as int) == all,
        ensures
            seen_view(seen@) == all,
        decreases chars@.len() - i,
    {
        let ghost noted = seen_view(seen@);
        assert(noted + Seq::<(int, Seq<char>)>::empty() =~= noted);
        let s: usize = find_char(chars, '`', i);
        if s >= chars.len() {
            break ;
        }
        let e: usize = find_char(chars, '`', s + 1);
        if e >= chars.len() {
            break ;
        }
        let parts: Vec<(usize, usize)> = split_parts(chars, CharClass::Separators, s + 1, e);
        note_names(seen, chars, &parts);
        proof {
            let here = seen_names(chars@, parts_view(parts@));
            let rest = seen_spans(chars@, e + 1);
            assert(noted + (here + rest) =~= (noted + here) + rest);
        }
        i = e + 1;
    }
}

// ---- Paths -----------------------------------------------------------------------------------

/// Whether a token ends as a file of source, data or prose does.
pub open spec fn known_file(token: Seq<char>) -> bool {
    ||| has_suffix(token, ".rs"@)
    ||| has_suffix(token, ".md"@)
    ||| has_suffix(token, ".toml"@)
    ||| has_suffix(token, ".json"@)
    ||| has_suffix(token, ".yaml"@)
    ||| has_suffix(token, ".yml"@)
    ||| has_suffix(token, ".py"@)
    ||| has_suffix(token, ".ts"@)
    ||| has_suffix(token, ".tsx"@)
    ||| has_suffix(token, ".go"@)
    ||| has_suffix(token, ".sql"@)
    ||| has_suffix(token, ".sh"@)
}

/// Whether a token looks like a path or a file.
pub open spec fn like_path(token: Seq<char>) -> bool {
    &&& token.contains('/') || token.contains('.')
    &&& (token.contains('/') && byte_len(token) >= 4) || known_file(token)
}

/// Those words of a text that look like paths, without the punctuation around them, where
/// that punctuation ends.
pub open spec fn seen_paths(text: Seq<char>, words: Seq<(int, int)>) -> Seq<(int, Seq<char>)>
    decreases words.len(),
{
    if words.len() == 0 {
        Seq::empty()
    } else {
        let before = seen_paths(text, words.drop_last());
        let whole = text.subrange(words.last().0, words.last().1);
        let word = trimmed(whole, CharClass::Punctuation);
        if like_path(word) {
            before.push(
                (words.last().1 - without_start(whole, CharClass::Punctuation).len(), word),
            )
        } else {
            before
        }
    }
}

/// Whether a token ends as a file of source, data or prose does.
fn is_known_file(token: &str) -> (found: bool)
    ensures
        found == known_file(token@),
{
    ends_with(token, ".rs") || ends_with(token, ".md") || ends_with(token, ".toml") || ends_with(
        token,
        ".json",
    ) || ends_with(token, ".yaml") || ends_with(token, ".yml") || ends_with(token, ".py")
        || ends_with(token, ".ts") || ends_with(token, ".tsx") || ends_with(token, ".go")
        || ends_with(token, ".sql") || ends_with(token, ".sh")
}

/// Whether a token looks like a path or a file.
fn looks_like_path(token: &str) -> (found: bool)
    ensures
        found == like_path(token@),
{
    let has_slash: bool = contains_char(token, '/');
    if !has_slash && !contains_char(token, '.') {
        return false;
    }
    (has_slash && byte_len_of(token) >= 4) || is_known_file(token)
}

/// Notes those words of a body that look like paths.
fn note_paths(seen: &mut Vec<Sighting>, chars: &Vec<char>)
    ensures
        seen_view(final(seen)@) == seen_view(old(seen)@) + seen_paths(
            chars@,
            parts_of(chars@, CharClass::Space, 0, chars@.len() as int),
        ),
{
    let words: Vec<(usize, usize)> = split_parts(chars, CharClass::Space, 0, chars.len());
    let ghost start = seen_view(seen@);
    let ghost all = parts_view(words@);
    let mut i: usize = 0;
    assert(all.take(0) =~= Seq::empty());
    assert(start + Seq::<(int, Seq<char>)>::empty() =~= start);
    while i < words.len()
        invariant
            all == parts_view(words@),
            i <= words@.len(),
            forall|j: int|
                0 <= j < words@.len() ==> (#[trigger] words@[j]).0 <= words@[j].1 <= chars@.len(),
            seen_view(seen@) == start + seen_paths(chars@, all.take(i as int)),
        decreases words@.len() - i,
    {
        assert(all.take(i + 1).drop_last() =~= all.take(i as int));
        let ghost before = seen_paths(chars@, all.take(i as int));
        let whole: String = text_of(chars, words[i].0, words[i].1);
        let within: Vec<char> = chars_of(whole.as_str());
        let span: (usize, usize) = trim_span(&within, CharClass::Punctuation);
        let word: String = text_of(&within, span.0, span.1);
        if looks_like_path(word.as_str()) {
            let at: usize = words[i].0 + span.0;
            let ghost one = (at as int, word@);
            proof {
                let kept = without_start(within@, CharClass::Punctuation);
                assert(within@.skip(span.0 as int).len() == within@.len() - span.0);
                assert(at == words@[i as int].1 - kept.len());
            }
            note(seen, at, word);
            assert((start + before).push(one) =~= start + before.push(one));
        }
        i += 1;
    }
    assert(all.take(i as int) =~= all);
}

// ---- Tags ------------------------------------------------------------------------------------

/// Whether a character can stand in a tag.
pub open spec fn tag_char(c: char) -> bool {
    ascii_letter(c) || ('0' <= c && c <= '9') || c == '-' || c == '_' || c == '/'
}

/// Where the tag that starts at `i` ends.
pub open spec fn tag_end(text: Seq<char>, i: int) -> int
    decreases text.len() - i,
{
    if 0 <= i < text.len() && tag_char(text[i]) {
        tag_end(text, i + 1)
    } else {
        i
    }
}

/// A tag ends behind its start, wherever in it the search begins.
pub proof fn lemma_tag_end(text: Seq<char>, i: int)
    requires
        0 <= i <= text.len(),
    ensures
        i <= tag_end(text, i) <= text.len(),
        forall|j: int| i <= j <= tag_end(text, i) ==> #[trigger] tag_end(text, j) == tag_end(
            text,
            i,
        ),
    decreases text.len() - i,
{
    if i < text.len() && tag_char(text[i]) {
        lemma_tag_end(text, i + 1);
    }
}

/// Where the search goes on behind a hash at `at`: behind its tag, or one character
/// further where there is none.
pub open spec fn behind_tag(text: Seq<char>, at: int) -> int {
    let e = tag_end(text, at + 1);
    if e > at + 1 {
        e
    } else {
        at + 2
    }
}

/// The tags from the `i`th character on, where their hashes stand.
pub open spec fn seen_tags(text: Seq<char>, i: int) -> Seq<(int, Seq<char>)>
    decreases text.len() - i,
    when 0 <= i <= text.len()
{
    let at = find_from(text, '#', i);
    if at + 1 < text.len() {
        let e = tag_end(text, at + 1);
        let here = if e - (at + 1) >= 2 {
            seq![(at, text.subrange(at + 1, e))]
        } else {
            Seq::empty()
        };
        proof {
            lemma_find_from(text, '#', i);
            lemma_tag_end(text, at + 1);
        }
        here + seen_tags(text, behind_tag(text, at))
    } else {
        Seq::empty()
    }
}

/// Where the tag that starts at `i` ends.
fn find_tag_end(chars: &Vec<char>, i: usize) -> (e: usize)
    requires
        i <= chars@.len(),
    ensures
        e == tag_end(chars@, i as int),
        i <= e <= chars@.len(),
{
    let mut e: usize = i;
    proof {
        lemma_tag_end(chars@, i as int);
    }
    while e < chars.len() && (letter(chars[e]) || ('0' <= chars[e] && chars[e] <= '9') || chars[e]
        == '-' || chars[e] == '_' || chars[e] == '/')
        invariant
            i <= e <= chars@.len(),
            tag_end(chars@, e as int) == tag_end(chars@, i as int),
        decreases chars@.len() - e,
    {
        e += 1;
    }
    e
}

/// Notes the tags of a body.
fn note_tags(seen: &mut Vec<Sighting>, chars: &Vec<char>)
    ensures
        seen_view(final(seen)@) == seen_view(old(seen)@) + seen_tags(chars@, 0),
{
    let ghost all = seen_view(seen@) + seen_tags(chars@, 0);
    let mut i: usize = 0;
    loop
        invariant
            i <= chars@.len(),
            seen_view(seen@) + seen_tags(chars@, i as int) == all,
        ensures
            seen_view(seen@) == all,
        decreases chars@.len() - i,
    {
        let ghost noted = seen_view(seen@);
        assert(noted + Seq::<(int, Seq<char>)>::empty() =~= noted);
        let at: usize = find_char(chars, '#', i);
        if at >= chars.len() || at + 1 >= chars.len() {
            break ;
        }
        let e: usize = find_tag_end(chars, at + 1);
        let ghost rest = seen_tags(chars@, behind_tag(chars@, at as int));
        if e - (at + 1) >= 2 {
            let tag: String = text_of(chars, at + 1, e);
            let ghost one = (at as int, tag@);
            note(seen, at, tag);
            assert(noted + (seq![one] + rest) =~= noted.push(one) + rest);
        } else {
            assert(noted + (Seq::empty() + rest) =~= noted + rest);
        }
        i = if e > at + 1 {
            e
        } else {
            at + 2
        };
    }
}

// ---- All of it -------------------------------------------------------------------------------

/// The identifiers that a body declares: what its links are about, its backticked names,
/// its paths and its tags.
pub open spec fn sightings(body: Seq<char>) -> Seq<(int, Seq<char>)> {
    seen_links(body, 0) + seen_spans(body, 0) + seen_paths(
        body,
        parts_of(body, CharClass::Space, 0, body.len() as int),
    ) + seen_tags(body, 0)
}

/// What a body declares: the identifiers in the order in which they stand in it, and the
/// targets of its links.
pub open spec fn extraction(body: Seq<char>) -> ExtractionView {
    ExtractionView {
        entities: kept_values(values_of(in_text_order(sightings(body)))),
        links: kept_values(link_targets(body, 0)),
    }
}

/// The values of sightings.
fn seen_values(list: &Vec<Sighting>) -> (values: Vec<String>)
    ensures
        texts(values@) == values_of(seen_view(list@)),
{
    let mut values: Vec<String> = Vec::new();
    let mut i: usize = 0;
    while i < list.len()
        invariant
            i <= list@.len(),
            texts(values@) =~= values_of(seen_view(list@)).take(i as int),
        decreases list@.len() - i,
    {
        let value: String = list[i].value.clone();
        proof {
            lemma_texts_push(values@, value);
        }
        values.push(value);
        i += 1;
    }
    assert(texts(values@) =~= values_of(seen_view(list@)));
    values
}

/// The identifiers that a body declares, in the order in which they stand in it, and the
/// targets of its links; repeats among them.
pub fn declared(body: &str) -> (found: (Vec<String>, Vec<String>))
    ensures
        texts(found.0@) == values_of(in_text_order(sightings(body@))),
        texts(found.1@) == link_targets(body@, 0),
{
    let chars: Vec<char> = chars_of(body);
    let mut seen: Vec<Sighting> = Vec::new();
    let targets: Vec<String> = note_links(&mut seen, &chars);
    note_spans(&mut seen, &chars);
    note_paths(&mut seen, &chars);
    note_tags(&mut seen, &chars);
    proof {
        assert(seen_view(seen@) =~= sightings(body@));
        lemma_in_text_order(seen@);
    }
    let ordered: Vec<Sighting> = sort(seen);
    (seen_values(&ordered), targets)
}

/// Extracts entities and links from a markdown body.
pub fn extract(body: &str) -> (found: Extraction)
    ensures
        found@ == extraction(body@),
{
    let (identifiers, targets) = declared(body);
    Extraction { entities: keep_values(&identifiers), links: keep_values(&targets) }
}

// ---- Laws ------------------------------------------------------------------------------------

/// Whether a list is fit for an index document: no two values are the same in lower
/// case, and each is bare, not empty and not too long.
pub open spec fn tidy(list: Seq<Seq<char>>) -> bool {
    &&& forall|i: int, j: int|
        0 <= i < j < list.len() ==> text_lower(#[trigger] list[i]) != text_lower(
            #[trigger] list[j],
        )
    &&& forall|i: int| 0 <= i < list.len() ==> fits(#[trigger] list[i])
}

proof fn lemma_fit_ones(values: Seq<Seq<char>>)
    ensures
        forall|i: int| 0 <= i < fit_ones(values).len() ==> fits(#[trigger] fit_ones(values)[i]),
    decreases values.len(),
{
    if values.len() > 0 {
        let before = fit_ones(values.drop_last());
        let now = fit_ones(values);
        lemma_fit_ones(values.drop_last());
        assert forall|i: int| 0 <= i < now.len() implies fits(#[trigger] now[i]) by {
            if i < before.len() {
                assert(fits(before[i]));
            }
        }
    }
}

/// What is distinct in lower case is among the values, each once.
proof fn lemma_distinct(fit: Seq<Seq<char>>)
    requires
        forall|i: int| 0 <= i < fit.len() ==> fits(#[trigger] fit[i]),
    ensures
        tidy(distinct(fit, lowered(fit))),
        forall|i: int|
            0 <= i < distinct(fit, lowered(fit)).len() ==> lowered(fit).contains(
                text_lower(#[trigger] distinct(fit, lowered(fit))[i]),
            ),
    decreases fit.len(),
{
    if fit.len() > 0 {
        let front = fit.drop_last();
        let forms = lowered(fit);
        assert(forms.drop_last() =~= lowered(front));
        assert forall|i: int| 0 <= i < front.len() implies fits(#[trigger] front[i]) by {
            assert(fits(fit[i]));
        }
        lemma_distinct(front);
        let before = distinct(front, lowered(front));
        let now = distinct(fit, forms);
        assert(fits(fit[fit.len() - 1]));
        assert forall|i: int| 0 <= i < now.len() implies forms.contains(
            text_lower(#[trigger] now[i]),
        ) by {
            if i < before.len() {
                assert(now[i] == before[i]);
                let k = choose|k: int|
                    0 <= k < lowered(front).len() && lowered(front)[k] == text_lower(before[i]);
                assert(forms[k] == text_lower(now[i]));
            } else {
                assert(forms[fit.len() - 1] == text_lower(now[i]));
            }
        }
        assert forall|i: int, j: int| 0 <= i < j < now.len() implies text_lower(#[trigger] now[i])
            != text_lower(#[trigger] now[j]) by {
            assert(now[i] == before[i]);
            if j < before.len() {
                assert(now[j] == before[j]);
            } else {
                assert(lowered(front).contains(text_lower(before[i])));
            }
        }
        assert forall|i: int| 0 <= i < now.len() implies fits(#[trigger] now[i]) by {
            if i < before.len() {
                assert(fits(before[i]));
            }
        }
    }
}

proof fn lemma_kept_tidy(values: Seq<Seq<char>>)
    ensures
        tidy(kept_values(values)),
        kept_values(values).len() <= MAX_ENTITIES,
{
    let fit = fit_ones(values);
    lemma_fit_ones(values);
    lemma_distinct(fit);
    let all = distinct(fit, lowered(fit));
    let kept = kept_values(values);
    assert forall|i: int| 0 <= i < kept.len() implies #[trigger] kept[i] == all[i] by {}
    assert forall|i: int, j: int| 0 <= i < j < kept.len() implies text_lower(#[trigger] kept[i])
        != text_lower(#[trigger] kept[j]) by {
        assert(text_lower(all[i]) != text_lower(all[j]));
    }
    assert forall|i: int| 0 <= i < kept.len() implies fits(#[trigger] kept[i]) by {
        assert(fits(all[i]));
    }
}

/// A body yields each entity and each link once, whatever the case it is written in,
/// none of them empty or longer than an identifier may be, and no more of either than
/// an index document keeps.
pub proof fn law_extractions_are_bounded_and_distinct(body: Seq<char>)
    ensures
        tidy(extraction(body).entities),
        tidy(extraction(body).links),
        extraction(body).entities.len() <= MAX_ENTITIES,
        extraction(body).links.len() <= MAX_ENTITIES,
{
    lemma_kept_tidy(values_of(in_text_order(sightings(body))));
    lemma_kept_tidy(link_targets(body, 0));
}

/// Whether places do not go back.
pub open spec fn places_ascend(list: Seq<(int, Seq<char>)>) -> bool {
    forall|i: int, j: int| 0 <= i < j < list.len() ==> (#[trigger] list[i]).0 <= (#[trigger] list[j]).0
}

proof fn lemma_put_ascends(one: (int, Seq<char>), list: Seq<(int, Seq<char>)>)
    requires
        places_ascend(list),
    ensures
        places_ascend(put_seen(one, list)),
        put_seen(one, list).to_multiset() == list.to_multiset().insert(one),
        forall|i: int|
            0 <= i < put_seen(one, list).len() ==> (#[trigger] put_seen(one, list)[i]) == one
                || list.contains(put_seen(one, list)[i]),
    decreases list.len(),
{
    broadcast use vstd::seq_lib::group_to_multiset_ensures;

    let put = put_seen(one, list);
    if list.len() > 0 && list[0].0 < one.0 {
        let rest = list.skip(1);
        let later = put_seen(one, rest);
        assert forall|i: int, j: int| 0 <= i < j < rest.len() implies (#[trigger] rest[i]).0 <= (
        #[trigger] rest[j]).0 by {
            assert(list[i + 1].0 <= list[j + 1].0);
        }
        lemma_put_ascends(one, rest);
        assert forall|i: int| 0 <= i < later.len() implies list[0].0 <= (#[trigger] later[i]).0 by {
            if later[i] != one {
                let k = choose|k: int| 0 <= k < rest.len() && rest[k] == later[i];
                assert(list[k + 1] == later[i]);
            }
        }
        assert forall|i: int, j: int| 0 <= i < j < put.len() implies (#[trigger] put[i]).0 <= (
        #[trigger] put[j]).0 by {
            assert(put[j] == later[j - 1]);
            if i > 0 {
                assert(put[i] == later[i - 1]);
            }
        }
        assert forall|i: int| 0 <= i < put.len() implies (#[trigger] put[i]) == one
            || list.contains(put[i]) by {
            if i == 0 {
                assert(list.contains(list[0]));
            } else {
                assert(put[i] == later[i - 1]);
                if later[i - 1] != one {
                    let k = choose|k: int| 0 <= k < rest.len() && rest[k] == later[i - 1];
                    assert(list[k + 1] == put[i]);
                }
            }
        }
        vstd::seq_lib::lemma_multiset_commutative(seq![list[0]], later);
        vstd::seq_lib::lemma_multiset_commutative(seq![list[0]], rest);
        assert(seq![list[0]] + rest =~= list);
        assert(put.to_multiset() =~= list.to_multiset().insert(one));
    } else {
        assert forall|i: int, j: int| 0 <= i < j < put.len() implies (#[trigger] put[i]).0 <= (
        #[trigger] put[j]).0 by {
            assert(put[j] == list[j - 1]);
            if i == 0 {
                assert(list[0].0 <= list[j - 1].0);
            } else {
                assert(put[i] == list[i - 1]);
            }
        }
        assert forall|i: int| 0 <= i < put.len() implies (#[trigger] put[i]) == one
            || list.contains(put[i]) by {
            if i > 0 {
                assert(put[i] == list[i - 1]);
            }
        }
        vstd::seq_lib::lemma_multiset_commutative(seq![one], list);
        assert(seq![one] =~= Seq::empty().push(one));
        assert(put.to_multiset() =~= list.to_multiset().insert(one));
    }
}

proof fn lemma_text_order_ascends(list: Seq<(int, Seq<char>)>)
    ensures
        places_ascend(in_text_order(list)),
        in_text_order(list).to_multiset() == list.to_multiset(),
    decreases list.len(),
{
    broadcast use vstd::seq_lib::group_to_multiset_ensures;

    if list.len() > 0 {
        let rest = list.skip(1);
        lemma_text_order_ascends(rest);
        lemma_put_ascends(list[0], in_text_order(rest));
        vstd::seq_lib::lemma_multiset_commutative(seq![list[0]], rest);
        assert(seq![list[0]] + rest =~= list);
        assert(seq![list[0]] =~= Seq::empty().push(list[0]));
        assert(in_text_order(list).to_multiset() =~= list.to_multiset());
    } else {
        assert(in_text_order(list) =~= list);
    }
}

/// Which sighting at or after `from` is the first whose bare value fits and has this
/// lower-case form; the length where there is none.
pub open spec fn first_seen(seen: Seq<(int, Seq<char>)>, form: Seq<char>, from: int) -> int
    decreases seen.len() - from,
{
    if from >= seen.len() {
        seen.len() as int
    } else if fits(bare(seen[from].1)) && text_lower(bare(seen[from].1)) == form {
        from
    } else {
        first_seen(seen, form, from + 1)
    }
}

proof fn lemma_first_seen(seen: Seq<(int, Seq<char>)>, form: Seq<char>, from: int, at: int)
    requires
        0 <= from <= at < seen.len(),
        fits(bare(seen[at].1)),
        text_lower(bare(seen[at].1)) == form,
    ensures
        from <= first_seen(seen, form, from) <= at,
        (forall|k: int|
            from <= k < at && fits(bare((#[trigger] seen[k]).1)) ==> text_lower(bare(seen[k].1))
                != form) ==> first_seen(seen, form, from) == at,
    decreases at - from,
{
    if from < at && !(fits(bare(seen[from].1)) && text_lower(bare(seen[from].1)) == form) {
        lemma_first_seen(seen, form, from + 1, at);
    }
}

/// What is distinct among the first `n` sightings.
spec fn distinct_upto(seen: Seq<(int, Seq<char>)>, n: int) -> Seq<Seq<char>> {
    let fit = fit_ones(values_of(seen.take(n)));
    distinct(fit, lowered(fit))
}

/// Whether a list holds a text with this lower-case form.
spec fn has_form(list: Seq<Seq<char>>, form: Seq<char>) -> bool {
    exists|i: int| 0 <= i < list.len() && text_lower(#[trigger] list[i]) == form
}

proof fn lemma_distinct_upto(seen: Seq<(int, Seq<char>)>, n: int)
    requires
        0 <= n <= seen.len(),
    ensures
        forall|i: int|
            0 <= i < distinct_upto(seen, n).len() ==> {
                let k = first_seen(seen, text_lower(#[trigger] distinct_upto(seen, n)[i]), 0);
                0 <= k < n && bare(seen[k].1) == distinct_upto(seen, n)[i]
            },
        forall|i: int, j: int|
            0 <= i < j < distinct_upto(seen, n).len() ==> first_seen(
                seen,
                text_lower(#[trigger] distinct_upto(seen, n)[i]),
                0,
            ) < first_seen(seen, text_lower(#[trigger] distinct_upto(seen, n)[j]), 0),
        forall|k: int|
            0 <= k < n && fits(bare((#[trigger] seen[k]).1)) ==> has_form(
                distinct_upto(seen, n),
                text_lower(bare(seen[k].1)),
            ),
        forall|form: Seq<char>| #[trigger]
            lowered(fit_ones(values_of(seen.take(n)))).contains(form) <==> has_form(
                distinct_upto(seen, n),
                form,
            ),
    decreases n,
{
    let now = distinct_upto(seen, n);
    let fit = fit_ones(values_of(seen.take(n)));
    if n > 0 {
        lemma_distinct_upto(seen, n - 1);
        let before = distinct_upto(seen, n - 1);
        let value = bare(seen[n - 1].1);
        let form = text_lower(value);
        let front = fit_ones(values_of(seen.take(n - 1)));
        assert(values_of(seen.take(n)).drop_last() =~= values_of(seen.take(n - 1)));
        if fits(value) {
            assert(fit == front.push(value));
            assert(fit.drop_last() =~= front);
            assert(lowered(fit).drop_last() =~= lowered(front));
            assert(lowered(fit) =~= lowered(front).push(form));
            lemma_first_seen(seen, form, 0, n - 1);
            if has_form(before, form) {
                assert(now == before);
            } else {
                assert(now == before.push(value));
                assert(first_seen(seen, form, 0) == n - 1);
            }
            assert forall|any: Seq<char>| #[trigger]
                lowered(fit).contains(any) <==> has_form(now, any) by {
                assert(lowered(front).contains(any) <==> has_form(before, any));
                if lowered(fit).contains(any) {
                    let k = choose|k: int| 0 <= k < lowered(fit).len() && lowered(fit)[k] == any;
                    if k < front.len() {
                        assert(lowered(front)[k] == any);
                        let i = choose|i: int|
                            0 <= i < before.len() && text_lower(#[trigger] before[i]) == any;
                        assert(text_lower(now[i]) == any);
                    } else if !has_form(before, form) {
                        assert(text_lower(now[before.len() as int]) == any);
                    }
                }
                if has_form(now, any) {
                    let i = choose|i: int|
                        0 <= i < now.len() && text_lower(#[trigger] now[i]) == any;
                    if i < before.len() {
                        assert(text_lower(before[i]) == any);
                        assert(has_form(before, any));
                        let k = choose|k: int|
                            0 <= k < lowered(front).len() && lowered(front)[k] == any;
                        assert(lowered(fit)[k] == any);
                    } else {
                        assert(lowered(fit)[front.len() as int] == any);
                    }
                }
            }
            assert forall|k: int| 0 <= k < n && fits(bare((#[trigger] seen[k]).1)) implies has_form(
                now,
                text_lower(bare(seen[k].1)),
            ) by {
                let any = text_lower(bare(seen[k].1));
                if k < n - 1 {
                    let i = choose|i: int|
                        0 <= i < before.len() && text_lower(#[trigger] before[i]) == any;
                    assert(text_lower(now[i]) == any);
                } else if !has_form(before, form) {
                    assert(text_lower(now[before.len() as int]) == any);
                }
            }
            assert forall|i: int| 0 <= i < now.len() implies {
                let k = first_seen(seen, text_lower(#[trigger] now[i]), 0);
                0 <= k < n && bare(seen[k].1) == now[i]
            } by {
                if i < before.len() {
                    assert(now[i] == before[i]);
                }
            }
            assert forall|i: int, j: int| 0 <= i < j < now.len() implies first_seen(
                seen,
                text_lower(#[trigger] now[i]),
                0,
            ) < first_seen(seen, text_lower(#[trigger] now[j]), 0) by {
                assert(now[i] == before[i]);
                if j < before.len() {
                    assert(now[j] == before[j]);
                }
            }
        } else {
            assert(fit == front);
        }
    } else {
        assert(fit =~= Seq::empty());
    }
}

/// Entities stand in the order in which the body declares them, each as it is written
/// where it is first declared; and where there are more than are kept, those that are
/// declared earliest stay.
pub proof fn law_the_earliest_identifiers_win(body: Seq<char>)
    ensures
        ({
            let seen = in_text_order(sightings(body));
            let kept = extraction(body).entities;
            &&& places_ascend(seen)
            &&& seen.to_multiset() == sightings(body).to_multiset()
            &&& forall|i: int|
                0 <= i < kept.len() ==> {
                    let k = first_seen(seen, text_lower(#[trigger] kept[i]), 0);
                    0 <= k < seen.len() && bare(seen[k].1) == kept[i]
                }
            &&& forall|i: int, j: int|
                0 <= i < j < kept.len() ==> first_seen(seen, text_lower(#[trigger] kept[i]), 0)
                    < first_seen(seen, text_lower(#[trigger] kept[j]), 0)
            &&& forall|k: int|
                0 <= k < seen.len() && fits(bare((#[trigger] seen[k]).1)) ==> (exists|i: int|
                    0 <= i < kept.len() && text_lower(#[trigger] kept[i]) == text_lower(
                        bare(seen[k].1),
                    )) || (kept.len() == MAX_ENTITIES && forall|i: int|
                    0 <= i < kept.len() ==> first_seen(seen, text_lower(#[trigger] kept[i]), 0)
                        < k)
        }),
{
    let seen = in_text_order(sightings(body));
    let kept = extraction(body).entities;
    let all = distinct_upto(seen, seen.len() as int);
    lemma_text_order_ascends(sightings(body));
    lemma_distinct_upto(seen, seen.len() as int);
    assert(seen.take(seen.len() as int) =~= seen);
    assert(kept == first_ones(all));
    assert forall|i: int| 0 <= i < kept.len() implies #[trigger] kept[i] == all[i] by {}
    assert forall|i: int, j: int| 0 <= i < j < kept.len() implies first_seen(
        seen,
        text_lower(#[trigger] kept[i]),
        0,
    ) < first_seen(seen, text_lower(#[trigger] kept[j]), 0) by {
        assert(kept[i] == all[i] && kept[j] == all[j]);
    }
    assert forall|k: int| 0 <= k < seen.len() && fits(bare((#[trigger] seen[k]).1)) implies (exists|
        i: int,
    |
        0 <= i < kept.len() && text_lower(#[trigger] kept[i]) == text_lower(bare(seen[k].1))) || (
    kept.len() == MAX_ENTITIES && forall|i: int|
        0 <= i < kept.len() ==> first_seen(seen, text_lower(#[trigger] kept[i]), 0) < k) by {
        let form = text_lower(bare(seen[k].1));
        let at = choose|at: int| 0 <= at < all.len() && text_lower(#[trigger] all[at]) == form;
        lemma_first_seen(seen, form, 0, k);
        if at < kept.len() {
            assert(text_lower(kept[at]) == form);
        } else {
            assert forall|i: int| 0 <= i < kept.len() implies first_seen(
                seen,
                text_lower(#[trigger] kept[i]),
                0,
            ) < k by {
                assert(kept[i] == all[i]);
                assert(first_seen(seen, text_lower(all[i]), 0) < first_seen(
                    seen,
                    text_lower(all[at]),
                    0,
                ));
            }
        }
    }
}

} // verus!
