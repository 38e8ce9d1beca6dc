//! Trimming, word splitting and ASCII case.

use vstd::prelude::*;

use crate::text::{chars_of, text_of};

verus! {

/// The characters with Unicode's `White_Space` property.
pub open spec fn is_space(c: char) -> bool {
    let n: int = c as int;
    ||| 0x9 <= n <= 0xd
    ||| n == 0x20
    ||| n == 0x85
    ||| n == 0xa0
    ||| n == 0x1680
    ||| 0x2000 <= n <= 0x200a
    ||| n == 0x2028
    ||| n == 0x2029
    ||| n == 0x202f
    ||| n == 0x205f
    ||| n == 0x3000
}

/// Whether `c` has Unicode's `White_Space` property.
pub fn space(c: char) -> (found: bool)
    ensures
        found == is_space(c),
{
    let n: u32 = c as u32;
    (0x9 <= n && n <= 0xd) || n == 0x20 || n == 0x85 || n == 0xa0 || n == 0x1680 || (0x2000 <= n && n
        <= 0x200a) || n == 0x2028 || n == 0x2029 || n == 0x202f || n == 0x205f || n == 0x3000
}

/// A class of characters, to trim off or to split at.
#[derive(Clone, Copy, Debug, PartialEq, Eq)]
pub enum CharClass {
    /// White space.
    Space,
    /// One character.
    Char(char),
    /// Backticks and quotation marks.
    Quotes,
    /// Brackets, quotation marks and the punctuation of a sentence.
    Punctuation,
    /// White space, commas and semicolons.
    Separators,
}

impl CharClass {
    /// Whether `c` belongs to the class.
    pub open spec fn takes(self, c: char) -> bool {
        match self {
            CharClass::Space => is_space(c),
            CharClass::Char(x) => c == x,
            CharClass::Quotes => c == '`' || c == '"' || c == '\'',
            CharClass::Punctuation => {
                ||| c == '(' || c == ')' || c == '[' || c == ']' || c == '{' || c == '}'
                ||| c == ',' || c == '.' || c == ':' || c == ';' || c == '"' || c == '\''
            },
            CharClass::Separators => is_space(c) || c == ',' || c == ';',
        }
    }

    /// Whether `c` belongs to the class.
    pub fn test(self, c: char) -> (taken: bool)
        ensures
            taken == self.takes(c),
    {
        match self {
            CharClass::Space => space(c),
            CharClass::Char(x) => c == x,
            CharClass::Quotes => c == '`' || c == '"' || c == '\'',
            CharClass::Punctuation => {
                c == '(' || c == ')' || c == '[' || c == ']' || c == '{' || c == '}' || c == ','
                    || c == '.' || c == ':' || c == ';' || c == '"' || c == '\''
            },
            CharClass::Separators => space(c) || c == ',' || c == ';',
        }
    }
}

/// `text` without what `strip` takes off its start.
pub open spec fn without_start(text: Seq<char>, strip: CharClass) -> Seq<char>
    decreases text.len(),
{
    if text.len() > 0 && strip.takes(text[0]) {
        without_start(text.skip(1), strip)
    } else {
        text
    }
}

/// `text` without what `strip` takes off its end.
pub open spec fn without_end(text: Seq<char>, strip: CharClass) -> Seq<char>
    decreases text.len(),
{
    if text.len() > 0 && strip.takes(text.last()) {
        without_end(text.drop_last(), strip)
    } else {
        text
    }
}

/// `text` without what `strip` takes off both its ends.
pub open spec fn trimmed(text: Seq<char>, strip: CharClass) -> Seq<char> {
    without_end(without_start(text, strip), strip)
}

/// A text whose first character stays loses nothing at its start.
pub proof fn lemma_start_stays(text: Seq<char>, strip: CharClass)
    requires
        text.len() > 0 ==> !strip.takes(text[0]),
    ensures
        without_start(text, strip) == text,
{
}

/// What is left after a trim at the start starts with a character that stays.
pub proof fn lemma_start_done(text: Seq<char>, strip: CharClass)
    ensures
        without_start(text, strip).len() > 0 ==> !strip.takes(without_start(text, strip)[0]),
        without_start(text, strip).len() <= text.len(),
    decreases text.len(),
{
    if text.len() > 0 && strip.takes(text[0]) {
        lemma_start_done(text.skip(1), strip);
    }
}

/// What is left after a trim at the end is a prefix that ends with a character
/// that stays.
pub proof fn lemma_end_done(text: Seq<char>, strip: CharClass)
    ensures
        without_end(text, strip).len() > 0 ==> !strip.takes(without_end(text, strip).last()),
        without_end(text, strip).len() <= text.len(),
        without_end(text, strip) == text.take(without_end(text, strip).len() as int),
    decreases text.len(),
{
    if text.len() > 0 && strip.takes(text.last()) {
        lemma_end_done(text.drop_last(), strip);
        let kept = without_end(text.drop_last(), strip);
        assert(text.drop_last().take(kept.len() as int) =~= text.take(kept.len() as int));
    } else {
        assert(text.take(text.len() as int) =~= text);
    }
}

/// Trimming twice is trimming once.
pub proof fn law_trim_is_idempotent(text: Seq<char>, strip: CharClass)
    ensures
        trimmed(trimmed(text, strip), strip) == trimmed(text, strip),
{
    let once = without_start(text, strip);
    lemma_start_done(text, strip);
    lemma_end_done(once, strip);
    let kept = without_end(once, strip);
    if kept.len() > 0 {
        assert(kept[0] == once[0]);
    }
    lemma_start_stays(kept, strip);
}

/// The span that is left when `strip` is taken off both ends of `chars`.
pub fn trim_span(chars: &Vec<char>, strip: CharClass) -> (span: (usize, usize))
    ensures
        span.0 <= span.1 <= chars@.len(),
        chars@.subrange(span.0 as int, span.1 as int) == trimmed(chars@, strip),
        chars@.skip(span.0 as int) == without_start(chars@, strip),
{
    let mut from: usize = 0;
    assert(chars@.skip(0) =~= chars@);
    while from < chars.len() && strip.test(chars[from])
        invariant
            from <= chars@.len(),
            without_start(chars@.skip(from as int), strip) == without_start(chars@, strip),
        decreases chars@.len() - from,
    {
        assert(chars@.skip(from as int).skip(1) =~= chars@.skip(from + 1));
        from += 1;
    }
    let ghost rest = without_start(chars@, strip);
    assert(rest == chars@.skip(from as int));
    let mut to: usize = chars.len();
    assert(chars@.subrange(from as int, to as int) =~= rest);
    while from < to && strip.test(chars[to - 1])
        invariant
            from <= to <= chars@.len(),
            without_end(chars@.subrange(from as int, to as int), strip) == without_end(rest, strip),
        decreases to,
    {
        assert(chars@.subrange(from as int, to as int).drop_last() =~= chars@.subrange(
            from as int,
            to - 1,
        ));
        to -= 1;
    }
    (from, to)
}

/// `text` without what `strip` takes off both its ends.
pub fn trim(text: &str, strip: CharClass) -> (left: String)
    ensures
        left@ == trimmed(text@, strip),
{
    let chars: Vec<char> = chars_of(text);
    let span: (usize, usize) = trim_span(&chars, strip);
    text_of(&chars, span.0, span.1)
}

/// `text` without what `strip` takes off its start.
pub fn trim_start(text: &str, strip: CharClass) -> (left: String)
    ensures
        left@ == without_start(text@, strip),
{
    let chars: Vec<char> = chars_of(text);
    let span: (usize, usize) = trim_span(&chars, strip);
    let left: String = text_of(&chars, span.0, chars.len());
    assert(left@ =~= chars@.skip(span.0 as int));
    left
}

/// The first position at or after `from` that holds white space, or the length.
pub open spec fn space_from(text: Seq<char>, from: int) -> int
    decreases text.len() - from,
{
    if from >= text.len() {
        text.len() as int
    } else if is_space(text[from]) {
        from
    } else {
        space_from(text, from + 1)
    }
}

/// Where the first white space stands.
pub proof fn lemma_space_from(text: Seq<char>, from: int)
    requires
        0 <= from <= text.len(),
    ensures
        from <= space_from(text, from) <= text.len(),
        from < text.len() && !is_space(text[from]) ==> from < space_from(text, from),
    decreases text.len() - from,
{
    if from < text.len() && !is_space(text[from]) {
        lemma_space_from(text, from + 1);
    }
}

/// The first word of `text` and what follows it; both empty when there is none.
pub open spec fn first_word(text: Seq<char>) -> (Seq<char>, Seq<char>) {
    let rest = without_start(text, CharClass::Space);
    let end: int = space_from(rest, 0);
    (rest.take(end), rest.skip(end))
}

/// The first word of `text` and what follows it; both empty when there is none.
pub fn take_word(text: &str) -> (word: (String, String))
    ensures
        (word.0@, word.1@) == first_word(text@),
{
    let chars: Vec<char> = chars_of(text);
    let span: (usize, usize) = trim_span(&chars, CharClass::Space);
    let from: usize = span.0;
    let ghost rest = chars@.skip(from as int);
    let mut end: usize = from;
    proof {
        lemma_space_from(rest, 0);
    }
    while end < chars.len() && !space(chars[end])
        invariant
            from <= end <= chars@.len(),
            rest == chars@.skip(from as int),
            space_from(rest, 0) == space_from(rest, end - from),
        decreases chars@.len() - end,
    {
        assert(rest[end - from] == chars@[end as int]);
        end += 1;
    }
    let word: String = text_of(&chars, from, end);
    let after: String = text_of(&chars, end, chars.len());
    proof {
        assert(end < chars@.len() ==> rest[end - from] == chars@[end as int]);
        assert(word@ =~= rest.take(end - from));
        assert(after@ =~= rest.skip(end - from));
    }
    (word, after)
}

/// Where the parts between the characters of a class start and end, empty ones among
/// them, from the `i`th character on and up to `end`; `start` is where the current part
/// began.
pub open spec fn parts_from(
    text: Seq<char>,
    class: CharClass,
    start: int,
    i: int,
    end: int,
) -> Seq<(int, int)>
    decreases end - i,
{
    if i >= end {
        seq![(start, end)]
    } else if class.takes(text[i]) {
        seq![(start, i)] + parts_from(text, class, i + 1, i + 1, end)
    } else {
        parts_from(text, class, start, i + 1, end)
    }
}

/// Where the parts of a stretch of text between the characters of a class start and end.
pub open spec fn parts_of(text: Seq<char>, class: CharClass, from: int, end: int) -> Seq<
    (int, int),
> {
    parts_from(text, class, from, from, end)
}

/// What a list of parts says.
pub open spec fn parts_view(list: Seq<(usize, usize)>) -> Seq<(int, int)> {
    Seq::new(list.len(), |i: int| (list[i].0 as int, list[i].1 as int))
}

/// Where the parts of a stretch of text between the characters of a class start and end.
pub fn split_parts(chars: &Vec<char>, class: CharClass, from: usize, end: usize) -> (list: Vec<
    (usize, usize),
>)
    requires
        from <= end <= chars@.len(),
    ensures
        parts_view(list@) == parts_of(chars@, class, from as int, end as int),
        forall|i: int|
            0 <= i < list@.len() ==> from <= (#[trigger] list@[i]).0 <= list@[i].1 <= end,
{
    let ghost all = parts_of(chars@, class, from as int, end as int);
    let mut list: Vec<(usize, usize)> = Vec::new();
    let mut start: usize = from;
    let mut i: usize = from;
    assert(parts_view(list@) + all =~= all);
    while i < end
        invariant
            end <= chars@.len(),
            from <= start <= i <= end,
            parts_view(list@) + parts_from(chars@, class, start as int, i as int, end as int)
                == all,
            forall|j: int|
                0 <= j < list@.len() ==> from <= (#[trigger] list@[j]).0 <= list@[j].1 <= end,
        decreases end - i,
    {
        if class.test(chars[i]) {
            let ghost before = parts_view(list@);
            let ghost rest = parts_from(chars@, class, i + 1, i + 1, end as int);
            list.push((start, i));
            proof {
                assert(parts_view(list@) =~= before.push((start as int, i as int)));
                assert(before + (seq![(start as int, i as int)] + rest) =~= parts_view(list@)
                    + rest);
            }
            start = i + 1;
        }
        i += 1;
    }
    let ghost before = parts_view(list@);
    list.push((start, end));
    proof {
        assert(parts_view(list@) =~= before.push((start as int, end as int)));
        assert(before + seq![(start as int, end as int)] =~= parts_view(list@));
    }
    list
}

/// The lower-case form of an ASCII letter; anything else as it is.
pub open spec fn ascii_lower(c: char) -> char {
    if 'A' <= c && c <= 'Z' {
        ((c as int) + 32) as char
    } else {
        c
    }
}

/// `text` with its ASCII letters in lower case.
pub open spec fn ascii_lowered(text: Seq<char>) -> Seq<char> {
    Seq::new(text.len(), |i: int| ascii_lower(text[i]))
}

/// The lower-case form of an ASCII letter; anything else as it is.
pub fn lower_char(c: char) -> (lower: char)
    ensures
        lower == ascii_lower(c),
{
    if 'A' <= c && c <= 'Z' {
        ((c as u8) + 32) as char
    } else {
        c
    }
}

/// `text` with its ASCII letters in lower case.
pub fn to_ascii_lowercase(text: &str) -> (lower: String)
    ensures
        lower@ == ascii_lowered(text@),
{
    let chars: Vec<char> = chars_of(text);
    let mut lower: String = String::new();
    let mut i: usize = 0;
    while i < chars.len()
        invariant
            chars@ == text@,
            i <= chars@.len(),
            lower@ == ascii_lowered(text@).take(i as int),
        decreases chars@.len() - i,
    {
        assert(ascii_lowered(text@).take(i + 1) =~= ascii_lowered(text@).take(i as int).push(
            ascii_lower(text@[i as int]),
        ));
        lower.push(lower_char(chars[i]));
        i += 1;
    }
    assert(ascii_lowered(text@).take(i as int) =~= ascii_lowered(text@));
    lower
}

} // verus!
