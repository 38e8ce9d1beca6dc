//! Text as sequences of characters: comparing, searching, cutting and ordering.

use vstd::prelude::*;

verus! {

/// `String::push`: appends one character at the end.
pub assume_specification[ String::push ](text: &mut String, c: char)
    ensures
        final(text)@ == old(text)@.push(c),
;

/// The characters of a text, in order.
pub fn chars_of(text: &str) -> (chars: Vec<char>)
    ensures
        chars@ == text@,
{
    let mut chars: Vec<char> = Vec::new();
    for c in it: text.chars()
        invariant
            chars@ == text@.take(it.index()),
            it.seq() == text@,
    {
        assert(text@.take(it.index() + 1) == text@.take(it.index()).push(c));
        chars.push(c);
    }
    assert(text@.take(text@.len() as int) == text@);
    chars
}

/// The text spelled by the characters from `from` up to `to`.
pub fn text_of(chars: &Vec<char>, from: usize, to: usize) -> (text: String)
    requires
        from <= to <= chars@.len(),
    ensures
        text@ == chars@.subrange(from as int, to as int),
{
    let mut text: String = String::new();
    let mut i: usize = from;
    while i < to
        invariant
            from <= i <= to <= chars@.len(),
            text@ == chars@.subrange(from as int, i as int),
        decreases to - i,
    {
        assert(chars@.subrange(from as int, i + 1) == chars@.subrange(from as int, i as int).push(
            chars@[i as int],
        ));
        text.push(chars[i]);
        i += 1;
    }
    text
}

/// The code point of a character.
pub fn code_point(c: char) -> (n: u32)
    ensures
        n as int == c as int,
{
    c as u32
}

/// Whether two texts are the same.
pub fn same_text(a: &str, b: &str) -> (same: bool)
    ensures
        same == (a@ == b@),
{
    let left: Vec<char> = chars_of(a);
    let right: Vec<char> = chars_of(b);
    if left.len() != right.len() {
        return false;
    }
    let mut i: usize = 0;
    while i < left.len()
        invariant
            left@ == a@,
            right@ == b@,
            left@.len() == right@.len(),
            i <= left@.len(),
            forall|j: int| 0 <= j < i ==> left@[j] == right@[j],
        decreases left@.len() - i,
    {
        if left[i] != right[i] {
            return false;
        }
        i += 1;
    }
    assert(a@ =~= b@);
    true
}

/// How `{:?}` spells a text: quoted, with what needs it escaped.
pub uninterp spec fn quoted(text: Seq<char>) -> Seq<char>;

/// `<str as Debug>::fmt`, by way of `format!` with `{:?}`: the quoted and escaped
/// spelling of a text.
#[verifier::external_body]
pub(crate) fn quoted_text(text: &str) -> (spelled: String)
    ensures
        spelled@ == quoted(text@),
{
    format!("{text:?}")
}

/// The characters of an optional text.
pub open spec fn opt_text(text: Option<String>) -> Option<Seq<char>> {
    match text {
        Some(t) => Some(t@),
        None => None,
    }
}

/// Whether two optional texts are the same.
pub fn same_opt_text(a: &Option<String>, b: &Option<String>) -> (same: bool)
    ensures
        same == (opt_text(*a) == opt_text(*b)),
{
    match (a, b) {
        (Some(x), Some(y)) => same_text(x.as_str(), y.as_str()),
        (None, None) => true,
        _ => false,
    }
}

// ---- Order -------------------------------------------------------------------

/// Code point order: the first difference decides, and a proper prefix comes
/// first.
pub open spec fn lex_less(a: Seq<char>, b: Seq<char>) -> bool
    decreases a.len(),
{
    if b.len() == 0 {
        false
    } else if a.len() == 0 {
        true
    } else if a[0] != b[0] {
        (a[0] as int) < (b[0] as int)
    } else {
        lex_less(a.skip(1), b.skip(1))
    }
}

/// No text comes before itself.
pub proof fn lemma_lex_irreflexive(a: Seq<char>)
    ensures
        !lex_less(a, a),
    decreases a.len(),
{
    if a.len() > 0 {
        lemma_lex_irreflexive(a.skip(1));
    }
}

/// Of two different texts one comes before the other.
pub proof fn lemma_lex_total(a: Seq<char>, b: Seq<char>)
    ensures
        a != b ==> lex_less(a, b) || lex_less(b, a),
    decreases a.len(),
{
    if a.len() == 0 || b.len() == 0 {
        if a.len() == b.len() {
            assert(a =~= b);
        }
    } else if a[0] == b[0] {
        lemma_lex_total(a.skip(1), b.skip(1));
        if a.skip(1) == b.skip(1) {
            assert(a =~= seq![a[0]] + a.skip(1));
            assert(b =~= seq![b[0]] + b.skip(1));
        }
    }
}

/// The order of texts is transitive.
pub proof fn lemma_lex_transitive(a: Seq<char>, b: Seq<char>, c: Seq<char>)
    requires
        lex_less(a, b),
        lex_less(b, c),
    ensures
        lex_less(a, c),
    decreases a.len(),
{
    if a.len() > 0 && b.len() > 0 && c.len() > 0 && a[0] == b[0] && b[0] == c[0] {
        lemma_lex_transitive(a.skip(1), b.skip(1), c.skip(1));
    }
}

/// Two texts cannot each come before the other.
pub proof fn lemma_lex_asymmetric(a: Seq<char>, b: Seq<char>)
    requires
        lex_less(a, b),
    ensures
        !lex_less(b, a),
        a != b,
{
    lemma_lex_irreflexive(a);
    if lex_less(b, a) {
        lemma_lex_transitive(a, b, a);
    }
}

/// Whether `a` comes before `b` in code point order.
pub fn comes_before(a: &str, b: &str) -> (before: bool)
    ensures
        before == lex_less(a@, b@),
{
    let left: Vec<char> = chars_of(a);
    let right: Vec<char> = chars_of(b);
    let mut i: usize = 0;
    assert(a@.skip(0) =~= a@ && b@.skip(0) =~= b@);
    while i < left.len() && i < right.len()
        invariant
            left@ == a@,
            right@ == b@,
            i <= a@.len(),
            i <= b@.len(),
            lex_less(a@, b@) == lex_less(a@.skip(i as int), b@.skip(i as int)),
        decreases left@.len() - i,
    {
        let ghost ra = a@.skip(i as int);
        let ghost rb = b@.skip(i as int);
        assert(ra[0] == left@[i as int] && rb[0] == right@[i as int]);
        if left[i] != right[i] {
            return left[i] < right[i];
        }
        assert(ra.skip(1) =~= a@.skip(i + 1));
        assert(rb.skip(1) =~= b@.skip(i + 1));
        i += 1;
    }
    i < right.len()
}

// ---- Searching and cutting -----------------------------------------------------

/// The first position at or after `from` that holds `c`, or the length.
pub open spec fn find_from(text: Seq<char>, c: char, from: int) -> int
    decreases text.len() - from,
{
    if from >= text.len() {
        text.len() as int
    } else if text[from] == c {
        from
    } else {
        find_from(text, c, from + 1)
    }
}

/// What `find_from` finds: nothing before it holds the character.
pub proof fn lemma_find_from(text: Seq<char>, c: char, from: int)
    requires
        0 <= from <= text.len(),
    ensures
        from <= find_from(text, c, from) <= text.len(),
        find_from(text, c, from) < text.len() ==> text[find_from(text, c, from)] == c,
        forall|j: int| from <= j < find_from(text, c, from) ==> text[j] != c,
    decreases text.len() - from,
{
    if from < text.len() && text[from] != c {
        lemma_find_from(text, c, from + 1);
    }
}

/// The first position at or after `from` that holds `c`, or the length.
pub fn find_char(chars: &Vec<char>, c: char, from: usize) -> (at: usize)
    requires
        from <= chars@.len(),
    ensures
        at == find_from(chars@, c, from as int),
        from <= at <= chars@.len(),
        at < chars@.len() ==> chars@[at as int] == c,
{
    proof {
        lemma_find_from(chars@, c, from as int);
    }
    let mut i: usize = from;
    while i < chars.len()
        invariant
            from <= i <= chars@.len(),
            find_from(chars@, c, from as int) == find_from(chars@, c, i as int),
        decreases chars@.len() - i,
    {
        if chars[i] == c {
            return i;
        }
        i += 1;
    }
    i
}

/// Whether `text` holds the character `c`.
pub fn contains_char(text: &str, c: char) -> (found: bool)
    ensures
        found == text@.contains(c),
{
    let chars: Vec<char> = chars_of(text);
    let at: usize = find_char(&chars, c, 0);
    proof {
        lemma_find_from(chars@, c, 0);
        if at < chars@.len() {
            assert(text@[at as int] == c);
        }
    }
    at < chars.len()
}

/// What stands before and after the first `c`, when there is one.
pub open spec fn split_first(text: Seq<char>, c: char) -> Option<(Seq<char>, Seq<char>)> {
    let at: int = find_from(text, c, 0);
    if at < text.len() {
        Some((text.take(at), text.skip(at + 1)))
    } else {
        None
    }
}

/// What stands before and after the first `c`, when there is one.
pub fn split_once(text: &str, c: char) -> (parts: Option<(String, String)>)
    ensures
        match parts {
            Some((before, after)) => split_first(text@, c) == Some((before@, after@)),
            None => split_first(text@, c) is None,
        },
{
    let chars: Vec<char> = chars_of(text);
    let at: usize = find_char(&chars, c, 0);
    if at < chars.len() {
        let before: String = text_of(&chars, 0, at);
        let after: String = text_of(&chars, at + 1, chars.len());
        assert(before@ == text@.take(at as int));
        assert(after@ == text@.skip(at + 1));
        Some((before, after))
    } else {
        None
    }
}

/// The pieces between the occurrences of `c`, empty ones included.
pub open spec fn split_all(text: Seq<char>, c: char) -> Seq<Seq<char>>
    decreases text.len(),
{
    let at: int = find_from(text, c, 0);
    if 0 <= at < text.len() {
        seq![text.take(at)] + split_all(text.skip(at + 1), c)
    } else {
        seq![text]
    }
}

/// The character sequences of a list of texts.
pub open spec fn texts(list: Seq<String>) -> Seq<Seq<char>> {
    Seq::new(list.len(), |i: int| list[i]@)
}

/// Pushing a text pushes its characters.
pub proof fn lemma_texts_push(list: Seq<String>, item: String)
    ensures
        texts(list.push(item)) == texts(list).push(item@),
{
    assert(texts(list.push(item)) =~= texts(list).push(item@));
}

/// Searching a suffix is searching the whole from where the suffix starts.
pub proof fn lemma_find_from_skip(text: Seq<char>, c: char, start: int, from: int)
    requires
        0 <= start,
        0 <= from,
        start + from <= text.len(),
    ensures
        find_from(text.skip(start), c, from) + start == find_from(text, c, start + from),
    decreases text.len() - from,
{
    if start + from < text.len() && text[start + from] != c {
        lemma_find_from_skip(text, c, start, from + 1);
    }
}

/// The pieces between the occurrences of `c`, empty ones included.
pub fn split_on(text: &str, c: char) -> (pieces: Vec<String>)
    ensures
        texts(pieces@) == split_all(text@, c),
{
    let chars: Vec<char> = chars_of(text);
    let mut pieces: Vec<String> = Vec::new();
    let mut start: usize = 0;
    assert(text@.skip(0) =~= text@);
    assert(texts(pieces@) + split_all(text@, c) =~= split_all(text@, c));
    loop
        invariant
            chars@ == text@,
            start <= chars@.len(),
            texts(pieces@) + split_all(text@.skip(start as int), c) == split_all(text@, c),
        decreases chars@.len() + 1 - start,
    {
        let ghost rest = text@.skip(start as int);
        let at: usize = find_char(&chars, c, start);
        proof {
            lemma_find_from_skip(text@, c, start as int, 0);
        }
        let piece: String = text_of(&chars, start, at);
        let ghost before = pieces@;
        let ghost spelled = piece@;
        pieces.push(piece);
        proof {
            lemma_texts_push(before, piece);
            assert(spelled =~= rest.take(at - start));
        }
        if at == chars.len() {
            assert(rest.take(at - start) =~= rest);
            assert(texts(pieces@) =~= texts(before) + seq![rest]);
            return pieces;
        }
        assert(rest.skip(at - start + 1) =~= text@.skip(at + 1));
        assert(texts(pieces@) + split_all(text@.skip(at + 1), c) =~= texts(before) + (seq![
            rest.take(at - start),
        ] + split_all(text@.skip(at + 1), c)));
        start = at + 1;
    }
}

/// Whether `text` starts with `prefix`.
pub open spec fn has_prefix(text: Seq<char>, prefix: Seq<char>) -> bool {
    prefix.len() <= text.len() && text.take(prefix.len() as int) == prefix
}

/// Whether `text` ends with `suffix`.
pub open spec fn has_suffix(text: Seq<char>, suffix: Seq<char>) -> bool {
    suffix.len() <= text.len() && text.skip(text.len() - suffix.len()) == suffix
}

/// Whether the characters of `part` stand in `whole` at `at`.
pub open spec fn stands_at(whole: Seq<char>, part: Seq<char>, at: int) -> bool {
    0 <= at && at + part.len() <= whole.len() && whole.subrange(at, at + part.len()) == part
}

/// Whether the characters of `part` stand in `whole` at `at`.
pub fn matches_at(whole: &Vec<char>, part: &Vec<char>, at: usize) -> (found: bool)
    requires
        at <= whole@.len(),
    ensures
        found == stands_at(whole@, part@, at as int),
{
    if part.len() > whole.len() - at {
        return false;
    }
    assert(whole.len() <= usize::MAX);
    let mut i: usize = 0;
    while i < part.len()
        invariant
            at + part@.len() <= whole@.len() <= usize::MAX,
            i <= part@.len(),
            forall|j: int| 0 <= j < i ==> whole@[at + j] == part@[j],
        decreases part@.len() - i,
    {
        if whole[at + i] != part[i] {
            assert(whole@.subrange(at as int, at + part@.len())[i as int] != part@[i as int]);
            return false;
        }
        i += 1;
    }
    assert(whole@.subrange(at as int, at + part@.len()) =~= part@);
    true
}

/// Whether `text` starts with `prefix`.
pub fn starts_with(text: &str, prefix: &str) -> (found: bool)
    ensures
        found == has_prefix(text@, prefix@),
{
    let whole: Vec<char> = chars_of(text);
    let part: Vec<char> = chars_of(prefix);
    assert(part@.len() <= whole@.len() ==> whole@.subrange(0, part@.len() as int) =~= whole@.take(
        part@.len() as int,
    ));
    matches_at(&whole, &part, 0)
}

/// Whether `text` ends with `suffix`.
pub fn ends_with(text: &str, suffix: &str) -> (found: bool)
    ensures
        found == has_suffix(text@, suffix@),
{
    let whole: Vec<char> = chars_of(text);
    let part: Vec<char> = chars_of(suffix);
    if part.len() > whole.len() {
        return false;
    }
    let at: usize = whole.len() - part.len();
    assert(whole@.subrange(at as int, whole@.len() as int) =~= whole@.skip(at as int));
    matches_at(&whole, &part, at)
}

/// The rest of `text` after `prefix`, when it starts with it.
pub open spec fn without_prefix(text: Seq<char>, prefix: Seq<char>) -> Option<Seq<char>> {
    if has_prefix(text, prefix) {
        Some(text.skip(prefix.len() as int))
    } else {
        None
    }
}

/// The rest of `text` after `prefix`, when it starts with it.
pub fn strip_prefix(text: &str, prefix: &str) -> (rest: Option<String>)
    ensures
        opt_text(rest) == without_prefix(text@, prefix@),
{
    if starts_with(text, prefix) {
        let chars: Vec<char> = chars_of(text);
        let part: Vec<char> = chars_of(prefix);
        let rest: String = text_of(&chars, part.len(), chars.len());
        assert(rest@ =~= text@.skip(prefix@.len() as int));
        Some(rest)
    } else {
        None
    }
}

/// The part of `text` before `suffix`, when it ends with it.
pub open spec fn without_suffix(text: Seq<char>, suffix: Seq<char>) -> Option<Seq<char>> {
    if has_suffix(text, suffix) {
        Some(text.take(text.len() - suffix.len()))
    } else {
        None
    }
}

/// The part of `text` before `suffix`, when it ends with it.
pub fn strip_suffix(text: &str, suffix: &str) -> (rest: Option<String>)
    ensures
        opt_text(rest) == without_suffix(text@, suffix@),
{
    if ends_with(text, suffix) {
        let chars: Vec<char> = chars_of(text);
        let part: Vec<char> = chars_of(suffix);
        let rest: String = text_of(&chars, 0, chars.len() - part.len());
        assert(rest@ =~= text@.take(text@.len() - suffix@.len()));
        Some(rest)
    } else {
        None
    }
}

/// The first place at or after `from` where `part` stands, when there is one.
pub open spec fn part_from(text: Seq<char>, part: Seq<char>, from: int) -> Option<int>
    decreases text.len() + 1 - from,
{
    if from < 0 || from > text.len() {
        None
    } else if stands_at(text, part, from) {
        Some(from)
    } else {
        part_from(text, part, from + 1)
    }
}

/// What `part_from` finds: the part stands there, and nowhere before.
pub proof fn lemma_part_from(text: Seq<char>, part: Seq<char>, from: int)
    requires
        0 <= from <= text.len(),
    ensures
        match part_from(text, part, from) {
            Some(at) => from <= at && stands_at(text, part, at) && forall|j: int|
                from <= j < at ==> !#[trigger] stands_at(text, part, j),
            None => forall|j: int| from <= j ==> !#[trigger] stands_at(text, part, j),
        },
    decreases text.len() + 1 - from,
{
    if !stands_at(text, part, from) && from < text.len() {
        lemma_part_from(text, part, from + 1);
    } else {
        assert(part_from(text, part, from + 1) is None || from < text.len());
    }
}

/// The first place at or after `from` where `part` stands, when there is one.
pub fn find_part(chars: &Vec<char>, part: &str, from: usize) -> (at: Option<usize>)
    requires
        from <= chars@.len(),
    ensures
        match at {
            Some(i) => part_from(chars@, part@, from as int) == Some(i as int) && from <= i && i
                + part@.len() <= chars@.len(),
            None => part_from(chars@, part@, from as int) is None,
        },
{
    let wanted: Vec<char> = chars_of(part);
    let mut i: usize = from;
    loop
        invariant
            wanted@ == part@,
            from <= i <= chars@.len(),
            part_from(chars@, part@, from as int) == part_from(chars@, part@, i as int),
        decreases chars@.len() + 1 - i,
    {
        if matches_at(chars, &wanted, i) {
            return Some(i);
        }
        if i == chars.len() {
            assert(part_from(chars@, part@, i + 1) is None);
            return None;
        }
        i += 1;
    }
}

/// Whether `part` stands somewhere in `text`.
pub open spec fn has_part(text: Seq<char>, part: Seq<char>) -> bool {
    exists|at: int| #[trigger] stands_at(text, part, at)
}

/// Whether `part` stands somewhere in `text`.
pub fn contains_text(text: &str, part: &str) -> (found: bool)
    ensures
        found == has_part(text@, part@),
{
    let whole: Vec<char> = chars_of(text);
    let wanted: Vec<char> = chars_of(part);
    let mut at: usize = 0;
    loop
        invariant
            whole@ == text@,
            wanted@ == part@,
            at <= whole@.len(),
            forall|j: int| 0 <= j < at ==> !stands_at(text@, part@, j),
        decreases whole@.len() + 1 - at,
    {
        if matches_at(&whole, &wanted, at) {
            return true;
        }
        if at == whole.len() {
            return false;
        }
        at += 1;
    }
}

} // verus!
