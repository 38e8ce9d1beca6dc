//! The analyzer that pages are indexed with, and queries therefore too.
//!
//! Splitting on what is not alphanumeric leaves a Chinese sentence without
//! punctuation as one term, which nobody ever types. So a run of CJK characters is
//! split further: every character is a term, and so is every adjacent pair, both at
//! the position of their first character. A run of other letters and digits stays
//! one lower-cased term, unless it is too long to be a word.

use vstd::prelude::*;

use crate::text::{chars_of, lemma_texts_push, texts};
use crate::unicode::{
    alphanumeric, byte_len, is_alphanumeric, lemma_offset_between, lower, lower_of, lowered,
    offset, offsets_of,
};

verus! {

/// Name the analyzer is registered under.
pub const TOKENIZER_NAME: &'static str = "cjk";

/// A run of letters and digits is a term when it takes fewer bytes than this, as it
/// stands, before it is lower-cased.
pub const MAX_LATIN_TOKEN_BYTES: usize = 40;

/// One term of a text, and where it stands.
#[derive(Debug)]
pub struct Token {
    /// First byte of the text it was made of.
    pub offset_from: usize,
    /// First byte behind it.
    pub offset_to: usize,
    /// Position in the stream, by which phrases are matched.
    pub position: usize,
    /// The term.
    pub text: String,
    /// Positions it covers.
    pub position_length: usize,
}

/// What a `Token` says.
pub struct TokenView {
    pub offset_from: nat,
    pub offset_to: nat,
    pub position: int,
    pub text: Seq<char>,
    pub position_length: nat,
}

impl View for Token {
    type V = TokenView;

    open spec fn view(&self) -> TokenView {
        TokenView {
            offset_from: self.offset_from as nat,
            offset_to: self.offset_to as nat,
            position: self.position as int,
            text: self.text@,
            position_length: self.position_length as nat,
        }
    }
}

/// What a list of tokens says.
pub open spec fn tokens_view(tokens: Seq<Token>) -> Seq<TokenView> {
    Seq::new(tokens.len(), |i: int| tokens[i]@)
}

/// How a character is indexed.
#[derive(Debug, Clone, Copy, PartialEq, Eq, Structural)]
pub enum Script {
    /// Not at all: it separates terms.
    Boundary,
    /// As part of a word.
    Latin,
    /// On its own and in pairs.
    Cjk,
}

/// Whether a character lies in a block that is split into single characters and
/// pairs: hiragana and katakana, the unified ideographs with their extensions and
/// compatibility forms, hangul syllables and compatibility jamo, and halfwidth
/// katakana.
pub open spec fn cjk_block(c: char) -> bool {
    let n = c as int;
    ||| 0x3040 <= n <= 0x30ff
    ||| 0x3400 <= n <= 0x4dbf
    ||| 0x4e00 <= n <= 0x9fff
    ||| 0xf900 <= n <= 0xfaff
    ||| 0x20000 <= n <= 0x2fa1f
    ||| 0x30000 <= n <= 0x323af
    ||| 0x3130 <= n <= 0x318f
    ||| 0xac00 <= n <= 0xd7af
    ||| 0xff66 <= n <= 0xff9f
}

/// Whether a character lies in a block that is split into single characters and
/// pairs.
pub fn is_cjk(c: char) -> (found: bool)
    ensures
        found == cjk_block(c),
{
    let n: u32 = crate::text::code_point(c);
    (0x3040 <= n && n <= 0x30ff) || (0x3400 <= n && n <= 0x4dbf) || (0x4e00 <= n && n <= 0x9fff)
        || (0xf900 <= n && n <= 0xfaff) || (0x20000 <= n && n <= 0x2fa1f) || (0x30000 <= n && n
        <= 0x323af) || (0x3130 <= n && n <= 0x318f) || (0xac00 <= n && n <= 0xd7af) || (0xff66 <= n
        && n <= 0xff9f)
}

/// How a character is indexed, given whether it is alphanumeric. What is not is a
/// boundary, whatever block it lies in.
pub open spec fn kind(c: char, alphanumeric: bool) -> Script {
    if !alphanumeric {
        Script::Boundary
    } else if cjk_block(c) {
        Script::Cjk
    } else {
        Script::Latin
    }
}

/// How a character is indexed, given whether it is alphanumeric.
pub fn kind_of(c: char, alphanumeric: bool) -> (s: Script)
    ensures
        s == kind(c, alphanumeric),
{
    if !alphanumeric {
        Script::Boundary
    } else if is_cjk(c) {
        Script::Cjk
    } else {
        Script::Latin
    }
}

/// How a character is indexed.
pub open spec fn script(c: char) -> Script {
    kind(c, is_alphanumeric(c))
}

/// How a character is indexed.
pub fn script_of(c: char) -> (s: Script)
    ensures
        s == script(c),
{
    kind_of(c, alphanumeric(c))
}

/// The first place at or after `i` whose character is indexed otherwise than `s`
/// says, or the end.
pub open spec fn run_end(text: Seq<char>, i: int, s: Script) -> int
    decreases text.len() - i,
{
    if 0 <= i < text.len() && script(text[i]) == s {
        run_end(text, i + 1, s)
    } else {
        i
    }
}

/// The end of a run lies behind its start, and all that lies between is of its kind.
pub proof fn lemma_run_end(text: Seq<char>, i: int, s: Script)
    requires
        0 <= i <= text.len(),
    ensures
        i <= run_end(text, i, s) <= text.len(),
        i < text.len() && script(text[i]) == s ==> i < run_end(text, i, s),
        forall|j: int| i <= j < run_end(text, i, s) ==> script(#[trigger] text[j]) == s,
        run_end(text, i, s) < text.len() ==> script(text[run_end(text, i, s)]) != s,
        forall|j: int|
            i <= j <= run_end(text, i, s) ==> #[trigger] run_end(text, j, s) == run_end(
                text,
                i,
                s,
            ),
    decreases text.len() - i,
{
    if i < text.len() && script(text[i]) == s {
        lemma_run_end(text, i + 1, s);
    }
}

/// The term for the characters from `i` up to `e`.
pub open spec fn term(
    text: Seq<char>,
    i: int,
    e: int,
    position: int,
    spelling: Seq<char>,
) -> TokenView {
    TokenView {
        offset_from: offset(text, i),
        offset_to: offset(text, e),
        position,
        text: spelling,
        position_length: 1,
    }
}

/// The terms of a run of letters and digits: itself, unless it is too long.
pub open spec fn latin_terms(text: Seq<char>, i: int, e: int, position: int) -> Seq<TokenView> {
    if byte_len(text.subrange(i, e)) < MAX_LATIN_TOKEN_BYTES {
        seq![term(text, i, e, position, lowered(text.subrange(i, e)))]
    } else {
        Seq::empty()
    }
}

/// The terms of a run of CJK characters: each character, then each adjacent pair.
pub open spec fn cjk_terms(text: Seq<char>, i: int, e: int, position: int) -> Seq<TokenView> {
    Seq::new(
        (e - i) as nat,
        |k: int| term(text, i + k, i + k + 1, position + k, lower(text[i + k])),
    ) + Seq::new(
        (e - i - 1) as nat,
        |k: int|
            term(
                text,
                i + k,
                i + k + 2,
                position + k,
                lower(text[i + k]) + lower(text[i + k + 1]),
            ),
    )
}

/// The terms of a run.
pub open spec fn run_terms(
    text: Seq<char>,
    i: int,
    e: int,
    position: int,
    s: Script,
) -> Seq<TokenView> {
    match s {
        Script::Boundary => Seq::empty(),
        Script::Latin => latin_terms(text, i, e, position),
        Script::Cjk => cjk_terms(text, i, e, position),
    }
}

/// How many positions a run takes. A run that is too long to be a term takes its
/// position all the same.
pub open spec fn run_positions(i: int, e: int, s: Script) -> int {
    match s {
        Script::Boundary => 0,
        Script::Latin => 1,
        Script::Cjk => e - i,
    }
}

/// The terms of a text from its `i`th character on, the next one at `position`.
pub open spec fn terms_from(text: Seq<char>, i: int, position: int) -> Seq<TokenView>
    decreases text.len() - i,
{
    if 0 <= i < text.len() {
        let s = script(text[i]);
        let e = run_end(text, i, s);
        proof {
            lemma_run_end(text, i, s);
        }
        run_terms(text, i, e, position, s) + terms_from(
            text,
            e,
            position + run_positions(i, e, s),
        )
    } else {
        Seq::empty()
    }
}

/// The terms of a text.
pub open spec fn terms(text: Seq<char>) -> Seq<TokenView> {
    terms_from(text, 0, 0)
}

// ---- The terms, given what is known of the characters -----------------------------------------

/// The first place at or after `i` that is of another kind than `s`, or the end.
pub open spec fn kind_end(kinds: Seq<Script>, i: int, s: Script) -> int
    decreases kinds.len() - i,
{
    if 0 <= i < kinds.len() && kinds[i] == s {
        kind_end(kinds, i + 1, s)
    } else {
        i
    }
}

/// The end of a run lies behind its start, and is found from every place in it.
pub proof fn lemma_kind_end(kinds: Seq<Script>, i: int, s: Script)
    requires
        0 <= i <= kinds.len(),
    ensures
        i <= kind_end(kinds, i, s) <= kinds.len(),
        i < kinds.len() && kinds[i] == s ==> i < kind_end(kinds, i, s),
        forall|j: int|
            i <= j <= kind_end(kinds, i, s) ==> #[trigger] kind_end(kinds, j, s) == kind_end(
                kinds,
                i,
                s,
            ),
    decreases kinds.len() - i,
{
    if i < kinds.len() && kinds[i] == s {
        lemma_kind_end(kinds, i + 1, s);
    }
}

/// Forms one behind the other.
pub open spec fn joined(forms: Seq<Seq<char>>) -> Seq<char>
    decreases forms.len(),
{
    if forms.len() == 0 {
        Seq::empty()
    } else {
        joined(forms.drop_last()) + forms.last()
    }
}

/// The terms of a run, given the lower-case forms of the characters.
pub open spec fn known_run(
    text: Seq<char>,
    forms: Seq<Seq<char>>,
    i: int,
    e: int,
    position: int,
    s: Script,
) -> Seq<TokenView> {
    match s {
        Script::Boundary => Seq::empty(),
        Script::Latin => if byte_len(text.subrange(i, e)) < MAX_LATIN_TOKEN_BYTES {
            seq![term(text, i, e, position, joined(forms.subrange(i, e)))]
        } else {
            Seq::empty()
        },
        Script::Cjk => Seq::new(
            (e - i) as nat,
            |k: int| term(text, i + k, i + k + 1, position + k, forms[i + k]),
        ) + Seq::new(
            (e - i - 1) as nat,
            |k: int|
                term(
                    text,
                    i + k,
                    i + k + 2,
                    position + k,
                    forms[i + k] + forms[i + k + 1],
                ),
        ),
    }
}

/// The terms of a text from its `i`th character on, the next one at `position`, given how
/// each character is indexed and its lower-case form.
pub open spec fn known_terms(
    text: Seq<char>,
    kinds: Seq<Script>,
    forms: Seq<Seq<char>>,
    i: int,
    position: int,
) -> Seq<TokenView>
    decreases kinds.len() - i,
{
    if 0 <= i < kinds.len() {
        let s = kinds[i];
        let e = kind_end(kinds, i, s);
        proof {
            lemma_kind_end(kinds, i, s);
        }
        known_run(text, forms, i, e, position, s) + known_terms(
            text,
            kinds,
            forms,
            e,
            position + run_positions(i, e, s),
        )
    } else {
        Seq::empty()
    }
}

fn push_token(tokens: &mut Vec<Token>, from: usize, to: usize, position: usize, text: String)
    ensures
        tokens_view(final(tokens)@) == tokens_view(old(tokens)@).push(
            TokenView {
                offset_from: from as nat,
                offset_to: to as nat,
                position: position as int,
                text: text@,
                position_length: 1,
            },
        ),
{
    let ghost before = tokens@;
    let token: Token = Token {
        offset_from: from,
        offset_to: to,
        position,
        text,
        position_length: 1,
    };
    tokens.push(token);
    assert(tokens_view(tokens@) =~= tokens_view(before).push(token@));
}

/// Whether `offsets` are the byte offsets of `text`.
spec fn are_offsets(offsets: Seq<usize>, text: Seq<char>) -> bool {
    &&& offsets.len() == text.len() + 1
    &&& forall|i: int| 0 <= i <= text.len() ==> #[trigger] offsets[i] == offset(text, i)
}

/// The forms from `from` up to `to`, one behind the other.
fn join_forms(forms: &Vec<String>, from: usize, to: usize) -> (text: String)
    requires
        from <= to <= forms@.len(),
    ensures
        text@ == joined(texts(forms@).subrange(from as int, to as int)),
{
    let ghost all = texts(forms@);
    let mut text: String = String::new();
    let mut i: usize = from;
    while i < to
        invariant
            all == texts(forms@),
            from <= i <= to <= forms@.len(),
            text@ == joined(all.subrange(from as int, i as int)),
        decreases to - i,
    {
        proof {
            let next = all.subrange(from as int, i + 1);
            assert(next.drop_last() =~= all.subrange(from as int, i as int));
            assert(next.last() == forms@[i as int]@);
        }
        text.append(forms[i].as_str());
        i += 1;
    }
    text
}

/// Adds the terms of a run of CJK characters.
fn push_cjk(
    tokens: &mut Vec<Token>,
    Ghost(chars): Ghost<Seq<char>>,
    forms: &Vec<String>,
    offsets: &Vec<usize>,
    from: usize,
    to: usize,
    position: usize,
)
    requires
        from < to <= chars.len(),
        forms@.len() == chars.len(),
        are_offsets(offsets@, chars),
        position + (to - from) <= usize::MAX,
    ensures
        tokens_view(final(tokens)@) == tokens_view(old(tokens)@) + known_run(
            chars,
            texts(forms@),
            from as int,
            to as int,
            position as int,
            Script::Cjk,
        ),
{
    let count: usize = forms.len();
    let ghost before = tokens_view(tokens@);
    let ghost owed = known_run(
        chars,
        texts(forms@),
        from as int,
        to as int,
        position as int,
        Script::Cjk,
    );
    let mut k: usize = 0;
    assert(before + owed.take(0) =~= before);
    while k < to - from
        invariant
            from < to <= chars.len(),
            count == chars.len(),
            forms@.len() == count,
            are_offsets(offsets@, chars),
            position + (to - from) <= usize::MAX,
            k <= to - from,
            owed == known_run(
                chars,
                texts(forms@),
                from as int,
                to as int,
                position as int,
                Script::Cjk,
            ),
            tokens_view(tokens@) == before + owed.take(k as int),
        decreases to - from - k,
    {
        let at: usize = from + k;
        let spelling: String = forms[at].clone();
        push_token(tokens, offsets[at], offsets[at + 1], position + k, spelling);
        assert(before + owed.take(k + 1) =~= (before + owed.take(k as int)).push(owed[k as int]));
        k += 1;
    }
    let run: usize = to - from;
    let mut j: usize = 0;
    while j < run - 1
        invariant
            from < to <= chars.len(),
            count == chars.len(),
            forms@.len() == count,
            are_offsets(offsets@, chars),
            position + (to - from) <= usize::MAX,
            run == to - from,
            j <= run - 1,
            owed == known_run(
                chars,
                texts(forms@),
                from as int,
                to as int,
                position as int,
                Script::Cjk,
            ),
            tokens_view(tokens@) == before + owed.take(run + j),
        decreases run - 1 - j,
    {
        let at: usize = from + j;
        let mut spelling: String = forms[at].clone();
        spelling.append(forms[at + 1].as_str());
        push_token(tokens, offsets[at], offsets[at + 2], position + j, spelling);
        assert(before + owed.take(run + j + 1) =~= (before + owed.take(run + j)).push(
            owed[run + j],
        ));
        j += 1;
    }
    assert(owed.take(run + j) =~= owed);
}

/// Splits a text into terms, given how each of its characters is indexed and the lower-case
/// form of each.
pub fn tokenize_known(text: &str, kinds: &Vec<Script>, forms: &Vec<String>) -> (tokens: Vec<Token>)
    requires
        kinds@.len() == text@.len(),
        forms@.len() == text@.len(),
    ensures
        tokens_view(tokens@) == known_terms(text@, kinds@, texts(forms@), 0, 0),
{
    let chars: Vec<char> = chars_of(text);
    let offsets: Vec<usize> = offsets_of(text, &chars);
    let count: usize = chars.len();
    let ghost spelled = texts(forms@);
    let ghost all = known_terms(text@, kinds@, spelled, 0, 0);
    let mut tokens: Vec<Token> = Vec::new();
    let mut position: usize = 0;
    let mut i: usize = 0;
    assert(tokens_view(tokens@) + all =~= all);
    while i < count
        invariant
            chars@ == text@,
            count == chars@.len(),
            kinds@.len() == count,
            forms@.len() == count,
            spelled == texts(forms@),
            are_offsets(offsets@, text@),
            i <= count,
            position <= i,
            tokens_view(tokens@) + known_terms(
                text@,
                kinds@,
                spelled,
                i as int,
                position as int,
            ) == all,
        decreases count - i,
    {
        let s: Script = kinds[i];
        let mut e: usize = i + 1;
        proof {
            lemma_kind_end(kinds@, i as int, s);
        }
        while e < count && kinds[e] == s
            invariant
                count == kinds@.len(),
                i < e <= count,
                kind_end(kinds@, e as int, s) == kind_end(kinds@, i as int, s),
            decreases count - e,
        {
            e += 1;
        }
        assert(e == kind_end(kinds@, i as int, s));
        let ghost before = tokens_view(tokens@);
        let ghost owed = known_run(text@, spelled, i as int, e as int, position as int, s);
        let ghost rest = known_terms(
            text@,
            kinds@,
            spelled,
            e as int,
            position + run_positions(i as int, e as int, s),
        );
        match s {
            Script::Boundary => {
                assert(before + owed =~= before);
            },
            Script::Latin => {
                proof {
                    lemma_offset_between(text@, i as int, e as int);
                }
                if offsets[e] - offsets[i] < MAX_LATIN_TOKEN_BYTES {
                    let spelling: String = join_forms(forms, i, e);
                    push_token(&mut tokens, offsets[i], offsets[e], position, spelling);
                    assert(before + owed =~= before.push(owed[0]));
                } else {
                    assert(before + owed =~= before);
                }
                position += 1;
            },
            Script::Cjk => {
                push_cjk(&mut tokens, Ghost(text@), forms, &offsets, i, e, position);
                position += e - i;
            },
        }
        assert(tokens_view(tokens@) == before + owed);
        assert(before + (owed + rest) =~= (before + owed) + rest);
        i = e;
    }
    assert(tokens_view(tokens@) + known_terms(
        text@,
        kinds@,
        spelled,
        i as int,
        position as int,
    ) =~= tokens_view(tokens@));
    tokens
}

/// How the characters of a text are indexed.
pub open spec fn kinds_of(text: Seq<char>) -> Seq<Script> {
    Seq::new(text.len(), |i: int| script(text[i]))
}

/// The lower-case forms of the characters of a text.
pub open spec fn forms_of(text: Seq<char>) -> Seq<Seq<char>> {
    Seq::new(text.len(), |i: int| lower(text[i]))
}

proof fn lemma_kinds_end(text: Seq<char>, i: int, s: Script)
    requires
        0 <= i <= text.len(),
    ensures
        kind_end(kinds_of(text), i, s) == run_end(text, i, s),
    decreases text.len() - i,
{
    if i < text.len() && script(text[i]) == s {
        lemma_kinds_end(text, i + 1, s);
    }
}

proof fn lemma_joined(text: Seq<char>)
    ensures
        joined(forms_of(text)) == lowered(text),
    decreases text.len(),
{
    if text.len() > 0 {
        lemma_joined(text.drop_last());
        assert(forms_of(text).drop_last() =~= forms_of(text.drop_last()));
    }
}

/// With the kinds and the forms that the characters have, the terms are those of the text.
proof fn lemma_known_terms(text: Seq<char>, i: int, position: int)
    requires
        0 <= i <= text.len(),
    ensures
        known_terms(text, kinds_of(text), forms_of(text), i, position) == terms_from(
            text,
            i,
            position,
        ),
    decreases text.len() - i,
{
    if i < text.len() {
        let kinds = kinds_of(text);
        let forms = forms_of(text);
        let s = script(text[i]);
        let e = run_end(text, i, s);
        assert(kinds[i] == s);
        lemma_run_end(text, i, s);
        lemma_kinds_end(text, i, s);
        lemma_known_terms(text, e, position + run_positions(i, e, s));
        if s == Script::Latin {
            lemma_joined(text.subrange(i, e));
            assert(forms.subrange(i, e) =~= forms_of(text.subrange(i, e)));
        }
        assert(known_run(text, forms, i, e, position, s) =~= run_terms(text, i, e, position, s));
    }
}

/// Splits a text into the terms that the index stores.
pub fn tokenize(text: &str) -> (tokens: Vec<Token>)
    ensures
        tokens_view(tokens@) == terms(text@),
{
    let chars: Vec<char> = chars_of(text);
    let mut kinds: Vec<Script> = Vec::new();
    let mut forms: Vec<String> = Vec::new();
    let mut i: usize = 0;
    while i < chars.len()
        invariant
            chars@ == text@,
            i <= chars@.len(),
            kinds@ =~= kinds_of(text@).take(i as int),
            texts(forms@) =~= forms_of(text@).take(i as int),
        decreases chars@.len() - i,
    {
        kinds.push(script_of(chars[i]));
        let form: String = lower_of(chars[i]);
        proof {
            lemma_texts_push(forms@, form);
        }
        forms.push(form);
        i += 1;
    }
    proof {
        assert(kinds@ =~= kinds_of(text@));
        assert(texts(forms@) =~= forms_of(text@));
        assert(texts(forms@).len() == forms@.len());
        lemma_known_terms(text@, 0, 0);
    }
    tokenize_known(text, &kinds, &forms)
}

// ---- The analyzer -----------------------------------------------------------------------

/// Splits text into CJK characters and pairs, and runs of other letters and digits.
#[derive(Debug, Clone, Copy, Default)]
pub struct CjkTokenizer;

/// The tokens of one text, handed out one by one.
#[derive(Debug)]
pub struct CjkTokenStream {
    /// All tokens.
    pub tokens: Vec<Token>,
    /// How many have been handed out; the current one is the last of them.
    pub cursor: usize,
}

impl CjkTokenizer {
    /// The tokens of a text, none handed out yet.
    pub fn token_stream(&mut self, text: &str) -> (stream: CjkTokenStream)
        ensures
            tokens_view(stream.tokens@) == terms(text@),
            stream.cursor == 0,
            *final(self) == *old(self),
    {
        CjkTokenStream { tokens: tokenize(text), cursor: 0 }
    }
}

impl CjkTokenStream {
    /// Whether the cursor stands on a token or before the first.
    pub open spec fn wf(self) -> bool {
        self.cursor <= self.tokens@.len()
    }

    /// Steps to the next token, if there is one.
    pub fn advance(&mut self) -> (found: bool)
        requires
            old(self).wf(),
        ensures
            final(self).wf(),
            found == (old(self).cursor < old(self).tokens@.len()),
            final(self).tokens == old(self).tokens,
            final(self).cursor == old(self).cursor + (if found {
                1int
            } else {
                0
            }),
    {
        if self.cursor >= self.tokens.len() {
            return false;
        }
        self.cursor = self.cursor + 1;
        true
    }

    /// The current token.
    pub fn token(&self) -> (token: &Token)
        requires
            self.wf(),
            self.cursor > 0,
        ensures
            *token == self.tokens@[self.cursor - 1],
    {
        &self.tokens[self.cursor - 1]
    }
}

// ---- Laws ---------------------------------------------------------------------------------

proof fn lemma_term_from(text: Seq<char>, s: int, position: int, i: int)
    requires
        0 <= s <= i < text.len(),
        script(text[i]) == Script::Cjk,
    ensures
        exists|k: int|
            0 <= k < terms_from(text, s, position).len() && #[trigger] is_character(
                text,
                i,
                terms_from(text, s, position)[k],
            ),
        i + 1 < text.len() && script(text[i + 1]) == Script::Cjk ==> exists|a: int, b: int, p: int|
            holds_pair(text, i, terms_from(text, s, position), a, b, p),
    decreases text.len() - s,
{
    let kind = script(text[s]);
    let e = run_end(text, s, kind);
    lemma_run_end(text, s, kind);
    let next = position + run_positions(s, e, kind);
    let here = run_terms(text, s, e, position, kind);
    let rest = terms_from(text, e, next);
    let all = terms_from(text, s, position);
    assert(all == here + rest);
    if e <= i {
        lemma_term_from(text, e, next, i);
        let k = choose|k: int| 0 <= k < rest.len() && #[trigger] is_character(text, i, rest[k]);
        assert(all[here.len() + k] == rest[k]);
        assert(is_character(text, i, all[here.len() + k]));
        if i + 1 < text.len() && script(text[i + 1]) == Script::Cjk {
            let (a, b, p) = choose|a: int, b: int, p: int| holds_pair(text, i, rest, a, b, p);
            let n = here.len() as int;
            assert(all[n + a] == rest[a]);
            assert(all[n + b] == rest[b]);
            assert(all[n + p] == rest[p]);
            assert(holds_pair(text, i, all, n + a, n + b, n + p));
        }
    } else {
        assert(script(text[i]) == kind);
        let k = i - s;
        assert(all[k] == here[k]);
        assert(is_character(text, i, all[k]));
        if i + 1 < text.len() && script(text[i + 1]) == Script::Cjk {
            assert(i + 1 < e) by {
                if e <= i + 1 {
                    assert(e == i + 1);
                }
            }
            let p = (e - s) + k;
            assert(all[k + 1] == here[k + 1]);
            assert(all[p] == here[p]);
            assert(holds_pair(text, i, all, k, k + 1, p));
        }
    }
}

/// Whether a term is the `i`th character on its own.
pub open spec fn is_character(text: Seq<char>, i: int, t: TokenView) -> bool {
    &&& t.text == lower(text[i])
    &&& t.offset_from == offset(text, i)
    &&& t.offset_to == offset(text, i + 1)
}

/// Whether the terms at `a` and `b` are the `i`th character and the one behind it,
/// at consecutive positions, and the one at `p` is the pair, at the position of the
/// first.
pub open spec fn holds_pair(
    text: Seq<char>,
    i: int,
    all: Seq<TokenView>,
    a: int,
    b: int,
    p: int,
) -> bool {
    &&& 0 <= a < all.len() && is_character(text, i, all[a])
    &&& 0 <= b < all.len() && is_character(text, i + 1, all[b])
    &&& 0 <= p < all.len()
    &&& all[b].position == all[a].position + 1
    &&& all[p].position == all[a].position
    &&& all[p].text == lower(text[i]) + lower(text[i + 1])
    &&& all[p].offset_from == offset(text, i)
    &&& all[p].offset_to == offset(text, i + 2)
}

/// Every CJK character of a text is a term of it.
pub proof fn law_every_cjk_character_is_a_term(text: Seq<char>, i: int)
    requires
        0 <= i < text.len(),
        script(text[i]) == Script::Cjk,
    ensures
        exists|k: int|
            0 <= k < terms(text).len() && #[trigger] is_character(text, i, terms(text)[k]),
{
    assert(terms(text) == terms_from(text, 0, 0));
    lemma_term_from(text, 0, 0, i);
}

/// Every adjacent pair of CJK characters is a term, at the position of the first of
/// them, and the two characters stand at consecutive positions.
pub proof fn law_every_cjk_pair_is_a_term(text: Seq<char>, i: int)
    requires
        0 <= i < text.len() - 1,
        script(text[i]) == Script::Cjk,
        script(text[i + 1]) == Script::Cjk,
    ensures
        exists|a: int, b: int, p: int| holds_pair(text, i, terms(text), a, b, p),
{
    assert(terms(text) == terms_from(text, 0, 0));
    lemma_term_from(text, 0, 0, i);
}

/// Whether the characters from `i` up to `e` are a word: a longest run of letters and
/// digits outside the CJK blocks.
pub open spec fn is_word(text: Seq<char>, i: int, e: int) -> bool {
    &&& 0 <= i < e <= text.len()
    &&& forall|j: int| i <= j < e ==> script(#[trigger] text[j]) == Script::Latin
    &&& i > 0 ==> script(text[i - 1]) != Script::Latin
    &&& e < text.len() ==> script(text[e]) != Script::Latin
}

/// Whether a term is the run of characters from `i` up to `e`, lower-cased.
pub open spec fn is_run(text: Seq<char>, i: int, e: int, t: TokenView) -> bool {
    &&& t.text == lowered(text.subrange(i, e))
    &&& t.offset_from == offset(text, i)
    &&& t.offset_to == offset(text, e)
}

proof fn lemma_word_from(text: Seq<char>, s: int, position: int, i: int, e: int)
    requires
        0 <= s <= i,
        is_word(text, i, e),
        byte_len(text.subrange(i, e)) < MAX_LATIN_TOKEN_BYTES,
    ensures
        exists|k: int|
            0 <= k < terms_from(text, s, position).len() && #[trigger] is_run(
                text,
                i,
                e,
                terms_from(text, s, position)[k],
            ),
    decreases text.len() - s,
{
    let kind = script(text[s]);
    let end = run_end(text, s, kind);
    lemma_run_end(text, s, kind);
    let next = position + run_positions(s, end, kind);
    let here = run_terms(text, s, end, position, kind);
    let rest = terms_from(text, end, next);
    let all = terms_from(text, s, position);
    if end <= i {
        lemma_word_from(text, end, next, i, e);
        let k = choose|k: int| 0 <= k < rest.len() && #[trigger] is_run(text, i, e, rest[k]);
        assert(all[here.len() + k] == rest[k]);
        assert(is_run(text, i, e, all[here.len() + k]));
    } else {
        assert(script(text[i]) == kind);
        if s < i {
            assert(script(text[i - 1]) == kind);
        }
        assert(s == i);
        if end < e {
            assert(script(text[end]) == Script::Latin);
        }
        if e < end {
            assert(script(text[e]) == kind);
        }
        assert(end == e);
        assert(all[0] == here[0]);
        assert(is_run(text, i, e, all[0]));
    }
}

/// A word that is short enough is one term, lower-cased.
pub proof fn law_a_word_is_one_term(text: Seq<char>, i: int, e: int)
    requires
        is_word(text, i, e),
        byte_len(text.subrange(i, e)) < MAX_LATIN_TOKEN_BYTES,
    ensures
        exists|k: int|
            0 <= k < terms(text).len() && #[trigger] is_run(text, i, e, terms(text)[k]),
{
    assert(terms(text) == terms_from(text, 0, 0));
    lemma_word_from(text, 0, 0, i, e);
}

/// The spellings of terms, whatever their places.
pub open spec fn spellings(list: Seq<TokenView>) -> Seq<Seq<char>> {
    Seq::new(list.len(), |i: int| list[i].text)
}

proof fn lemma_spellings_concat(a: Seq<TokenView>, b: Seq<TokenView>)
    ensures
        spellings(a + b) == spellings(a) + spellings(b),
{
    assert(spellings(a + b) =~= spellings(a) + spellings(b));
}

proof fn lemma_same_run(
    a: Seq<char>,
    i: int,
    p: int,
    b: Seq<char>,
    j: int,
    q: int,
    n: int,
    s: Script,
)
    requires
        0 <= i,
        0 <= j,
        0 < n,
        i + n <= a.len(),
        j + n <= b.len(),
        a.subrange(i, i + n) == b.subrange(j, j + n),
    ensures
        spellings(run_terms(a, i, i + n, p, s)) == spellings(run_terms(b, j, j + n, q, s)),
{
    let left = a.subrange(i, i + n);
    let right = b.subrange(j, j + n);
    let x = spellings(run_terms(a, i, i + n, p, s));
    let y = spellings(run_terms(b, j, j + n, q, s));
    assert forall|m: int| 0 <= m < x.len() implies x[m] == y[m] by {
        if s == Script::Cjk {
            if m < n {
                assert(left[m] == a[i + m] && right[m] == b[j + m]);
            } else {
                let k = m - n;
                assert(left[k] == a[i + k] && right[k] == b[j + k]);
                assert(left[k + 1] == a[i + k + 1] && right[k + 1] == b[j + k + 1]);
            }
        }
    }
    assert(x =~= y);
}

/// A boundary yields nothing: the terms are those behind it.
proof fn lemma_skip_boundary(text: Seq<char>, i: int, p: int, q: int)
    requires
        0 <= i < text.len(),
        script(text[i]) == Script::Boundary,
    ensures
        spellings(terms_from(text, i, p)) == spellings(terms_from(text, i + 1, q)),
    decreases text.len() - i,
{
    let e = run_end(text, i, Script::Boundary);
    lemma_run_end(text, i, Script::Boundary);
    assert(terms_from(text, i, p) =~= terms_from(text, e, p));
    lemma_any_position(text, e, p, q);
    if e > i + 1 {
        assert(script(text[i + 1]) == Script::Boundary);
        assert(terms_from(text, i + 1, q) =~= terms_from(text, e, q));
    }
}

/// The spellings do not depend on the position that the count starts at.
proof fn lemma_any_position(text: Seq<char>, i: int, p: int, q: int)
    requires
        0 <= i <= text.len(),
    ensures
        spellings(terms_from(text, i, p)) == spellings(terms_from(text, i, q)),
    decreases text.len() - i,
{
    if i < text.len() {
        let s = script(text[i]);
        let e = run_end(text, i, s);
        lemma_run_end(text, i, s);
        let d = run_positions(i, e, s);
        lemma_any_position(text, e, p + d, q + d);
        lemma_same_run(text, i, p, text, i, q, e - i, s);
        lemma_spellings_concat(run_terms(text, i, e, p, s), terms_from(text, e, p + d));
        lemma_spellings_concat(run_terms(text, i, e, q, s), terms_from(text, e, q + d));
    }
}

proof fn lemma_run_end_shift(text: Seq<char>, n: int, i: int, s: Script)
    requires
        0 <= n <= text.len(),
        0 <= i <= text.len() - n,
    ensures
        run_end(text, n + i, s) == n + run_end(text.skip(n), i, s),
    decreases text.len() - n - i,
{
    if i < text.len() - n {
        assert(text.skip(n)[i] == text[n + i]);
        if script(text[n + i]) == s {
            lemma_run_end_shift(text, n, i + 1, s);
        }
    }
}

/// What comes before does not matter, once a run starts there.
proof fn lemma_shift(text: Seq<char>, n: int, i: int, p: int)
    requires
        0 <= n <= text.len(),
        0 <= i <= text.len() - n,
    ensures
        spellings(terms_from(text, n + i, p)) == spellings(terms_from(text.skip(n), i, p)),
    decreases text.len() - n - i,
{
    let tail = text.skip(n);
    if i < tail.len() {
        let s = script(tail[i]);
        assert(tail[i] == text[n + i]);
        let e = run_end(tail, i, s);
        lemma_run_end(tail, i, s);
        lemma_run_end_shift(text, n, i, s);
        let d = run_positions(i, e, s);
        assert(d == run_positions(n + i, n + e, s));
        lemma_shift(text, n, e, p + d);
        assert(text.subrange(n + i, n + e) =~= tail.subrange(i, e));
        lemma_same_run(text, n + i, p, tail, i, p, e - i, s);
        lemma_spellings_concat(run_terms(text, n + i, n + e, p, s), terms_from(text, n + e, p + d));
        lemma_spellings_concat(run_terms(tail, i, e, p, s), terms_from(tail, e, p + d));
    }
}

proof fn lemma_run_end_prefix(a: Seq<char>, b: Seq<char>, i: int, s: Script)
    requires
        0 <= i <= a.len(),
        b.len() > 0,
        script(b[0]) != s,
    ensures
        run_end(a + b, i, s) == run_end(a, i, s),
    decreases a.len() - i,
{
    if i < a.len() {
        assert((a + b)[i] == a[i]);
        if script(a[i]) == s {
            lemma_run_end_prefix(a, b, i + 1, s);
        }
    } else {
        assert((a + b)[i] == b[0]);
    }
}

proof fn lemma_split(a: Seq<char>, b: Seq<char>, i: int, p: int)
    requires
        0 <= i <= a.len(),
        b.len() > 0,
        script(b[0]) == Script::Boundary,
    ensures
        spellings(terms_from(a + b, i, p)) == spellings(terms_from(a, i, p)) + spellings(
            terms_from(b, 0, 0),
        ),
    decreases a.len() - i,
{
    let whole = a + b;
    if i == a.len() {
        assert(whole.skip(i) =~= b);
        lemma_shift(whole, i, 0, p);
        lemma_any_position(b, 0, p, 0);
        assert(spellings(terms_from(a, i, p)) + spellings(terms_from(b, 0, 0)) =~= spellings(
            terms_from(b, 0, 0),
        ));
    } else {
        assert(whole[i] == a[i]);
        let s = script(a[i]);
        if s == Script::Boundary {
            lemma_skip_boundary(whole, i, p, p);
            lemma_skip_boundary(a, i, p, p);
            lemma_split(a, b, i + 1, p);
        } else {
            let e = run_end(a, i, s);
            lemma_run_end(a, i, s);
            lemma_run_end_prefix(a, b, i, s);
            let d = run_positions(i, e, s);
            lemma_split(a, b, e, p + d);
            assert(whole.subrange(i, e) =~= a.subrange(i, e));
            lemma_same_run(whole, i, p, a, i, p, e - i, s);
            lemma_spellings_concat(run_terms(whole, i, e, p, s), terms_from(whole, e, p + d));
            lemma_spellings_concat(run_terms(a, i, e, p, s), terms_from(a, e, p + d));
            assert(spellings(terms_from(a, i, p)) + spellings(terms_from(b, 0, 0)) =~= spellings(
                run_terms(a, i, e, p, s),
            ) + (spellings(terms_from(a, e, p + d)) + spellings(terms_from(b, 0, 0))));
        }
    }
}

proof fn lemma_skip_boundaries(text: Seq<char>, n: int, i: int)
    requires
        0 <= i <= n <= text.len(),
        forall|j: int| 0 <= j < n ==> script(#[trigger] text[j]) == Script::Boundary,
    ensures
        spellings(terms_from(text, i, 0)) == spellings(terms_from(text, n, 0)),
    decreases n - i,
{
    if i < n {
        lemma_skip_boundary(text, i, 0, 0);
        lemma_skip_boundaries(text, n, i + 1);
    }
}

/// Punctuation and white space are boundaries: what stands between two texts, as
/// long as there is something, makes no difference, and each of them yields the terms
/// that it yields alone.
pub proof fn law_boundaries_separate(a: Seq<char>, between: Seq<char>, b: Seq<char>)
    requires
        between.len() > 0,
        forall|j: int|
            0 <= j < between.len() ==> script(#[trigger] between[j]) == Script::Boundary,
    ensures
        spellings(terms(a + between + b)) == spellings(terms(a)) + spellings(terms(b)),
{
    let tail = between + b;
    assert(a + between + b =~= a + tail);
    assert(tail[0] == between[0]);
    lemma_split(a, tail, 0, 0);
    let n: int = between.len() as int;
    assert forall|j: int| 0 <= j < n implies script(#[trigger] tail[j]) == Script::Boundary by {
        assert(tail[j] == between[j]);
    }
    lemma_skip_boundaries(tail, n, 0);
    lemma_shift(tail, n, 0, 0);
    assert(tail.skip(n) =~= b);
}

// ---- Laws by code point -----------------------------------------------------------------------

/// Whether a character is split off on its own: it is alphanumeric and its code point lies
/// in one of the nine ranges.
pub open spec fn stands_alone(c: char) -> bool {
    let n = c as int;
    is_alphanumeric(c) && (0x3040 <= n <= 0x30ff || 0x3130 <= n <= 0x318f || 0x3400 <= n <= 0x4dbf
        || 0x4e00 <= n <= 0x9fff || 0xac00 <= n <= 0xd7af || 0xf900 <= n <= 0xfaff || 0xff66 <= n
        <= 0xff9f || 0x20000 <= n <= 0x2fa1f || 0x30000 <= n <= 0x323af)
}

/// Whether a character is part of a word: it is alphanumeric and its code point lies in
/// none of the nine ranges.
pub open spec fn in_a_word(c: char) -> bool {
    let n = c as int;
    is_alphanumeric(c) && (n < 0x3040 || 0x30ff < n < 0x3130 || 0x318f < n < 0x3400 || 0x4dbf < n
        < 0x4e00 || 0x9fff < n < 0xac00 || 0xd7af < n < 0xf900 || 0xfaff < n < 0xff66 || 0xff9f < n
        < 0x20000 || 0x2fa1f < n < 0x30000 || 0x323af < n)
}

/// Each character is indexed by its code point alone, once it is known to be alphanumeric.
pub proof fn law_the_code_point_decides(c: char)
    ensures
        cjk_block(c) <==> (0x3040 <= c as int <= 0x30ff || 0x3130 <= c as int <= 0x318f || 0x3400
            <= c as int <= 0x4dbf || 0x4e00 <= c as int <= 0x9fff || 0xac00 <= c as int <= 0xd7af
            || 0xf900 <= c as int <= 0xfaff || 0xff66 <= c as int <= 0xff9f || 0x20000 <= c as int
            <= 0x2fa1f || 0x30000 <= c as int <= 0x323af),
        script(c) == Script::Cjk <==> stands_alone(c),
        script(c) == Script::Latin <==> in_a_word(c),
        script(c) == Script::Boundary <==> !is_alphanumeric(c),
        kind(c, false) == Script::Boundary,
{
}

/// Every alphanumeric character of the nine ranges is a term on its own, and with a
/// neighbour of these ranges behind it the two are a term as a pair.
pub proof fn law_every_character_of_the_ranges_is_a_term(text: Seq<char>, i: int)
    requires
        0 <= i < text.len(),
        is_alphanumeric(text[i]),
        0x3040 <= text[i] as int <= 0x30ff || 0x3130 <= text[i] as int <= 0x318f || 0x3400
            <= text[i] as int <= 0x4dbf || 0x4e00 <= text[i] as int <= 0x9fff || 0xac00
            <= text[i] as int <= 0xd7af || 0xf900 <= text[i] as int <= 0xfaff || 0xff66
            <= text[i] as int <= 0xff9f || 0x20000 <= text[i] as int <= 0x2fa1f || 0x30000
            <= text[i] as int <= 0x323af,
    ensures
        exists|k: int|
            0 <= k < terms(text).len() && (#[trigger] terms(text)[k]).text == lower(text[i])
                && terms(text)[k].offset_from == offset(text, i) && terms(text)[k].offset_to
                == offset(text, i + 1),
        i + 1 < text.len() && stands_alone(text[i + 1]) ==> exists|k: int|
            0 <= k < terms(text).len() && (#[trigger] terms(text)[k]).text == lower(text[i])
                + lower(text[i + 1]) && terms(text)[k].offset_from == offset(text, i)
                && terms(text)[k].offset_to == offset(text, i + 2),
{
    law_the_code_point_decides(text[i]);
    law_every_cjk_character_is_a_term(text, i);
    let k = choose|k: int|
        0 <= k < terms(text).len() && #[trigger] is_character(text, i, terms(text)[k]);
    assert(terms(text)[k].text == lower(text[i]));
    if i + 1 < text.len() && stands_alone(text[i + 1]) {
        law_the_code_point_decides(text[i + 1]);
        law_every_cjk_pair_is_a_term(text, i);
        let (a, b, p) = choose|a: int, b: int, p: int| holds_pair(text, i, terms(text), a, b, p);
        assert(terms(text)[p].text == lower(text[i]) + lower(text[i + 1]));
    }
}

/// Whether the characters from `k` up to `e` are a whole word: all of them are part of one,
/// and the characters around them are not.
pub open spec fn whole_word(text: Seq<char>, k: int, e: int) -> bool {
    &&& 0 <= k < e <= text.len()
    &&& forall|j: int| k <= j < e ==> in_a_word(#[trigger] text[j])
    &&& k == 0 || !in_a_word(text[k - 1])
    &&& e == text.len() || !in_a_word(text[e])
}

/// A whole word of fewer than forty bytes is one term, in lower case.
pub proof fn law_every_short_word_is_a_term(text: Seq<char>, k: int, e: int)
    requires
        whole_word(text, k, e),
        byte_len(text.subrange(k, e)) < 40,
    ensures
        exists|m: int|
            0 <= m < terms(text).len() && (#[trigger] terms(text)[m]).text
                == crate::unicode::lowered(text.subrange(k, e)) && terms(text)[m].offset_from
                == offset(text, k) && terms(text)[m].offset_to == offset(text, e),
{
    assert forall|j: int| k <= j < e implies script(#[trigger] text[j]) == Script::Latin by {
        law_the_code_point_decides(text[j]);
    }
    if k > 0 {
        law_the_code_point_decides(text[k - 1]);
    }
    if e < text.len() {
        law_the_code_point_decides(text[e]);
    }
    law_a_word_is_one_term(text, k, e);
    let m = choose|m: int|
        0 <= m < terms(text).len() && #[trigger] is_run(text, k, e, terms(text)[m]);
    assert(terms(text)[m].offset_from == offset(text, k));
}

/// How many positions the characters before the `i`th take: one for each that stands alone,
/// and one for each word, where it starts.
pub open spec fn taken(text: Seq<char>, i: int) -> int
    decreases i,
{
    if i <= 0 {
        0
    } else {
        taken(text, i - 1) + if stands_alone(text[i - 1]) || (in_a_word(text[i - 1]) && (i == 1
            || !in_a_word(text[i - 2]))) {
            1int
        } else {
            0
        }
    }
}

/// Whether a term is what the characters from `k` up to `e` give: one that stands alone, two
/// that do, or a whole word of fewer than forty bytes.
pub open spec fn given_by(text: Seq<char>, t: TokenView, k: int, e: int) -> bool {
    &&& 0 <= k < e <= text.len()
    &&& t.offset_from == offset(text, k)
    &&& t.offset_to == offset(text, e)
    &&& t.position == taken(text, k)
    &&& t.position_length == 1
    &&& {
        ||| e == k + 1 && stands_alone(text[k]) && t.text == lower(text[k])
        ||| e == k + 2 && stands_alone(text[k]) && stands_alone(text[k + 1]) && t.text == lower(
            text[k],
        ) + lower(text[k + 1])
        ||| whole_word(text, k, e) && byte_len(text.subrange(k, e)) < 40 && t.text
            == crate::unicode::lowered(text.subrange(k, e))
    }
}

/// What the characters of a run take, up to its `j`th place.
proof fn lemma_taken(text: Seq<char>, i: int, j: int, e: int, s: Script)
    requires
        0 <= i <= j <= e <= text.len(),
        forall|n: int| i <= n < e ==> script(#[trigger] text[n]) == s,
        i == 0 || i == text.len() || script(text[i - 1]) != script(text[i]),
    ensures
        taken(text, j) == taken(text, i) + (if i < j {
            run_positions(i, j, s)
        } else {
            0
        }),
    decreases j - i,
{
    if i < j {
        lemma_taken(text, i, j - 1, e, s);
        assert(script(text[j - 1]) == s);
        law_the_code_point_decides(text[j - 1]);
        if j >= 2 {
            law_the_code_point_decides(text[j - 2]);
            if i < j - 1 {
                assert(script(text[j - 2]) == s);
            }
        }
    }
}

proof fn lemma_given_from(text: Seq<char>, s: int, m: int)
    requires
        0 <= s <= text.len(),
        s == 0 || s == text.len() || script(text[s - 1]) != script(text[s]),
        0 <= m < terms_from(text, s, taken(text, s)).len(),
    ensures
        exists|k: int, e: int| #[trigger]
            given_by(text, terms_from(text, s, taken(text, s))[m], k, e),
    decreases text.len() - s,
{
    let position = taken(text, s);
    let all = terms_from(text, s, position);
    if s < text.len() {
        let kind = script(text[s]);
        let end = run_end(text, s, kind);
        lemma_run_end(text, s, kind);
        let here = run_terms(text, s, end, position, kind);
        let next = position + run_positions(s, end, kind);
        let rest = terms_from(text, end, next);
        lemma_taken(text, s, end, end, kind);
        if m >= here.len() {
            lemma_given_from(text, end, m - here.len());
            assert(all[m] == rest[m - here.len()]);
        } else {
            assert(all[m] == here[m]);
            match kind {
                Script::Boundary => {},
                Script::Latin => {
                    assert forall|j: int| s <= j < end implies in_a_word(#[trigger] text[j]) by {
                        assert(script(text[j]) == kind);
                        law_the_code_point_decides(text[j]);
                    }
                    if s > 0 {
                        law_the_code_point_decides(text[s - 1]);
                    }
                    if end < text.len() {
                        law_the_code_point_decides(text[end]);
                    }
                    assert(given_by(text, all[m], s, end));
                },
                Script::Cjk => {
                    let run = end - s;
                    if m < run {
                        let k = s + m;
                        assert(script(text[k]) == kind);
                        law_the_code_point_decides(text[k]);
                        lemma_taken(text, s, k, end, kind);
                        assert(given_by(text, all[m], k, k + 1));
                    } else {
                        let k = s + (m - run);
                        assert(script(text[k]) == kind);
                        assert(script(text[k + 1]) == kind);
                        law_the_code_point_decides(text[k]);
                        law_the_code_point_decides(text[k + 1]);
                        lemma_taken(text, s, k, end, kind);
                        assert(given_by(text, all[m], k, k + 2));
                    }
                },
            }
        }
    }
}

/// A text has no other terms: each is a character that stands alone, a pair of neighbours
/// that do, or a whole word of fewer than forty bytes, and its position is the number of
/// positions that the characters before it take.
pub proof fn law_every_term_is_a_character_a_pair_or_a_word(text: Seq<char>, m: int)
    requires
        0 <= m < terms(text).len(),
    ensures
        exists|k: int, e: int| #[trigger] given_by(text, terms(text)[m], k, e),
{
    assert(taken(text, 0) == 0);
    lemma_given_from(text, 0, m);
}

// ---- Laws of order ----------------------------------------------------------------------------

proof fn lemma_whole_run(text: Seq<char>, i: int, s: Script)
    requires
        0 <= i <= text.len(),
        forall|j: int| i <= j < text.len() ==> script(#[trigger] text[j]) == s,
    ensures
        run_end(text, i, s) == text.len(),
    decreases text.len() - i,
{
    if i < text.len() {
        assert(script(text[i]) == s);
        lemma_whole_run(text, i + 1, s);
    }
}

/// A text of characters that stand alone has them all as terms, in order and at one position
/// each, and behind them every pair of neighbours, in order, at the position of its first.
pub proof fn law_characters_come_before_their_pairs(text: Seq<char>, k: int)
    requires
        text.len() > 0,
        forall|j: int| 0 <= j < text.len() ==> stands_alone(#[trigger] text[j]),
    ensures
        terms(text).len() == 2 * text.len() - 1,
        0 <= k < text.len() ==> terms(text)[k].text == lower(text[k]) && terms(text)[k].position
            == k && terms(text)[k].offset_from == offset(text, k) && terms(text)[k].offset_to
            == offset(text, k + 1),
        0 <= k < text.len() - 1 ==> terms(text)[text.len() + k].text == lower(text[k]) + lower(
            text[k + 1],
        ) && terms(text)[text.len() + k].position == k,
{
    assert forall|j: int| 0 <= j < text.len() implies script(#[trigger] text[j])
        == Script::Cjk by {
        law_the_code_point_decides(text[j]);
    }
    assert(script(text[0]) == Script::Cjk);
    lemma_whole_run(text, 0, Script::Cjk);
    let n: int = text.len() as int;
    let here = run_terms(text, 0, n, 0, Script::Cjk);
    let rest = terms_from(text, n, n);
    assert(rest.len() == 0);
    assert(terms(text) == here + rest);
    assert(here + rest =~= here);
}

/// A text that is one word of fewer than forty bytes has one term, at the first position.
pub proof fn law_a_word_alone_is_the_only_term(text: Seq<char>)
    requires
        text.len() > 0,
        forall|j: int| 0 <= j < text.len() ==> in_a_word(#[trigger] text[j]),
    ensures
        byte_len(text) < 40 ==> terms(text) == seq![
            TokenView {
                offset_from: 0,
                offset_to: byte_len(text),
                position: 0,
                text: crate::unicode::lowered(text),
                position_length: 1,
            },
        ],
        byte_len(text) >= 40 ==> terms(text).len() == 0,
{
    assert forall|j: int| 0 <= j < text.len() implies script(#[trigger] text[j])
        == Script::Latin by {
        law_the_code_point_decides(text[j]);
    }
    assert(script(text[0]) == Script::Latin);
    lemma_whole_run(text, 0, Script::Latin);
    let n: int = text.len() as int;
    let here = run_terms(text, 0, n, 0, Script::Latin);
    let rest = terms_from(text, n, 1);
    assert(rest.len() == 0);
    assert(terms(text) == here + rest);
    assert(here + rest =~= here);
    assert(text.subrange(0, n) =~= text);
    assert(text.take(n) =~= text);
    assert(text.take(0) =~= Seq::empty());
    assert(byte_len(Seq::<char>::empty()) == 0);
}

proof fn lemma_run_end_meets(a: Seq<char>, b: Seq<char>, i: int, s: Script)
    requires
        0 <= i <= a.len(),
        a.len() > 0,
        b.len() > 0,
        script(a.last()) != script(b[0]),
        i < a.len() || script(b[0]) != s,
    ensures
        run_end(a + b, i, s) == run_end(a, i, s),
    decreases a.len() - i,
{
    if i < a.len() {
        assert((a + b)[i] == a[i]);
        if script(a[i]) == s {
            if i + 1 == a.len() {
                assert(a[i] == a.last());
            }
            lemma_run_end_meets(a, b, i + 1, s);
        }
    } else {
        assert((a + b)[i] == b[0]);
    }
}

proof fn lemma_meet(a: Seq<char>, b: Seq<char>, i: int, p: int)
    requires
        0 <= i <= a.len(),
        a.len() > 0,
        b.len() > 0,
        script(a.last()) != script(b[0]),
    ensures
        spellings(terms_from(a + b, i, p)) == spellings(terms_from(a, i, p)) + spellings(
            terms_from(b, 0, 0),
        ),
    decreases a.len() - i,
{
    let whole = a + b;
    if i == a.len() {
        assert(whole.skip(i) =~= b);
        lemma_shift(whole, i, 0, p);
        lemma_any_position(b, 0, p, 0);
        assert(spellings(terms_from(a, i, p)) + spellings(terms_from(b, 0, 0)) =~= spellings(
            terms_from(b, 0, 0),
        ));
    } else {
        assert(whole[i] == a[i]);
        let s = script(a[i]);
        let e = run_end(a, i, s);
        lemma_run_end(a, i, s);
        lemma_run_end_meets(a, b, i, s);
        let d = run_positions(i, e, s);
        lemma_meet(a, b, e, p + d);
        assert(whole.subrange(i, e) =~= a.subrange(i, e));
        lemma_same_run(whole, i, p, a, i, p, e - i, s);
        lemma_spellings_concat(run_terms(whole, i, e, p, s), terms_from(whole, e, p + d));
        lemma_spellings_concat(run_terms(a, i, e, p, s), terms_from(a, e, p + d));
        assert(spellings(terms_from(a, i, p)) + spellings(terms_from(b, 0, 0)) =~= spellings(
            run_terms(a, i, e, p, s),
        ) + (spellings(terms_from(a, e, p + d)) + spellings(terms_from(b, 0, 0))));
    }
}

/// Where a character that stands alone meets one of a word, or either meets one that is
/// neither, the terms of what lies before come first, then those of what lies behind.
pub proof fn law_terms_follow_the_text(a: Seq<char>, b: Seq<char>)
    requires
        a.len() > 0,
        b.len() > 0,
        stands_alone(a.last()) != stands_alone(b[0]) || in_a_word(a.last()) != in_a_word(b[0]),
    ensures
        spellings(terms(a + b)) == spellings(terms(a)) + spellings(terms(b)),
{
    law_the_code_point_decides(a.last());
    law_the_code_point_decides(b[0]);
    lemma_meet(a, b, 0, 0);
}

} // verus!
