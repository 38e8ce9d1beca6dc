//! What Unicode says of characters, and the bytes that text takes.

use vstd::prelude::*;
use vstd::utf8::{encode_scalar, encode_utf8};

use crate::text::code_point;

verus! {

/// Whether a character is alphabetic or numeric.
pub uninterp spec fn is_alphanumeric(c: char) -> bool;

/// `char::is_alphanumeric`: whether a character is alphabetic or numeric, by the
/// tables of Unicode.
#[verifier::external_body]
pub(crate) fn alphanumeric(c: char) -> (found: bool)
    ensures
        found == is_alphanumeric(c),
{
    c.is_alphanumeric()
}

/// The lower-case form of a character, which can be several characters.
pub uninterp spec fn lower(c: char) -> Seq<char>;

/// `char::to_lowercase`: the lower-case form of one character on its own.
#[verifier::external_body]
pub(crate) fn lower_of(c: char) -> (text: String)
    ensures
        text@ == lower(c),
{
    c.to_lowercase().to_string()
}

/// The lower-case form of a text as a whole, where a letter's place in its word can
/// matter.
pub uninterp spec fn text_lower(text: Seq<char>) -> Seq<char>;

/// `str::to_lowercase`: the lower-case form of a text.
#[verifier::external_body]
pub(crate) fn text_lower_of(text: &str) -> (lowered: String)
    ensures
        lowered@ == text_lower(text@),
{
    text.to_lowercase()
}

/// The characters of a text in lower case, each on its own.
pub open spec fn lowered(text: Seq<char>) -> Seq<char>
    decreases text.len(),
{
    if text.len() == 0 {
        Seq::empty()
    } else {
        lowered(text.drop_last()) + lower(text.last())
    }
}

/// How many bytes a text takes.
pub open spec fn byte_len(text: Seq<char>) -> nat {
    encode_utf8(text).len()
}

/// How many bytes of a text come before its `i`th character.
pub open spec fn offset(text: Seq<char>, i: int) -> nat {
    byte_len(text.take(i))
}

/// How many bytes a character takes.
pub open spec fn width(c: char) -> nat {
    let n = c as int;
    if n < 0x80 {
        1
    } else if n < 0x800 {
        2
    } else if n < 0x10000 {
        3
    } else {
        4
    }
}

/// How many bytes a character takes.
pub fn width_of(c: char) -> (n: usize)
    ensures
        n == width(c),
{
    let point: u32 = code_point(c);
    if point < 0x80 {
        1
    } else if point < 0x800 {
        2
    } else if point < 0x10000 {
        3
    } else {
        4
    }
}

/// The bytes of a concatenation are the bytes of its parts.
pub proof fn lemma_encode_concat(a: Seq<char>, b: Seq<char>)
    ensures
        encode_utf8(a + b) == encode_utf8(a) + encode_utf8(b),
    decreases a.len(),
{
    if a.len() == 0 {
        assert(a + b =~= b);
        assert(encode_utf8(a) + encode_utf8(b) =~= encode_utf8(b));
    } else {
        lemma_encode_concat(a.drop_first(), b);
        assert((a + b).drop_first() =~= a.drop_first() + b);
        assert((a + b)[0] == a[0]);
        assert(encode_utf8(a + b) =~= encode_utf8(a) + encode_utf8(b));
    }
}

/// One character further, as many bytes further as it takes.
pub proof fn lemma_offset_step(text: Seq<char>, i: int)
    requires
        0 <= i < text.len(),
    ensures
        offset(text, i + 1) == offset(text, i) + width(text[i]),
{
    let one = seq![text[i]];
    lemma_encode_concat(text.take(i), one);
    assert(text.take(i + 1) =~= text.take(i) + one);
    reveal_with_fuel(encode_utf8, 2);
    assert(encode_utf8(one) =~= encode_scalar(one[0] as u32));
    vstd::utf8::char_is_scalar(text[i]);
    vstd::utf8::char_u32_cast(text[i], text[i] as u32);
}

/// The bytes between two places are those of the characters between them.
pub proof fn lemma_offset_between(text: Seq<char>, i: int, j: int)
    requires
        0 <= i <= j <= text.len(),
    ensures
        offset(text, j) == offset(text, i) + byte_len(text.subrange(i, j)),
{
    lemma_encode_concat(text.take(i), text.subrange(i, j));
    assert(text.take(j) =~= text.take(i) + text.subrange(i, j));
}

/// How many bytes come before each character of a text, and before its end.
pub fn offsets_of(text: &str, chars: &Vec<char>) -> (offsets: Vec<usize>)
    requires
        chars@ == text@,
    ensures
        offsets@.len() == text@.len() + 1,
        forall|i: int| 0 <= i <= text@.len() ==> #[trigger] offsets@[i] == offset(text@, i),
{
    let bytes: Vec<u8> = text.as_bytes_vec();
    let total: usize = bytes.len();
    let mut offsets: Vec<usize> = Vec::new();
    let mut at: usize = 0;
    let mut i: usize = 0;
    offsets.push(at);
    assert(text@.take(0) =~= Seq::empty());
    while i < chars.len()
        invariant
            chars@ == text@,
            i <= chars@.len(),
            total == byte_len(text@),
            at == offset(text@, i as int),
            offsets@.len() == i + 1,
            forall|j: int| 0 <= j <= i ==> #[trigger] offsets@[j] == offset(text@, j),
        decreases chars@.len() - i,
    {
        proof {
            lemma_offset_step(text@, i as int);
            lemma_offset_between(text@, i + 1, text@.len() as int);
            assert(text@.take(text@.len() as int) =~= text@);
        }
        at = at + width_of(chars[i]);
        i += 1;
        offsets.push(at);
    }
    offsets
}

/// How many bytes a text takes.
pub fn byte_len_of(text: &str) -> (n: usize)
    ensures
        n == byte_len(text@),
{
    text.as_bytes_vec().len()
}

/// The lower-case form of a text, letter by letter, is that of its parts one behind the
/// other, and that of one letter alone is the letter's.
pub proof fn law_letters_are_lowered_one_by_one(a: Seq<char>, b: Seq<char>, c: char)
    ensures
        lowered(a + b) == lowered(a) + lowered(b),
        lowered(seq![c]) == lower(c),
        lowered(Seq::<char>::empty()).len() == 0,
    decreases b.len(),
{
    assert(seq![c].drop_last() =~= Seq::empty());
    reveal_with_fuel(lowered, 2);
    assert(lowered(seq![c]) =~= lower(c));
    if b.len() == 0 {
        assert(a + b =~= a);
        assert(lowered(a) + lowered(b) =~= lowered(a));
    } else {
        law_letters_are_lowered_one_by_one(a, b.drop_last(), c);
        assert((a + b).drop_last() =~= a + b.drop_last());
        assert((a + b).last() == b.last());
        assert(lowered(a + b) =~= lowered(a) + lowered(b));
    }
}

/// A character takes one byte below 128, two below 2,048, three below 65,536, and four above.
pub proof fn law_the_bytes_of_a_character(text: Seq<char>, i: int)
    requires
        0 <= i < text.len(),
    ensures
        (text[i] as int) < 128 ==> offset(text, i + 1) == offset(text, i) + 1,
        128 <= text[i] as int && (text[i] as int) < 2048 ==> offset(text, i + 1) == offset(text, i)
            + 2,
        2048 <= text[i] as int && (text[i] as int) < 65536 ==> offset(text, i + 1) == offset(
            text,
            i,
        ) + 3,
        65536 <= text[i] as int ==> offset(text, i + 1) == offset(text, i) + 4,
{
    lemma_offset_step(text, i);
}

} // verus!
