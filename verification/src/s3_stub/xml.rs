//! XML escaping and the comparison form of an ETag.

use vstd::prelude::*;

use crate::text::{chars_of, strip_prefix, without_prefix};
use crate::trim::{trim, trimmed, CharClass};

verus! {

/// How one character stands in an XML text.
pub open spec fn xml_char(c: char) -> Seq<char> {
    if c == '&' {
        "&amp;"@
    } else if c == '<' {
        "&lt;"@
    } else if c == '>' {
        "&gt;"@
    } else if c == '"' {
        "&quot;"@
    } else {
        seq![c]
    }
}

/// How a text stands in an XML text.
pub open spec fn xml_escaped(text: Seq<char>) -> Seq<char>
    decreases text.len(),
{
    if text.len() == 0 {
        Seq::empty()
    } else {
        xml_escaped(text.drop_last()) + xml_char(text.last())
    }
}

/// How a text stands in an XML text.
pub fn escape_xml(value: &str) -> (escaped: String)
    ensures
        escaped@ == xml_escaped(value@),
{
    let chars: Vec<char> = chars_of(value);
    let mut escaped: String = String::new();
    let mut i: usize = 0;
    assert(value@.take(0) =~= Seq::<char>::empty());
    while i < chars.len()
        invariant
            chars@ == value@,
            i <= chars@.len(),
            escaped@ == xml_escaped(value@.take(i as int)),
        decreases chars@.len() - i,
    {
        proof {
            assert(value@.take(i + 1).drop_last() =~= value@.take(i as int));
            assert(value@.take(i + 1).last() == chars@[i as int]);
        }
        let c: char = chars[i];
        if c == '&' {
            escaped.append("&amp;");
        } else if c == '<' {
            escaped.append("&lt;");
        } else if c == '>' {
            escaped.append("&gt;");
        } else if c == '"' {
            escaped.append("&quot;");
        } else {
            let ghost before = escaped@;
            escaped.push(c);
            assert(escaped@ =~= before + seq![c]);
        }
        i += 1;
    }
    assert(value@.take(i as int) =~= value@);
    escaped
}

/// Whether a sequence of characters holds none that needs escaping.
pub open spec fn needs_no_escape(text: Seq<char>) -> bool {
    forall|i: int|
        0 <= i < text.len() ==> {
            let c = #[trigger] text[i];
            c != '<' && c != '>' && c != '"'
        }
}

/// An escaped text holds no character that would end an XML text or attribute.
pub proof fn law_escaped_text_is_inert(text: Seq<char>)
    ensures
        needs_no_escape(xml_escaped(text)),
    decreases text.len(),
{
    reveal_strlit("&amp;");
    reveal_strlit("&lt;");
    reveal_strlit("&gt;");
    reveal_strlit("&quot;");
    if text.len() > 0 {
        law_escaped_text_is_inert(text.drop_last());
    }
}

/// An ETag without its weakness mark and its quotes: what two ETags are compared
/// by.
pub open spec fn bare_etag(value: Seq<char>) -> Seq<char> {
    let inner = trimmed(value, CharClass::Space);
    let strong = match without_prefix(inner, "W/"@) {
        Some(rest) => rest,
        None => inner,
    };
    trimmed(strong, CharClass::Char('"'))
}

/// An ETag without its weakness mark and its quotes.
pub fn normalize_etag(value: &str) -> (bare: String)
    ensures
        bare@ == bare_etag(value@),
{
    let inner: String = trim(value, CharClass::Space);
    let strong: String = match strip_prefix(inner.as_str(), "W/") {
        Some(rest) => rest,
        None => inner,
    };
    trim(strong.as_str(), CharClass::Char('"'))
}

} // verus!
