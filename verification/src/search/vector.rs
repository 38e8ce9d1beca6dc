//! The vector stream: dense embeddings as one more list to fuse.
//!
//! It only ever adds candidates behind the direct streams, and a page whose similarity is
//! not positive is no candidate at all. The numbers are IEEE 754 single precision; here
//! they are kept as their bits, which is what a split stores.

use vstd::prelude::*;

use crate::little_endian::{
    lemma_bases, lemma_value_back, lemma_value_bound, read, spelled, value, write_u32,
};
use crate::numbers::{decimal, decimal_text, number, parse_number};
use crate::search::compile::{blank, is_blank};
use crate::sort::{
    in_order, law_sorting_orders_the_same_items, sort, stable_sorted, Ranked,
};
use crate::text::{quoted, quoted_text};
use crate::trim::{trim, trimmed, CharClass};

verus! {

/// Width of an embedding where none is configured.
pub const DEFAULT_DIM: usize = 1536;

/// The width that an environment variable sets, given its value.
pub fn embedding_dim(raw: &Option<String>) -> (dim: Result<usize, String>)
    ensures
        match *raw {
            Some(text) => if blank(text@) {
                dim == Ok::<usize, String>(DEFAULT_DIM)
            } else {
                match number(trimmed(text@, CharClass::Space), 10, usize::MAX as nat) {
                    Some(n) => if n == 0 {
                        dim matches Err(why) && why@
                            == "QM_EMBEDDING_DIM must not be zero: a zero-width embedding cannot be compared"@
                    } else {
                        dim matches Ok(d) && d == n
                    },
                    None => dim matches Err(why) && why@
                        == "QM_EMBEDDING_DIM must be a positive integer, got "@ + quoted(text@),
                }
            },
            None => dim == Ok::<usize, String>(DEFAULT_DIM),
        },
{
    let text: &String = match raw {
        Some(text) => text,
        None => {
            return Ok(DEFAULT_DIM);
        },
    };
    if is_blank(text.as_str()) {
        return Ok(DEFAULT_DIM);
    }
    let bare: String = trim(text.as_str(), CharClass::Space);
    match parse_number(bare.as_str(), 10) {
        Some(n) => if n == 0 {
            Err(
                "QM_EMBEDDING_DIM must not be zero: a zero-width embedding cannot be compared".to_owned(),
            )
        } else {
            Ok(n)
        },
        None => {
            let mut why: String = "QM_EMBEDDING_DIM must be a positive integer, got ".to_owned();
            why.append(quoted_text(text.as_str()).as_str());
            Err(why)
        },
    }
}

// ---- What a provider owes ----------------------------------------------------------------------

/// The first place at or after `from` whose width is another, or the count.
pub open spec fn odd_one(widths: Seq<usize>, dim: usize, from: int) -> int
    decreases widths.len() - from,
{
    if 0 <= from < widths.len() && widths[from] == dim {
        odd_one(widths, dim, from + 1)
    } else {
        from
    }
}

/// Whether a provider kept its contract: one vector for each input, each of the width that
/// is configured. A breach is an error, never a vector that is cut or filled up.
pub fn check_vectors(widths: &Vec<usize>, inputs: usize, dim: usize) -> (kept: Result<(), String>)
    ensures
        ({
            let at = odd_one(widths@, dim, 0);
            if widths@.len() != inputs {
                kept matches Err(why) && why@ == "the embedding provider returned "@ + decimal(
                    widths@.len(),
                ) + " vector(s) for "@ + decimal(inputs as nat) + " input(s)"@
            } else if at < widths@.len() {
                kept matches Err(why) && why@ == "the embedding provider returned a "@ + decimal(
                    widths@[at] as nat,
                ) + "-wide vector at position "@ + decimal(at as nat)
                    + ", but its configured width is "@ + decimal(dim as nat)
            } else {
                kept is Ok
            }
        }),
        kept is Ok <==> widths@.len() == inputs && forall|i: int|
            0 <= i < widths@.len() ==> widths@[i] == dim,
{
    if widths.len() != inputs {
        let mut why: String = "the embedding provider returned ".to_owned();
        why.append(decimal_text(widths.len() as u64).as_str());
        why.append(" vector(s) for ");
        why.append(decimal_text(inputs as u64).as_str());
        why.append(" input(s)");
        return Err(why);
    }
    let mut i: usize = 0;
    while i < widths.len()
        invariant
            widths@.len() == inputs,
            i <= widths@.len(),
            odd_one(widths@, dim, 0) == odd_one(widths@, dim, i as int),
            forall|j: int| 0 <= j < i ==> widths@[j] == dim,
        decreases widths@.len() - i,
    {
        if widths[i] != dim {
            let mut why: String = "the embedding provider returned a ".to_owned();
            why.append(decimal_text(widths[i] as u64).as_str());
            why.append("-wide vector at position ");
            why.append(decimal_text(i as u64).as_str());
            why.append(", but its configured width is ");
            why.append(decimal_text(dim as u64).as_str());
            return Err(why);
        }
        i += 1;
    }
    Ok(())
}

// ---- Bytes -------------------------------------------------------------------------------------

/// The bytes of an embedding: four for each number, the least significant first.
pub open spec fn encoded(embedding: Seq<u32>) -> Seq<u8>
    decreases embedding.len(),
{
    if embedding.len() == 0 {
        Seq::empty()
    } else {
        encoded(embedding.drop_last()) + spelled(embedding.last() as nat, 4)
    }
}

/// The numbers that bytes spell, four bytes for each.
pub open spec fn decoded(bytes: Seq<u8>) -> Seq<u32> {
    Seq::new(bytes.len() / 4, |i: int| value(bytes.subrange(4 * i, 4 * i + 4)) as u32)
}

/// Encodes an embedding. A split is portable, so the order of the bytes is fixed.
pub fn encode(embedding: &Vec<u32>) -> (bytes: Vec<u8>)
    ensures
        bytes@ == encoded(embedding@),
{
    let mut bytes: Vec<u8> = Vec::new();
    let mut i: usize = 0;
    assert(embedding@.take(0) =~= Seq::empty());
    while i < embedding.len()
        invariant
            i <= embedding@.len(),
            bytes@ == encoded(embedding@.take(i as int)),
        decreases embedding@.len() - i,
    {
        assert(embedding@.take(i + 1).drop_last() =~= embedding@.take(i as int));
        write_u32(&mut bytes, embedding[i]);
        i += 1;
    }
    assert(embedding@.take(i as int) =~= embedding@);
    bytes
}

/// Decodes what `encode` wrote. Bytes that are left over are an error, not dropped.
pub fn decode(bytes: &Vec<u8>) -> (embedding: Result<Vec<u32>, String>)
    ensures
        match embedding {
            Ok(list) => bytes@.len() % 4 == 0 && list@ == decoded(bytes@),
            Err(why) => bytes@.len() % 4 != 0 && why@ == "embedded vector has "@ + decimal(
                bytes@.len(),
            ) + " byte(s), which is not a whole number of f32 values"@,
        },
{
    let len: usize = bytes.len();
    if len % 4 != 0 {
        let mut why: String = "embedded vector has ".to_owned();
        why.append(decimal_text(len as u64).as_str());
        why.append(" byte(s), which is not a whole number of f32 values");
        return Err(why);
    }
    let mut list: Vec<u32> = Vec::new();
    let mut i: usize = 0;
    while i < len / 4
        invariant
            len == bytes@.len(),
            len % 4 == 0,
            i <= len / 4,
            list@ == decoded(bytes@).take(i as int),
        decreases len / 4 - i,
    {
        proof {
            lemma_value_bound(bytes@.subrange(4 * i, 4 * i + 4));
            lemma_bases();
        }
        let number: u64 = read(bytes.as_slice(), 4 * i, 4);
        list.push(number as u32);
        assert(decoded(bytes@).take(i + 1) =~= decoded(bytes@).take(i as int).push(
            decoded(bytes@)[i as int],
        ));
        i += 1;
    }
    assert(decoded(bytes@).take(i as int) =~= decoded(bytes@));
    Ok(list)
}

proof fn lemma_encoded_len(embedding: Seq<u32>)
    ensures
        encoded(embedding).len() == 4 * embedding.len(),
    decreases embedding.len(),
{
    if embedding.len() > 0 {
        lemma_encoded_len(embedding.drop_last());
        lemma_bases();
        lemma_value_back(embedding.last() as nat, 4);
    }
}

/// An embedding is given back by its bytes, bit by bit.
pub proof fn law_embeddings_survive_their_bytes(embedding: Seq<u32>)
    ensures
        encoded(embedding).len() % 4 == 0,
        decoded(encoded(embedding)) == embedding,
    decreases embedding.len(),
{
    lemma_encoded_len(embedding);
    if embedding.len() > 0 {
        let front = embedding.drop_last();
        let bytes = encoded(embedding);
        lemma_encoded_len(front);
        law_embeddings_survive_their_bytes(front);
        lemma_bases();
        lemma_value_back(embedding.last() as nat, 4);
        let n: int = front.len() as int;
        assert forall|i: int| 0 <= i < embedding.len() implies decoded(bytes)[i]
            == embedding[i] by {
            if i < n {
                assert(bytes.subrange(4 * i, 4 * i + 4) =~= encoded(front).subrange(
                    4 * i,
                    4 * i + 4,
                ));
                assert(decoded(encoded(front))[i] == front[i]);
            } else {
                assert(bytes.subrange(4 * n, 4 * n + 4) =~= spelled(embedding.last() as nat, 4));
            }
        }
    }
    assert(decoded(encoded(embedding)) =~= embedding);
}

// ---- Numbers by their bits ---------------------------------------------------------------------

/// Bits of positive infinity. Greater patterns up to the sign bit are no numbers.
pub const INFINITY_BITS: u32 = 0x7f80_0000;

/// Bits of negative zero: the sign bit alone.
pub const SIGN_BIT: u32 = 0x8000_0000;

/// Whether the bits are those of a number greater than zero.
pub open spec fn is_positive(bits: u32) -> bool {
    0 < bits <= INFINITY_BITS
}

/// Whether the bits are those of a zero of either sign.
pub open spec fn is_zero(bits: u32) -> bool {
    bits == 0 || bits == SIGN_BIT
}

/// The bits without the sign.
pub open spec fn magnitude(bits: u32) -> u32 {
    if bits >= SIGN_BIT {
        (bits - SIGN_BIT) as u32
    } else {
        bits
    }
}

/// Whether the bits are those of a finite number.
pub open spec fn is_finite(bits: u32) -> bool {
    magnitude(bits) < INFINITY_BITS
}

/// Whether the bits are those of a finite number.
pub fn finite(bits: u32) -> (found: bool)
    ensures
        found == is_finite(bits),
{
    if bits >= SIGN_BIT {
        bits - SIGN_BIT < INFINITY_BITS
    } else {
        bits < INFINITY_BITS
    }
}

/// Whether all numbers are zero.
pub open spec fn all_zero(list: Seq<u32>) -> bool {
    forall|i: int| 0 <= i < list.len() ==> is_zero(#[trigger] list[i])
}

/// Whether all numbers are zero.
fn only_zeros(list: &Vec<u32>) -> (found: bool)
    ensures
        found == all_zero(list@),
{
    let mut i: usize = 0;
    while i < list.len()
        invariant
            i <= list@.len(),
            forall|j: int| 0 <= j < i ==> is_zero(#[trigger] list@[j]),
        decreases list@.len() - i,
    {
        if list[i] != 0 && list[i] != SIGN_BIT {
            assert(!is_zero(list@[i as int]));
            return false;
        }
        i += 1;
    }
    true
}

/// Whether two embeddings have finite numbers at a place.
pub open spec fn both_finite(query: Seq<u32>, stored: Seq<u32>, i: int) -> bool {
    is_finite(query[i]) && is_finite(stored[i])
}

/// What is said where two embeddings cannot be compared; nothing where they can. Their
/// similarity is the cosine of the angle between them, which needs the same width, finite
/// numbers, and a length that is not zero.
pub open spec fn incomparable(query: Seq<u32>, stored: Seq<u32>) -> Option<Seq<char>> {
    if query.len() != stored.len() {
        Some(
            "cannot compare embeddings of different widths: query has "@ + decimal(query.len())
                + ", stored value has "@ + decimal(stored.len()),
        )
    } else if query.len() == 0 {
        Some("cannot compare empty embeddings: the query embedding has zero dimensions"@)
    } else if exists|i: int| 0 <= i < query.len() && !#[trigger] both_finite(query, stored, i) {
        Some("cannot compare embeddings that contain a non-finite value"@)
    } else if all_zero(query) {
        Some("cannot compare embeddings: the query embedding has zero magnitude"@)
    } else if all_zero(stored) {
        Some("cannot compare embeddings: a stored embedding has zero magnitude"@)
    } else {
        None
    }
}

/// Whether two embeddings can be compared. An undefined comparison is an error, never a
/// score.
pub fn check_comparable(query: &Vec<u32>, stored: &Vec<u32>) -> (checked: Result<(), String>)
    ensures
        match checked {
            Ok(_) => incomparable(query@, stored@) is None,
            Err(why) => incomparable(query@, stored@) == Some(why@),
        },
{
    if query.len() != stored.len() {
        let mut why: String =
            "cannot compare embeddings of different widths: query has ".to_owned();
        why.append(decimal_text(query.len() as u64).as_str());
        why.append(", stored value has ");
        why.append(decimal_text(stored.len() as u64).as_str());
        return Err(why);
    }
    if query.len() == 0 {
        return Err(
            "cannot compare empty embeddings: the query embedding has zero dimensions".to_owned(),
        );
    }
    let mut i: usize = 0;
    while i < query.len()
        invariant
            query@.len() == stored@.len(),
            query@.len() > 0,
            i <= query@.len(),
            forall|j: int| 0 <= j < i ==> #[trigger] both_finite(query@, stored@, j),
        decreases query@.len() - i,
    {
        let asked: bool = finite(query[i]);
        let kept: bool = finite(stored[i]);
        if !asked || !kept {
            assert(!both_finite(query@, stored@, i as int));
            return Err("cannot compare embeddings that contain a non-finite value".to_owned());
        }
        assert(both_finite(query@, stored@, i as int));
        i += 1;
    }
    if only_zeros(query) {
        return Err(
            "cannot compare embeddings: the query embedding has zero magnitude".to_owned(),
        );
    }
    if only_zeros(stored) {
        return Err(
            "cannot compare embeddings: a stored embedding has zero magnitude".to_owned(),
        );
    }
    Ok(())
}

// ---- Candidates --------------------------------------------------------------------------------

/// What a split stores for a document.
#[derive(Debug)]
pub enum Stored {
    /// The document was deleted.
    Deleted,
    /// No embedding.
    Nothing,
    /// A reference to an embedding that is not there.
    Missing(u64),
    /// The bytes of an embedding.
    Bytes(Vec<u8>),
}

/// What the vector stream reads of a document: its embedding, where there is one to
/// compare.
pub open spec fn readable(query: Seq<u32>, stored: Stored) -> Result<Option<Seq<u32>>, Seq<char>> {
    match stored {
        Stored::Deleted => Ok(None),
        Stored::Nothing => Ok(None),
        Stored::Missing(ord) => Err(
            "embedding column is missing the term for ordinal "@ + decimal(ord as nat),
        ),
        Stored::Bytes(bytes) => if bytes@.len() % 4 != 0 {
            Err(
                "embedded vector has "@ + decimal(bytes@.len())
                    + " byte(s), which is not a whole number of f32 values"@,
            )
        } else {
            match incomparable(query, decoded(bytes@)) {
                Some(why) => Err(why),
                None => Ok(Some(decoded(bytes@))),
            }
        },
    }
}

/// Reads what is stored for a document. What is stored but cannot be compared is an
/// error; a document without an embedding contributes nothing.
pub fn read_stored(query: &Vec<u32>, stored: &Stored) -> (embedding: Result<
    Option<Vec<u32>>,
    String,
>)
    ensures
        match embedding {
            Ok(Some(list)) => readable(query@, *stored) == Ok::<Option<Seq<u32>>, Seq<char>>(
                Some(list@),
            ),
            Ok(None) => readable(query@, *stored) == Ok::<Option<Seq<u32>>, Seq<char>>(None),
            Err(why) => readable(query@, *stored) == Err::<Option<Seq<u32>>, Seq<char>>(why@),
        },
{
    match stored {
        Stored::Deleted => Ok(None),
        Stored::Nothing => Ok(None),
        Stored::Missing(ord) => {
            let mut why: String = "embedding column is missing the term for ordinal ".to_owned();
            why.append(decimal_text(*ord).as_str());
            Err(why)
        },
        Stored::Bytes(bytes) => match decode(bytes) {
            Ok(list) => match check_comparable(query, &list) {
                Ok(_) => Ok(Some(list)),
                Err(why) => Err(why),
            },
            Err(why) => Err(why),
        },
    }
}

/// Whether a query can be run at all.
pub fn check_query(query: &Vec<u32>) -> (checked: Result<(), String>)
    ensures
        match checked {
            Ok(_) => query@.len() > 0,
            Err(why) => query@.len() == 0 && why@
                == "cannot run the vector stream with an empty query embedding"@,
        },
{
    if query.len() == 0 {
        Err("cannot run the vector stream with an empty query embedding".to_owned())
    } else {
        Ok(())
    }
}

/// A document and how similar it is to the query.
#[derive(Debug, Clone, Copy, PartialEq, Eq, Structural)]
pub struct Candidate {
    /// Bits of the similarity, a positive number.
    pub similarity: u32,
    /// Segment of the document.
    pub segment: u32,
    /// Number of the document in its segment.
    pub doc: u32,
}

impl Ranked for Candidate {
    /// The more similar comes first; of two that are equally similar, the one that stands
    /// first in the split. The bits of positive numbers order as the numbers do.
    open spec fn precedes(self, other: Self) -> bool {
        ||| self.similarity > other.similarity
        ||| self.similarity == other.similarity && (self.segment < other.segment || (self.segment
            == other.segment && self.doc < other.doc))
    }

    fn ranks_before(&self, other: &Self) -> (before: bool) {
        self.similarity > other.similarity || (self.similarity == other.similarity && (self.segment
            < other.segment || (self.segment == other.segment && self.doc < other.doc)))
    }

    proof fn precedes_is_asymmetric(a: Self, b: Self) {
    }

    proof fn precedes_has_no_gaps(a: Self, b: Self, c: Self) {
    }
}

/// The candidates among documents: those whose similarity is positive. One that is
/// orthogonal or opposed carries no evidence of being about the query.
pub open spec fn positive_ones(scored: Seq<Candidate>) -> Seq<Candidate>
    decreases scored.len(),
{
    if scored.len() == 0 {
        Seq::empty()
    } else if is_positive(scored.last().similarity) {
        positive_ones(scored.drop_last()).push(scored.last())
    } else {
        positive_ones(scored.drop_last())
    }
}

/// At most the first `limit` of a list.
pub open spec fn first_of(list: Seq<Candidate>, limit: nat) -> Seq<Candidate> {
    if list.len() > limit {
        list.take(limit as int)
    } else {
        list
    }
}

/// The best candidates among the documents of a split.
pub fn best_candidates(scored: &Vec<Candidate>, limit: usize) -> (best: Vec<Candidate>)
    ensures
        best@ == first_of(stable_sorted(positive_ones(scored@)), limit as nat),
{
    let mut list: Vec<Candidate> = Vec::new();
    let mut i: usize = 0;
    assert(scored@.take(0) =~= Seq::empty());
    while i < scored.len()
        invariant
            i <= scored@.len(),
            list@ == positive_ones(scored@.take(i as int)),
        decreases scored@.len() - i,
    {
        assert(scored@.take(i + 1).drop_last() =~= scored@.take(i as int));
        let one: Candidate = scored[i];
        if 0 < one.similarity && one.similarity <= INFINITY_BITS {
            list.push(one);
        }
        i += 1;
    }
    assert(scored@.take(i as int) =~= scored@);
    let mut best: Vec<Candidate> = sort(list);
    if best.len() > limit {
        best.truncate(limit);
    }
    best
}

proof fn lemma_positive_ones(scored: Seq<Candidate>)
    ensures
        forall|i: int|
            0 <= i < positive_ones(scored).len() ==> is_positive(
                (#[trigger] positive_ones(scored)[i]).similarity,
            ) && scored.contains(positive_ones(scored)[i]),
    decreases scored.len(),
{
    if scored.len() > 0 {
        let front = scored.drop_last();
        lemma_positive_ones(front);
        assert forall|i: int| 0 <= i < positive_ones(scored).len() implies is_positive(
            (#[trigger] positive_ones(scored)[i]).similarity,
        ) && scored.contains(positive_ones(scored)[i]) by {
            let one = positive_ones(scored)[i];
            if i < positive_ones(front).len() {
                assert(one == positive_ones(front)[i]);
                assert(front.contains(one));
                let j = choose|j: int| 0 <= j < front.len() && front[j] == one;
                assert(scored[j] == one);
            } else {
                assert(scored[scored.len() - 1] == one);
            }
        }
    }
}

/// Only documents with a positive similarity are found, none that was not scored, the most
/// similar first, and no more than asked for.
pub proof fn law_only_similar_pages_are_found(scored: Seq<Candidate>, limit: nat)
    ensures
        ({
            let best = first_of(stable_sorted(positive_ones(scored)), limit);
            &&& best.len() <= limit
            &&& in_order(best)
            &&& forall|i: int|
                0 <= i < best.len() ==> is_positive((#[trigger] best[i]).similarity)
                    && scored.contains(best[i])
        }),
{
    let list = positive_ones(scored);
    let sorted = stable_sorted(list);
    let best = first_of(sorted, limit);
    lemma_positive_ones(scored);
    law_sorting_orders_the_same_items(list);
    assert forall|i: int| 0 <= i < best.len() implies is_positive((#[trigger] best[i]).similarity)
        && scored.contains(best[i]) by {
        assert(best[i] == sorted[i]);
        assert(sorted.to_multiset().count(sorted[i]) > 0) by {
            sorted.to_multiset_ensures();
            assert(sorted.contains(sorted[i]));
        }
        list.to_multiset_ensures();
        assert(list.contains(sorted[i]));
        let j = choose|j: int| 0 <= j < list.len() && list[j] == sorted[i];
        assert(is_positive(list[j].similarity) && scored.contains(list[j]));
    }
}

} // verus!
