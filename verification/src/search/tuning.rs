//! How retrieval trades relevance against recency.
//!
//! Recency breaks ties between pages that are about as relevant; it is bounded, and it can
//! be switched off. Weights and factors are IEEE 754 single precision; here they are kept as
//! their bits.

use vstd::prelude::*;

use crate::search::vector::{is_positive, INFINITY_BITS, SIGN_BIT};

verus! {

/// Bits of one.
pub const ONE: u32 = 0x3f80_0000;

/// Bits of negative infinity.
pub const NEGATIVE_INFINITY_BITS: u32 = 0xff80_0000;

/// How retrieval trades relevance against recency.
#[derive(Debug, Clone, Copy)]
pub struct SearchTuning {
    /// Age at which the boost halves.
    pub recency_half_life_ms: i64,
    /// Bits of the greatest boost, relative to the score.
    pub max_boost: u32,
    /// Time that ages are counted from.
    pub now_ms: i64,
    /// Whether pages that link to the pages found are recalled too.
    pub neighbor_expansion: bool,
    /// How many of the best hits are looked up for that.
    pub neighbor_seeds: usize,
    /// Bits of the weight of the pages that link.
    pub neighbor_weight: u32,
    /// Whether the vector stream runs where there is an embedder.
    pub vector_search: bool,
    /// Bits of the weight of the vector stream.
    pub vector_weight: u32,
}

impl Default for SearchTuning {
    /// Thirty days, half as much again at most, three seeds at a weight of 0.4, and
    /// vectors at a weight of 0.6.
    fn default() -> (tuning: Self)
        ensures
            tuning == (SearchTuning {
                recency_half_life_ms: 2_592_000_000,
                max_boost: 0x3f00_0000,
                now_ms: 0,
                neighbor_expansion: true,
                neighbor_seeds: 3,
                neighbor_weight: 0x3ecc_cccd,
                vector_search: true,
                vector_weight: 0x3f19_999a,
            }),
    {
        SearchTuning {
            recency_half_life_ms: 2_592_000_000,
            max_boost: 0x3f00_0000,
            now_ms: 0,
            neighbor_expansion: true,
            neighbor_seeds: 3,
            neighbor_weight: 0x3ecc_cccd,
            vector_search: true,
            vector_weight: 0x3f19_999a,
        }
    }
}

/// Whether the bits are those of a number that is zero or less.
pub open spec fn not_above_zero(bits: u32) -> bool {
    bits == 0 || SIGN_BIT <= bits <= NEGATIVE_INFINITY_BITS
}

impl SearchTuning {
    /// Whether recency does nothing.
    pub open spec fn disabled(self) -> bool {
        self.recency_half_life_ms <= 0 || not_above_zero(self.max_boost) || self.now_ms <= 0
    }

    /// Whether recency does nothing.
    pub fn is_disabled(&self) -> (off: bool)
        ensures
            off == self.disabled(),
    {
        self.recency_half_life_ms <= 0 || self.max_boost == 0 || (SIGN_BIT <= self.max_boost
            && self.max_boost <= NEGATIVE_INFINITY_BITS) || self.now_ms <= 0
    }

    /// The age that counts for a page, where recency does anything for it. A page from the
    /// future is brand-new.
    pub open spec fn age_of(self, updated_at_ms: i64) -> Option<i64> {
        if self.disabled() || updated_at_ms <= 0 {
            None
        } else if self.now_ms > updated_at_ms {
            Some((self.now_ms - updated_at_ms) as i64)
        } else {
            Some(0)
        }
    }

    /// The age that counts for a page, where recency does anything for it.
    pub fn age(&self, updated_at_ms: i64) -> (age: Option<i64>)
        ensures
            age == self.age_of(updated_at_ms),
    {
        if self.is_disabled() || updated_at_ms <= 0 {
            None
        } else if self.now_ms > updated_at_ms {
            Some(self.now_ms - updated_at_ms)
        } else {
            Some(0)
        }
    }

    /// The tuning for one of several projects whose lists are fused again: recency is
    /// counted in once, at the end.
    pub fn for_project(&self) -> (inner: SearchTuning)
        ensures
            inner == (SearchTuning { recency_half_life_ms: 0, ..*self }),
            inner.disabled(),
    {
        SearchTuning {
            recency_half_life_ms: 0,
            max_boost: self.max_boost,
            now_ms: self.now_ms,
            neighbor_expansion: self.neighbor_expansion,
            neighbor_seeds: self.neighbor_seeds,
            neighbor_weight: self.neighbor_weight,
            vector_search: self.vector_search,
            vector_weight: self.vector_weight,
        }
    }

    /// Whether the vector stream runs, where there is an embedder.
    pub open spec fn runs_vectors(self) -> bool {
        self.vector_search && is_positive(self.vector_weight)
    }

    /// Whether the vector stream runs, where there is an embedder.
    pub fn wants_vectors(&self) -> (wanted: bool)
        ensures
            wanted == self.runs_vectors(),
    {
        self.vector_search && 0 < self.vector_weight && self.vector_weight <= INFINITY_BITS
    }
}

/// Recency does nothing to a search of one project among several, and nothing where it is
/// disabled.
pub proof fn law_recency_is_counted_once(tuning: SearchTuning, updated_at_ms: i64)
    ensures
        (SearchTuning { recency_half_life_ms: 0, ..tuning }).age_of(updated_at_ms) is None,
        tuning.disabled() ==> tuning.age_of(updated_at_ms) is None,
{
}

} // verus!
