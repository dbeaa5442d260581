//! The scores a match earns.

use vstd::prelude::*;

verus! {

/// A word of the document matches a word of the query.
pub const MATCHED_WORD_SCORE: u8 = 128;

/// A word of the query is a prefix of a word of the document; the score is
/// lowered by one for each character the prefix lacks.
pub const PREFIX_SCORE: u8 = 127;

/// A word of the query has the same stem as a word of the document.
pub const STEM_SCORE: u8 = 50;

/// The score of any match on a stopword.
pub const STOPWORD_SCORE: u8 = 20;

} // verus!
