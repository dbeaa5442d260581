//! The index of the second format.

use crate::common::Fields;
use crate::index_versions::v3::scores::MATCHED_WORD_SCORE;
use vstd::prelude::*;

verus! {

/// A whole index: the indexed documents, and for each word the container of
/// what it matches.
#[derive(Debug)]
pub struct Index {
    pub entries: Vec<Entry>,
    pub queries: Vec<(String, Container)>,
}

/// An indexed document.
#[derive(Debug)]
pub struct Entry {
    pub contents: String,
    pub title: String,
    pub url: String,
    pub fields: Fields,
}

/// The places a word occurs in one document, and the score of a match there.
#[derive(Debug)]
pub struct SearchResult {
    pub excerpts: Vec<Excerpt>,
    pub score: u8,
}

impl SearchResult {
    /// No places yet, with the score of a matched word.
    pub fn new() -> (r: SearchResult)
        ensures
            r.excerpts@.len() == 0,
            r.score == MATCHED_WORD_SCORE,
    {
        SearchResult { excerpts: Vec::new(), score: MATCHED_WORD_SCORE }
    }
}

/// One place a word occurs in a document's contents.
#[derive(Debug, Clone, Copy, PartialEq, Eq, Structural)]
pub struct Excerpt {
    pub word_index: usize,
}

/// What one word of the index matches: for each document, the places the
/// word occurs in it; and the other words it stands for, with the score of
/// such a match.
#[derive(Debug)]
pub struct Container {
    pub results: Vec<(usize, SearchResult)>,
    pub aliases: Vec<(String, u8)>,
}

impl Container {
    /// A container that matches nothing.
    pub fn new() -> (r: Container)
        ensures
            r.results@.len() == 0,
            r.aliases@.len() == 0,
    {
        Container { results: Vec::new(), aliases: Vec::new() }
    }
}

} // verus!
