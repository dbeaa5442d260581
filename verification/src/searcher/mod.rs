//! Answering queries against a parsed index.

pub mod index_analyzer;
pub mod parse;

use crate::common::{copy_annotations, copy_string, Fields, InternalWordAnnotation};
use crate::index_versions::{v2, v3};
use parse::ParsedIndex;
use vstd::prelude::*;

verus! {

/// The answer to a query: the best results, how many documents matched in
/// all, and the prefix to put before each result's URL.
#[derive(Debug)]
pub struct SearchOutput {
    pub results: Vec<OutputResult>,
    pub total_hit_count: usize,
    pub url_prefix: String,
}

/// One matching document, with its best excerpts and its score.
#[derive(Debug)]
pub struct OutputResult {
    pub entry: OutputEntry,
    pub excerpts: Vec<Excerpt>,
    pub title_highlight_ranges: Vec<HighlightRange>,
    pub score: usize,
}

/// The document a result is about.
#[derive(Debug)]
pub struct OutputEntry {
    pub url: String,
    pub title: String,
    pub fields: Fields,
}

/// A passage of a document around one or more matches, with the matches
/// marked.
#[derive(Debug)]
pub struct Excerpt {
    pub text: String,
    pub highlight_ranges: Vec<HighlightRange>,
    pub score: usize,
    pub internal_annotations: Vec<InternalWordAnnotation>,
    pub fields: Fields,
}

/// A span of bytes to highlight, from `beginning` up to `end`.
#[derive(Debug, Clone, Copy, PartialEq, Eq, Structural, PartialOrd, Ord)]
pub struct HighlightRange {
    pub beginning: usize,
    pub end: usize,
}

/// Why a search gave no output.
#[derive(Debug, PartialEq, Eq, Structural, Clone, Copy)]
pub enum SearchError {
    /// No index was cached under the name asked for.
    NamedIndexNotInCache,
    /// The output could not be written as JSON.
    JSONSerializationError,
    /// The search ran into an index it cannot handle: an index position out
    /// of range, or a number too large for its type.
    InternalCrash,
}

/// An excerpt with its strings taken by their views.
pub struct ExcerptView {
    pub text: Seq<char>,
    pub highlight_ranges: Seq<HighlightRange>,
    pub score: nat,
    pub internal_annotations: Seq<InternalWordAnnotation>,
    pub fields: Seq<(String, String)>,
}

/// A result entry with its strings taken by their views.
pub struct OutputEntryView {
    pub url: Seq<char>,
    pub title: Seq<char>,
    pub fields: Seq<(String, String)>,
}

/// A result with its strings and lists taken by their views.
pub struct OutputResultView {
    pub entry: OutputEntryView,
    pub excerpts: Seq<ExcerptView>,
    pub title_highlight_ranges: Seq<HighlightRange>,
    pub score: nat,
}

/// A search output with its strings and lists taken by their views.
pub struct SearchOutputView {
    pub results: Seq<OutputResultView>,
    pub total_hit_count: nat,
    pub url_prefix: Seq<char>,
}

impl View for Excerpt {
    type V = ExcerptView;

    open spec fn view(&self) -> ExcerptView {
        ExcerptView {
            text: self.text@,
            highlight_ranges: self.highlight_ranges@,
            score: self.score as nat,
            internal_annotations: self.internal_annotations@,
            fields: self.fields.pairs@,
        }
    }
}

impl Excerpt {
    /// A copy of this excerpt.
    pub fn copy(&self) -> (r: Excerpt)
        ensures
            r@ == self@,
    {
        Excerpt {
            text: copy_string(&self.text),
            highlight_ranges: self.highlight_ranges.clone(),
            score: self.score,
            internal_annotations: copy_annotations(&self.internal_annotations),
            fields: self.fields.copy(),
        }
    }
}

impl View for OutputEntry {
    type V = OutputEntryView;

    open spec fn view(&self) -> OutputEntryView {
        OutputEntryView { url: self.url@, title: self.title@, fields: self.fields.pairs@ }
    }
}

impl View for OutputResult {
    type V = OutputResultView;

    open spec fn view(&self) -> OutputResultView {
        OutputResultView {
            entry: self.entry@,
            excerpts: self.excerpts@.map_values(|e: Excerpt| e@),
            title_highlight_ranges: self.title_highlight_ranges@,
            score: self.score as nat,
        }
    }
}

impl View for SearchOutput {
    type V = SearchOutputView;

    open spec fn view(&self) -> SearchOutputView {
        SearchOutputView {
            results: self.results@.map_values(|r: OutputResult| r@),
            total_hit_count: self.total_hit_count as nat,
            url_prefix: self.url_prefix@,
        }
    }
}

/// What a query finds in a parsed index, by its format.
pub open spec fn parsed_search_output(index: ParsedIndex, query: Seq<char>) -> Option<
    SearchOutputView,
> {
    match index {
        ParsedIndex::V2(i) => v2::search::search_output(i, query),
        ParsedIndex::V3(i) => v3::search::search_output(i, query),
    }
}

/// Searches a parsed index for a query; `InternalCrash` where the index
/// names a document it lacks or a number does not fit its type.
pub fn search(index: &ParsedIndex, query: &str) -> (r: Result<SearchOutput, SearchError>)
    ensures
        match r {
            Ok(o) => parsed_search_output(*index, query@) == Some(o@),
            Err(e) => e == SearchError::InternalCrash && parsed_search_output(*index, query@) is None,
        },
{
    let found = match index {
        ParsedIndex::V2(inner) => v2::search::try_search(inner, query),
        ParsedIndex::V3(inner) => v3::search::try_search(inner, query),
    };
    match found {
        Some(o) => Ok(o),
        None => Err(SearchError::InternalCrash),
    }
}

/// The message for a search that gave no output.
pub open spec fn search_error_message(e: SearchError) -> Seq<char> {
    match e {
        SearchError::NamedIndexNotInCache => "Index not found. You must parse an index before performing searches with it."@,
        SearchError::JSONSerializationError => "Could not format search results."@,
        SearchError::InternalCrash => "Unknown error."@,
    }
}

impl SearchError {
    /// The message for this error.
    pub fn to_string(&self) -> (r: String)
        ensures
            r@ == search_error_message(*self),
    {
        match self {
            SearchError::NamedIndexNotInCache => "Index not found. You must parse an index before performing searches with it.".to_owned(),
            SearchError::JSONSerializationError => "Could not format search results.".to_owned(),
            SearchError::InternalCrash => "Unknown error.".to_owned(),
        }
    }
}

} // verus!
