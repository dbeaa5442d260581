//! One match of a query word at one place in one document.

use super::super::structs::{Excerpt, WordListSource};
use crate::common::{copy_annotations, copy_string, Fields, InternalWordAnnotation};
use vstd::prelude::*;

verus! {

/// A match: the word of the index that matched, the document and the place
/// in it, the score, and what was noted about the word there.
#[derive(Debug)]
pub struct IntermediateExcerpt {
    pub query: String,
    pub entry_index: usize,
    pub score: u8,
    pub source: WordListSource,
    pub word_index: usize,
    pub internal_annotations: Vec<InternalWordAnnotation>,
    pub fields: Fields,
}

/// A match with its strings and lists taken by their views.
pub struct IEView {
    pub query: Seq<char>,
    pub entry_index: usize,
    pub score: u8,
    pub source: WordListSource,
    pub word_index: usize,
    pub internal_annotations: Seq<InternalWordAnnotation>,
    pub fields: Seq<(String, String)>,
}

impl View for IntermediateExcerpt {
    type V = IEView;

    open spec fn view(&self) -> IEView {
        IEView {
            query: self.query@,
            entry_index: self.entry_index,
            score: self.score,
            source: self.source,
            word_index: self.word_index,
            internal_annotations: self.internal_annotations@,
            fields: self.fields.pairs@,
        }
    }
}

/// The views of a list of matches.
pub open spec fn views(s: Seq<IntermediateExcerpt>) -> Seq<IEView> {
    s.map_values(|ie: IntermediateExcerpt| ie@)
}

pub proof fn lemma_views_push(s: Seq<IntermediateExcerpt>, ie: IntermediateExcerpt)
    ensures
        views(s.push(ie)) == views(s).push(ie@),
{
    assert(views(s.push(ie)) =~= views(s).push(ie@));
}

pub proof fn lemma_views_concat(a: Seq<IntermediateExcerpt>, b: Seq<IntermediateExcerpt>)
    ensures
        views(a + b) == views(a) + views(b),
{
    assert(views(a + b) =~= views(a) + views(b));
}

impl IntermediateExcerpt {
    /// The match of `query` at the place `x` of document `entry_index`.
    pub fn from_excerpt(query: &String, entry_index: usize, score: u8, x: &Excerpt) -> (r:
        IntermediateExcerpt)
        ensures
            r@ == (IEView {
                query: query@,
                entry_index,
                score,
                source: x.source,
                word_index: x.word_index,
                internal_annotations: x.internal_annotations@,
                fields: x.fields.pairs@,
            }),
    {
        IntermediateExcerpt {
            query: copy_string(query),
            entry_index,
            score,
            source: x.source,
            word_index: x.word_index,
            internal_annotations: copy_annotations(&x.internal_annotations),
            fields: x.fields.copy(),
        }
    }

    /// A copy of this match.
    pub fn copy(&self) -> (r: IntermediateExcerpt)
        ensures
            r@ == self@,
    {
        IntermediateExcerpt {
            query: copy_string(&self.query),
            entry_index: self.entry_index,
            score: self.score,
            source: self.source,
            word_index: self.word_index,
            internal_annotations: copy_annotations(&self.internal_annotations),
            fields: self.fields.copy(),
        }
    }
}

} // verus!
