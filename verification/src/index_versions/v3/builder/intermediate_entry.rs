//! A document read and split into words, before it is indexed.

use super::super::structs::{word_texts, AnnotatedWord, AnnotatedWordList, Entry};
use crate::common::{copy_string, Fields, InternalWordAnnotation};
use crate::config::stemming_config::Algorithm;
use crate::text::join;
use vstd::prelude::*;

verus! {

/// A document's words, the stemming to apply to them, and what is shown
/// about the document.
#[derive(Debug)]
pub struct IntermediateEntry {
    pub contents: AnnotatedWordList,
    pub stem_algorithm: Option<Algorithm>,
    pub title: String,
    pub url: String,
    pub fields: Fields,
}

/// The words of a list, each with its annotations and fields, taken by
/// their views.
pub open spec fn word_views(ws: Seq<AnnotatedWord>) -> Seq<
    (Seq<char>, Seq<InternalWordAnnotation>, Seq<(String, String)>),
> {
    ws.map_values(|w: AnnotatedWord| (w.word@, w.internal_annotations@, w.fields.pairs@))
}

impl Entry {
    /// The indexed document for a read document: its words joined with
    /// single spaces, and its title, URL and fields.
    pub fn from_intermediate(ie: &IntermediateEntry) -> (r: Entry)
        ensures
            r.contents@ == join(word_texts(ie.contents.word_list@), seq![' ']),
            r.title == ie.title,
            r.url == ie.url,
            r.fields.pairs@ == ie.fields.pairs@,
    {
        Entry {
            contents: ie.contents.get_full_text(),
            title: copy_string(&ie.title),
            url: copy_string(&ie.url),
            fields: ie.fields.copy(),
        }
    }
}

} // verus!
