//! The index of the third format, as built and as searched.

use super::scores::MATCHED_WORD_SCORE;
use crate::common::{copy_annotations, copy_string, Fields, InternalWordAnnotation};
use crate::config::{OutputConfig, TitleBoost};
use crate::text::{join, join_strings, views};
use vstd::prelude::*;
use vstd::utf8::encode_utf8;

verus! {

/// A whole index: the settings passed through to searches, the indexed
/// documents, and for each word the container of what it matches.
#[derive(Debug)]
pub struct Index {
    pub config: PassthroughConfig,
    pub entries: Vec<Entry>,
    pub containers: Vec<(String, Container)>,
}

/// The sum of the UTF-8 lengths of the contents of `es`.
pub open spec fn contents_bytes(es: Seq<Entry>) -> nat
    decreases es.len(),
{
    if es.len() == 0 {
        0
    } else {
        contents_bytes(es.drop_last()) + encode_utf8(es.last().contents@).len()
    }
}

impl Index {
    /// The number of documents.
    pub fn entries_len(&self) -> (r: usize)
        ensures
            r == self.entries@.len(),
    {
        self.entries.len()
    }

    /// The mean size in bytes of the documents' contents, rounded down.
    pub fn avg_entry_size(&self) -> (r: usize)
        requires
            self.entries@.len() > 0,
            contents_bytes(self.entries@) <= usize::MAX,
        ensures
            r == contents_bytes(self.entries@) / self.entries@.len(),
    {
        let mut sum: usize = 0;
        let mut i: usize = 0;
        while i < self.entries.len()
            invariant
                i <= self.entries@.len(),
                contents_bytes(self.entries@) <= usize::MAX,
                sum == contents_bytes(self.entries@.take(i as int)),
            decreases self.entries@.len() - i,
        {
            proof {
                assert(self.entries@.take(i as int + 1).drop_last() =~= self.entries@.take(i as int));
                lemma_contents_bytes_prefix(self.entries@, i as int + 1);
            }
            sum = sum + self.entries[i].contents.as_str().len();
            i = i + 1;
        }
        assert(self.entries@.take(self.entries@.len() as int) =~= self.entries@);
        sum / self.entries_len()
    }
}

/// The contents of a prefix are no longer than the contents of the whole.
pub proof fn lemma_contents_bytes_prefix(es: Seq<Entry>, k: int)
    requires
        0 <= k <= es.len(),
    ensures
        contents_bytes(es.take(k)) <= contents_bytes(es),
    decreases es.len(),
{
    if k < es.len() {
        assert(es.drop_last().take(k) =~= es.take(k));
        lemma_contents_bytes_prefix(es.drop_last(), k);
    } else {
        assert(es.take(k) =~= es);
    }
}

/// The settings an index carries to its searches.
#[derive(Debug)]
pub struct PassthroughConfig {
    pub url_prefix: String,
    pub title_boost: TitleBoost,
    pub excerpt_buffer: u8,
    pub excerpts_per_result: u8,
    pub displayed_results_count: u8,
}

impl Default for PassthroughConfig {
    fn default() -> (r: Self)
        ensures
            r.url_prefix@ == Seq::<char>::empty(),
            r.title_boost == TitleBoost::Moderate,
            r.excerpt_buffer == 8,
            r.excerpts_per_result == 5,
            r.displayed_results_count == 10,
    {
        let output_config = OutputConfig::default();
        PassthroughConfig {
            url_prefix: String::new(),
            title_boost: TitleBoost::Moderate,
            excerpt_buffer: output_config.excerpt_buffer,
            excerpts_per_result: output_config.excerpts_per_result,
            displayed_results_count: output_config.displayed_results_count,
        }
    }
}

impl PassthroughConfig {
    /// A copy of these settings.
    pub fn copy(&self) -> (r: PassthroughConfig)
        ensures
            r == *self,
    {
        PassthroughConfig {
            url_prefix: copy_string(&self.url_prefix),
            title_boost: self.title_boost,
            excerpt_buffer: self.excerpt_buffer,
            excerpts_per_result: self.excerpts_per_result,
            displayed_results_count: self.displayed_results_count,
        }
    }
}

/// An indexed document.
#[derive(Debug)]
pub struct Entry {
    pub contents: String,
    pub title: String,
    pub url: String,
    pub fields: Fields,
}

/// What one word of the index matches: for each document, the places the
/// word occurs in it; and the other words it stands for, with the score of
/// such a match.
#[derive(Debug)]
pub struct Container {
    pub results: Vec<(usize, SearchResult)>,
    pub aliases: Vec<(String, u8)>,
}

impl Container {
    /// A container that matches nothing.
    pub fn new() -> (r: Container)
        ensures
            r.results@.len() == 0,
            r.aliases@.len() == 0,
    {
        Container { results: Vec::new(), aliases: Vec::new() }
    }
}

/// The places a word occurs in one document, and the score of a match there.
#[derive(Debug)]
pub struct SearchResult {
    pub excerpts: Vec<Excerpt>,
    pub score: u8,
}

impl SearchResult {
    /// No places yet, with the score of a matched word.
    pub fn new() -> (r: SearchResult)
        ensures
            r.excerpts@.len() == 0,
            r.score == MATCHED_WORD_SCORE,
    {
        SearchResult { excerpts: Vec::new(), score: MATCHED_WORD_SCORE }
    }
}

/// One place a word occurs: its position in the title or the contents, and
/// what was noted about it while indexing.
#[derive(Debug)]
pub struct Excerpt {
    pub word_index: usize,
    pub source: WordListSource,
    pub internal_annotations: Vec<InternalWordAnnotation>,
    pub fields: Fields,
}

/// Whether a word was found in a document's title or its contents.
#[derive(Debug, Clone, Copy, PartialEq, Eq, Structural)]
pub enum WordListSource {
    Title,
    Contents,
}

impl Default for WordListSource {
    fn default() -> (r: Self)
        ensures
            r == WordListSource::Contents,
    {
        WordListSource::Contents
    }
}

/// A word of a document, with what was noted about it while reading.
#[derive(Debug)]
pub struct AnnotatedWord {
    pub word: String,
    pub internal_annotations: Vec<InternalWordAnnotation>,
    pub fields: Fields,
}

impl AnnotatedWord {
    /// A word with no annotations and no fields.
    pub fn plain(word: String) -> (r: AnnotatedWord)
        ensures
            r.word == word,
            r.internal_annotations@.len() == 0,
            r.fields.pairs@.len() == 0,
    {
        AnnotatedWord { word, internal_annotations: Vec::new(), fields: Fields::new() }
    }

    /// A copy of this word.
    pub fn copy(&self) -> (r: AnnotatedWord)
        ensures
            r.word == self.word,
            r.internal_annotations@ == self.internal_annotations@,
            r.fields.pairs@ == self.fields.pairs@,
    {
        AnnotatedWord {
            word: copy_string(&self.word),
            internal_annotations: copy_annotations(&self.internal_annotations),
            fields: self.fields.copy(),
        }
    }
}

/// The words of a document, in order.
#[derive(Debug)]
pub struct AnnotatedWordList {
    pub word_list: Vec<AnnotatedWord>,
}

/// The words of a list of annotated words.
pub open spec fn word_texts(ws: Seq<AnnotatedWord>) -> Seq<Seq<char>> {
    ws.map_values(|w: AnnotatedWord| w.word@)
}

impl AnnotatedWordList {
    /// The words joined with single spaces.
    pub fn get_full_text(&self) -> (r: String)
        ensures
            r@ == join(word_texts(self.word_list@), seq![' ']),
    {
        let mut words: Vec<String> = Vec::new();
        let mut i: usize = 0;
        while i < self.word_list.len()
            invariant
                i <= self.word_list@.len(),
                views(words@) == word_texts(self.word_list@.take(i as int)),
            decreases self.word_list@.len() - i,
        {
            let ghost prev = words@;
            let w = copy_string(&self.word_list[i].word);
            words.push(w);
            proof {
                crate::text::lemma_views_push(prev, w);
                assert(word_texts(self.word_list@.take(i as int + 1)) =~= word_texts(
                    self.word_list@.take(i as int),
                ).push(self.word_list@[i as int].word@));
            }
            i = i + 1;
        }
        assert(self.word_list@.take(self.word_list@.len() as int) =~= self.word_list@);
        join_strings(words.as_slice(), ' ')
    }
}

/// A place a word occurs, with its lists taken by their views.
pub struct PlaceView {
    pub word_index: usize,
    pub source: WordListSource,
    pub internal_annotations: Seq<InternalWordAnnotation>,
    pub fields: Seq<(String, String)>,
}

impl View for Excerpt {
    type V = PlaceView;

    open spec fn view(&self) -> PlaceView {
        PlaceView {
            word_index: self.word_index,
            source: self.source,
            internal_annotations: self.internal_annotations@,
            fields: self.fields.pairs@,
        }
    }
}

/// The places a word occurs in one document, taken by their views.
pub struct ResultView {
    pub places: Seq<PlaceView>,
    pub score: u8,
}

impl View for SearchResult {
    type V = ResultView;

    open spec fn view(&self) -> ResultView {
        ResultView { places: self.excerpts@.map_values(|x: Excerpt| x@), score: self.score }
    }
}

/// A container with its lists and strings taken by their views.
pub struct ContainerView {
    pub results: Seq<(usize, ResultView)>,
    pub aliases: Seq<(Seq<char>, u8)>,
}

impl View for Container {
    type V = ContainerView;

    open spec fn view(&self) -> ContainerView {
        ContainerView {
            results: self.results@.map_values(|r: (usize, SearchResult)| (r.0, r.1@)),
            aliases: self.aliases@.map_values(|a: (String, u8)| (a.0@, a.1)),
        }
    }
}

/// The containers of an index, each word and container taken by its view.
pub open spec fn containers_view(cs: Seq<(String, Container)>) -> Seq<(Seq<char>, ContainerView)> {
    cs.map_values(|c: (String, Container)| (c.0@, c.1@))
}

} // verus!
