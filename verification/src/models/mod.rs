//! The index of the first format: for each normalized word, the documents
//! it occurs in with an excerpt around each occurrence, or the longer words
//! it is a prefix of.

pub mod config;

use crate::common::copy_string;
use vstd::prelude::*;

verus! {

/// A document to index: where its text is, its URL and title, and the
/// fields shown with it.
#[derive(Debug)]
pub struct StorkEntry {
    pub path: String,
    pub url: String,
    pub title: String,
    pub fields: Option<Vec<StorkField>>,
}

/// A field shown with a document.
#[derive(Debug)]
pub struct StorkField {
    pub key: String,
    pub value: String,
}

/// The occurrences of a word in one document.
#[derive(Debug)]
pub struct StorkResult {
    pub file_index: u32,
    pub excerpts: Vec<StorkExcerpt>,
    pub score: u8,
}

/// What a word leads to: its occurrences in a document, or a longer word
/// it is a prefix of.
#[derive(Debug)]
pub enum StorkResultOrAlias {
    Result(StorkResult),
    Alias(String),
}

/// The text around one occurrence of a word, and the byte offset of the
/// word in it.
#[derive(Debug)]
pub struct StorkExcerpt {
    pub value: String,
    pub query_offset: u16,
}

/// A whole index of the first format.
#[derive(Debug)]
pub struct StorkIndex {
    pub entries: Vec<StorkEntry>,
    pub results: Vec<(String, Vec<StorkResultOrAlias>)>,
}

/// A document found by a search, with its occurrences.
#[derive(Debug)]
pub struct StorkOutput {
    pub entry: StorkEntry,
    pub result: StorkResult,
}

/// An excerpt with its text taken by its view.
pub struct ExcerptData {
    pub value: Seq<char>,
    pub query_offset: u16,
}

impl View for StorkExcerpt {
    type V = ExcerptData;

    open spec fn view(&self) -> ExcerptData {
        ExcerptData { value: self.value@, query_offset: self.query_offset }
    }
}

/// Excerpts taken by their views.
pub open spec fn excerpt_data(xs: Seq<StorkExcerpt>) -> Seq<ExcerptData> {
    xs.map_values(|x: StorkExcerpt| x@)
}

/// A result with its excerpts taken by their views.
pub struct ResultData {
    pub file_index: u32,
    pub excerpts: Seq<ExcerptData>,
    pub score: u8,
}

impl View for StorkResult {
    type V = ResultData;

    open spec fn view(&self) -> ResultData {
        ResultData { file_index: self.file_index, excerpts: excerpt_data(self.excerpts@), score: self.score }
    }
}

/// A result or an alias, taken by its view.
pub enum LinkData {
    Result(ResultData),
    Alias(Seq<char>),
}

impl View for StorkResultOrAlias {
    type V = LinkData;

    open spec fn view(&self) -> LinkData {
        match self {
            StorkResultOrAlias::Result(r) => LinkData::Result(r@),
            StorkResultOrAlias::Alias(a) => LinkData::Alias(a@),
        }
    }
}

/// Results and aliases taken by their views.
pub open spec fn link_data(ls: Seq<StorkResultOrAlias>) -> Seq<LinkData> {
    ls.map_values(|l: StorkResultOrAlias| l@)
}

/// The words of an index with what each leads to, taken by their views.
pub open spec fn results_data(rs: Seq<(String, Vec<StorkResultOrAlias>)>) -> Seq<(Seq<char>, Seq<LinkData>)> {
    rs.map_values(|p: (String, Vec<StorkResultOrAlias>)| (p.0@, link_data(p.1@)))
}

/// A copy of a list of fields.
fn copy_fields(fs: &Vec<StorkField>) -> (r: Vec<StorkField>)
    ensures
        r@.len() == fs@.len(),
        forall|i: int| 0 <= i < fs@.len() ==> (#[trigger] r@[i]).key == fs@[i].key && r@[i].value == fs@[i].value,
{
    let mut r: Vec<StorkField> = Vec::new();
    let mut i: usize = 0;
    while i < fs.len()
        invariant
            i <= fs@.len(),
            r@.len() == i,
            forall|j: int| 0 <= j < i ==> (#[trigger] r@[j]).key == fs@[j].key && r@[j].value == fs@[j].value,
        decreases fs@.len() - i,
    {
        r.push(StorkField { key: copy_string(&fs[i].key), value: copy_string(&fs[i].value) });
        i = i + 1;
    }
    r
}

/// Whether `a` has the same path, URL, title and fields as `b`.
pub open spec fn same_entry(a: StorkEntry, b: StorkEntry) -> bool {
    &&& a.path == b.path
    &&& a.url == b.url
    &&& a.title == b.title
    &&& a.fields is Some <==> b.fields is Some
    &&& a.fields is Some ==> {
        let (x, y) = (a.fields.unwrap()@, b.fields.unwrap()@);
        &&& x.len() == y.len()
        &&& forall|i: int| 0 <= i < x.len() ==> (#[trigger] x[i]).key == y[i].key && x[i].value == y[i].value
    }
}

impl StorkEntry {
    /// A copy of this entry.
    pub fn copy(&self) -> (r: StorkEntry)
        ensures
            same_entry(r, *self),
    {
        StorkEntry {
            path: copy_string(&self.path),
            url: copy_string(&self.url),
            title: copy_string(&self.title),
            fields: match &self.fields {
                Some(fs) => Some(copy_fields(fs)),
                None => None,
            },
        }
    }
}

impl StorkExcerpt {
    /// A copy of this excerpt.
    pub fn copy(&self) -> (r: StorkExcerpt)
        ensures
            r@ == self@,
    {
        StorkExcerpt { value: copy_string(&self.value), query_offset: self.query_offset }
    }
}

impl StorkResult {
    /// A copy of this result.
    pub fn copy(&self) -> (r: StorkResult)
        ensures
            r@ == self@,
    {
        let mut excerpts: Vec<StorkExcerpt> = Vec::new();
        let mut i: usize = 0;
        while i < self.excerpts.len()
            invariant
                i <= self.excerpts@.len(),
                excerpt_data(excerpts@) == excerpt_data(self.excerpts@.take(i as int)),
            decreases self.excerpts@.len() - i,
        {
            let x = self.excerpts[i].copy();
            let ghost prev = excerpts@;
            excerpts.push(x);
            proof {
                assert(excerpt_data(excerpts@) =~= excerpt_data(prev).push(x@));
                assert(excerpt_data(self.excerpts@.take(i as int + 1)) =~= excerpt_data(
                    self.excerpts@.take(i as int),
                ).push(self.excerpts@[i as int]@));
            }
            i = i + 1;
        }
        assert(self.excerpts@.take(self.excerpts@.len() as int) =~= self.excerpts@);
        StorkResult { file_index: self.file_index, excerpts, score: self.score }
    }
}

} // verus!
