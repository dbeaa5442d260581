//! Stork: a full-text search index for static sites.
//!
//! The library turns documents into a search index, frames that index into a
//! versioned byte format, reads the format back, and answers queries against
//! an index.

pub mod argparse;
pub mod bytes;
pub mod common;
pub mod config;
pub mod index_analyzer;
pub mod index_helpers;
pub mod index_versions;
pub mod models;
pub mod searcher;
pub mod sort;
pub mod stopwords;
pub mod text;
pub mod wasm;

pub use index_versions::v3 as latest_version;

use index_versions::v3::search::find_key;
use searcher::parse::{IndexParseError, ParsedIndex};
use searcher::{parsed_search_output, SearchError, SearchOutput};
use vstd::prelude::*;

verus! {

/// The parsed indexes a program has registered, by name. A name registered
/// again replaces its index.
#[derive(Debug)]
pub struct IndexCache {
    pub indexes: Vec<(String, ParsedIndex)>,
}

impl IndexCache {
    /// No indexes.
    pub fn new() -> (r: IndexCache)
        ensures
            forall|name: Seq<char>| r.lookup(name) is None,
    {
        IndexCache { indexes: Vec::new() }
    }

    /// The index registered under `name`, if any.
    pub open spec fn lookup(&self, name: Seq<char>) -> Option<ParsedIndex> {
        match find_key(self.indexes@, name) {
            Some(p) => Some(self.indexes@[p].1),
            None => None,
        }
    }

    /// Registers `index` under `name`, replacing what was registered there.
    pub fn insert(&mut self, name: &str, index: ParsedIndex)
        ensures
            final(self).lookup(name@) == Some(index),
            forall|other: Seq<char>| other != name@ ==> final(self).lookup(other) == old(self).lookup(
                other,
            ),
    {
        let key = name.to_owned();
        proof {
            index_versions::v3::search::lemma_find_key(self.indexes@, key@);
        }
        match index_versions::v3::search::find_key_exec(&self.indexes, &key) {
            Some(p) => {
                let ghost before = self.indexes@;
                let _ = self.indexes.remove(p);
                self.indexes.insert(p, (key, index));
                proof {
                    lemma_find_key_update(before, p as int, self.indexes@);
                    assert forall|other: Seq<char>| other != name@ implies self.lookup(other)
                        == old(self).lookup(other) by {
                        index_versions::v3::search::lemma_find_key(before, other);
                    }
                }
            },
            None => {
                let ghost before = self.indexes@;
                self.indexes.push((key, index));
                proof {
                    assert(self.indexes@.drop_last() =~= before);
                    lemma_find_key_push(before, self.indexes@);
                    assert forall|other: Seq<char>| other != name@ implies self.lookup(other)
                        == old(self).lookup(other) by {
                        index_versions::v3::search::lemma_find_key(before, other);
                    }
                }
            },
        }
    }

    /// The index registered under `name`, if any.
    pub fn get(&self, name: &str) -> (r: Option<&ParsedIndex>)
        ensures
            match r {
                Some(i) => self.lookup(name@) == Some(*i),
                None => self.lookup(name@) is None,
            },
    {
        let key = name.to_owned();
        match index_versions::v3::search::find_key_exec(&self.indexes, &key) {
            Some(p) => Some(&self.indexes[p].1),
            None => None,
        }
    }
}

/// Replacing the value at a key's first position keeps every key's first
/// position.
pub proof fn lemma_find_key_update(
    before: Seq<(String, ParsedIndex)>,
    p: int,
    after: Seq<(String, ParsedIndex)>,
)
    requires
        0 <= p < before.len(),
        after.len() == before.len(),
        after[p].0@ == before[p].0@,
        forall|j: int| 0 <= j < before.len() && j != p ==> after[j] == before[j],
    ensures
        forall|k: Seq<char>| find_key(after, k) == find_key(before, k),
    decreases before.len(),
{
    assert forall|k: Seq<char>| find_key(after, k) == find_key(before, k) by {
        lemma_find_key_update_one(before, p, after, k);
    }
}

proof fn lemma_find_key_update_one(
    before: Seq<(String, ParsedIndex)>,
    p: int,
    after: Seq<(String, ParsedIndex)>,
    k: Seq<char>,
)
    requires
        0 <= p < before.len(),
        after.len() == before.len(),
        after[p].0@ == before[p].0@,
        forall|j: int| 0 <= j < before.len() && j != p ==> after[j] == before[j],
    ensures
        find_key(after, k) == find_key(before, k),
    decreases before.len(),
{
    if p < before.len() - 1 {
        lemma_find_key_update_one(before.drop_last(), p, after.drop_last(), k);
        assert(after.last() == before.last());
    } else {
        assert(after.drop_last() =~= before.drop_last());
    }
}

/// Appending a pair whose key is new makes it that key's first position,
/// and keeps every other key's.
pub proof fn lemma_find_key_push(before: Seq<(String, ParsedIndex)>, after: Seq<(String, ParsedIndex)>)
    requires
        after.len() == before.len() + 1,
        after.drop_last() == before,
        find_key(before, after.last().0@) is None,
    ensures
        find_key(after, after.last().0@) == Some(before.len() as int),
        forall|k: Seq<char>| k != after.last().0@ ==> find_key(after, k) == find_key(before, k),
{
}

/// Whether `after` is `before` with `index` registered under `name`.
pub open spec fn registered(before: IndexCache, after: IndexCache, name: Seq<char>, index: ParsedIndex) -> bool {
    &&& after.lookup(name) == Some(index)
    &&& forall|other: Seq<char>| other != name ==> after.lookup(other) == before.lookup(other)
}

/// What searching the index cached under `name` gives.
pub open spec fn cached_search(cache: IndexCache, name: Seq<char>, query: Seq<char>) -> Result<
    searcher::SearchOutputView,
    SearchError,
> {
    match cache.lookup(name) {
        None => Err(SearchError::NamedIndexNotInCache),
        Some(index) => match parsed_search_output(index, query) {
            Some(o) => Ok(o),
            None => Err(SearchError::InternalCrash),
        },
    }
}

/// A search result taken by its view.
pub open spec fn search_result_view(r: Result<SearchOutput, SearchError>) -> Result<
    searcher::SearchOutputView,
    SearchError,
> {
    match r {
        Ok(o) => Ok(o@),
        Err(e) => Err(e),
    }
}

/// A search under a name that was just registered searches the index that
/// was registered, and searches under any other name give what they gave
/// before.
pub proof fn lemma_search_after_register(
    before: IndexCache,
    after: IndexCache,
    name: Seq<char>,
    index: ParsedIndex,
    query: Seq<char>,
    other: Seq<char>,
)
    requires
        registered(before, after, name, index),
    ensures
        cached_search(after, name, query) == match parsed_search_output(index, query) {
            Some(o) => Ok(o),
            None => Err(SearchError::InternalCrash),
        },
        other != name ==> cached_search(after, other, query) == cached_search(before, other, query),
{
}

/// A search in a cache where nothing was registered finds no index.
pub proof fn lemma_search_empty_cache(cache: IndexCache, name: Seq<char>, query: Seq<char>)
    requires
        forall|n: Seq<char>| cache.lookup(n) is None,
    ensures
        cached_search(cache, name, query) == Err::<searcher::SearchOutputView, SearchError>(
            SearchError::NamedIndexNotInCache,
        ),
{
}

/// Caches a parsed index under `name`, and gives back the index as it now
/// stands in the cache; an index that could not be parsed is not cached,
/// and its error is given back.
pub fn parse_and_cache_index<'a>(
    cache: &'a mut IndexCache,
    parsed: Result<ParsedIndex, IndexParseError>,
    name: &str,
) -> (r: Result<&'a ParsedIndex, IndexParseError>)
    ensures
        match parsed {
            Ok(index) => (r matches Ok(i) && *i == index) && registered(
                *old(cache),
                *final(cache),
                name@,
                index,
            ),
            Err(e) => r == Err::<&ParsedIndex, IndexParseError>(e) && *final(cache) == *old(cache),
        },
{
    match parsed {
        Ok(index) => {
            cache.insert(name, index);
            let shared: &'a IndexCache = cache;
            match shared.get(name) {
                Some(i) => Ok(i),
                None => {
                    assert(false);
                    Err(IndexParseError::FileTooShort)
                },
            }
        },
        Err(e) => Err(e),
    }
}

/// Searches the index cached under `name` for a query.
pub fn search_from_cache(cache: &IndexCache, name: &str, query: &str) -> (r: Result<
    SearchOutput,
    SearchError,
>)
    ensures
        search_result_view(r) == cached_search(*cache, name@, query@),
{
    match cache.get(name) {
        None => Err(SearchError::NamedIndexNotInCache),
        Some(index) => searcher::search(index, query),
    }
}

/// Searches an index of the current format for a query.
pub fn search_with_index(index: &latest_version::structs::Index, query: &str) -> (r: SearchOutput)
    requires
        latest_version::search::search_output(*index, query@) is Some,
    ensures
        latest_version::search::search_output(*index, query@) == Some(r@),
{
    latest_version::search::search(index, query)
}

} // verus!
