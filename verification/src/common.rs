//! Types shared by the index formats and the searcher.

use vstd::prelude::*;

verus! {

/// Key-value metadata attached to a document or a word, in the order the keys
/// were first inserted. Keys are unique when built through `insert`.
#[derive(Debug)]
pub struct Fields {
    pub pairs: Vec<(String, String)>,
}

/// The position of the first pair with key `k`, if any.
pub open spec fn key_position(ps: Seq<(String, String)>, k: Seq<char>) -> Option<int>
    decreases ps.len(),
{
    if ps.len() == 0 {
        None
    } else {
        match key_position(ps.drop_last(), k) {
            Some(i) => Some(i),
            None => if ps.last().0@ == k {
                Some(ps.len() - 1)
            } else {
                None
            },
        }
    }
}

/// The pairs after setting key `k` to `v`: the value of the first pair with
/// key `k` is replaced, or the pair is added at the end.
pub open spec fn pairs_insert(ps: Seq<(String, String)>, k: String, v: String) -> Seq<
    (String, String),
> {
    match key_position(ps, k@) {
        Some(i) => ps.update(i, (ps[i].0, v)),
        None => ps.push((k, v)),
    }
}

pub proof fn lemma_key_position(ps: Seq<(String, String)>, k: Seq<char>)
    ensures
        match key_position(ps, k) {
            Some(i) => 0 <= i < ps.len() && ps[i].0@ == k && forall|j: int|
                0 <= j < i ==> ps[j].0@ != k,
            None => forall|j: int| 0 <= j < ps.len() ==> ps[j].0@ != k,
        },
    decreases ps.len(),
{
    if ps.len() > 0 {
        lemma_key_position(ps.drop_last(), k);
        assert forall|j: int| 0 <= j < ps.len() - 1 implies ps.drop_last()[j] == ps[j] by {}
    }
}

/// Setting a key and then reading it gives the value set, and reading
/// another key gives what it gave before.
pub proof fn lemma_pairs_insert_read(ps: Seq<(String, String)>, k: String, v: String, other: Seq<char>)
    ensures
        key_position(pairs_insert(ps, k, v), k@) matches Some(i) && pairs_insert(ps, k, v)[i].1 == v,
        other != k@ ==> match key_position(ps, other) {
            Some(i) => key_position(pairs_insert(ps, k, v), other) == Some(i) && pairs_insert(ps, k, v)[i]
                == ps[i],
            None => key_position(pairs_insert(ps, k, v), other) is None,
        },
{
    lemma_key_position(ps, k@);
    lemma_key_position(ps, other);
    let qs = pairs_insert(ps, k, v);
    lemma_key_position(qs, k@);
    lemma_key_position(qs, other);
    match key_position(ps, k@) {
        Some(i) => {
            assert(qs[i].0@ == k@);
            if key_position(qs, k@) != Some(i) {
                match key_position(qs, k@) {
                    Some(j) => {
                        assert(j < i ==> qs[j] == ps[j]);
                    },
                    None => {},
                }
            }
            if other != k@ {
                match key_position(ps, other) {
                    Some(j) => {
                        assert(qs[j] == ps[j]);
                        match key_position(qs, other) {
                            Some(l) => {
                                assert(l != i);
                                assert(qs[l] == ps[l]);
                            },
                            None => {},
                        }
                    },
                    None => {
                        match key_position(qs, other) {
                            Some(l) => {
                                assert(l != i);
                                assert(qs[l] == ps[l]);
                            },
                            None => {},
                        }
                    },
                }
            }
        },
        None => {
            assert(qs.last().0@ == k@);
            if key_position(qs, k@) != Some(ps.len() as int) {
                match key_position(qs, k@) {
                    Some(j) => {
                        assert(j < ps.len() ==> qs[j] == ps[j]);
                    },
                    None => {},
                }
            }
            if other != k@ {
                match key_position(qs, other) {
                    Some(l) => {
                        assert(l < ps.len());
                        assert(qs[l] == ps[l]);
                    },
                    None => {},
                }
                match key_position(ps, other) {
                    Some(j) => {
                        assert(qs[j] == ps[j]);
                    },
                    None => {},
                }
            }
        },
    }
}

/// A copy of a string.
pub fn copy_string(s: &String) -> (r: String)
    ensures
        r == *s,
{
    s.clone()
}

impl Fields {
    /// No fields.
    pub fn new() -> (r: Fields)
        ensures
            r.pairs@ == Seq::<(String, String)>::empty(),
    {
        Fields { pairs: Vec::new() }
    }

    /// A copy of these fields.
    pub fn copy(&self) -> (r: Fields)
        ensures
            r.pairs@ == self.pairs@,
    {
        let mut pairs: Vec<(String, String)> = Vec::new();
        let mut i: usize = 0;
        while i < self.pairs.len()
            invariant
                i <= self.pairs@.len(),
                pairs@ == self.pairs@.take(i as int),
            decreases self.pairs@.len() - i,
        {
            let k = copy_string(&self.pairs[i].0);
            let v = copy_string(&self.pairs[i].1);
            pairs.push((k, v));
            assert(pairs@ =~= self.pairs@.take(i as int + 1));
            i = i + 1;
        }
        assert(self.pairs@.take(self.pairs@.len() as int) =~= self.pairs@);
        Fields { pairs }
    }

    /// Sets key `k` to `v`.
    pub fn insert(&mut self, k: String, v: String)
        ensures
            final(self).pairs@ == pairs_insert(old(self).pairs@, k, v),
    {
        proof {
            lemma_key_position(self.pairs@, k@);
        }
        let mut i: usize = 0;
        while i < self.pairs.len()
            invariant
                i <= self.pairs@.len(),
                self.pairs@ == old(self).pairs@,
                forall|j: int| 0 <= j < i ==> self.pairs@[j].0@ != k@,
            decreases self.pairs@.len() - i,
        {
            if self.pairs[i].0 == k {
                proof {
                    lemma_key_position(self.pairs@, k@);
                }
                let key = copy_string(&self.pairs[i].0);
                self.pairs.set(i, (key, v));
                return;
            }
            i = i + 1;
        }
        self.pairs.push((k, v));
    }
}

/// A note attached to a word while indexing, carried through to the
/// excerpts that show the word.
#[derive(Debug, PartialEq, Eq)]
pub enum InternalWordAnnotation {
    /// A suffix to append to the document's URL to reach the word.
    UrlSuffix(String),
    /// The id of the nearest enclosing HTML element that has one.
    NearestHtmlId(String),
}

impl InternalWordAnnotation {
    /// A copy of this annotation.
    pub fn copy(&self) -> (r: InternalWordAnnotation)
        ensures
            r == *self,
    {
        match self {
            InternalWordAnnotation::UrlSuffix(s) => InternalWordAnnotation::UrlSuffix(copy_string(s)),
            InternalWordAnnotation::NearestHtmlId(s) => InternalWordAnnotation::NearestHtmlId(
                copy_string(s),
            ),
        }
    }
}

/// A copy of a list of annotations.
pub fn copy_annotations(v: &Vec<InternalWordAnnotation>) -> (r: Vec<InternalWordAnnotation>)
    ensures
        r@ == v@,
{
    let mut r: Vec<InternalWordAnnotation> = Vec::new();
    let mut i: usize = 0;
    while i < v.len()
        invariant
            i <= v@.len(),
            r@ == v@.take(i as int),
        decreases v@.len() - i,
    {
        r.push(v[i].copy());
        assert(r@ =~= v@.take(i as int + 1));
        i = i + 1;
    }
    assert(v@.take(v@.len() as int) =~= v@);
    r
}

} // verus!
