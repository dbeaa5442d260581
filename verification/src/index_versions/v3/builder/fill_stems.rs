//! Gathering, for each stem, the words of the documents that have it.

use super::fill_containers::{key_pos, lemma_key_pos, stems_view, WordView};
use super::intermediate_entry::{word_views, IntermediateEntry};
use super::{normalize, normalize_word};
use crate::common::copy_string;
use crate::config::stemming_config::{stem_of, stem_word, Algorithm};
use crate::text::views;
use vstd::prelude::*;

verus! {

/// The stems with the word `w` recorded under `stem`, unless it is there
/// already.
pub open spec fn add_stem(stems: Seq<(Seq<char>, Seq<Seq<char>>)>, stem: Seq<char>, w: Seq<char>) -> Seq<
    (Seq<char>, Seq<Seq<char>>),
> {
    match key_pos(stems, stem) {
        Some(p) => if stems[p].1.contains(w) {
            stems
        } else {
            stems.update(p, (stem, stems[p].1.push(w)))
        },
        None => stems.push((stem, seq![w])),
    }
}

/// The stems after recording the words `ws[i..]` under their stems in the
/// language `alg`.
pub open spec fn stem_words(
    stems: Seq<(Seq<char>, Seq<Seq<char>>)>,
    alg: Algorithm,
    ws: Seq<WordView>,
    i: int,
) -> Seq<(Seq<char>, Seq<Seq<char>>)>
    decreases ws.len() - i,
{
    if i < 0 || i >= ws.len() {
        stems
    } else {
        let w = normalize(ws[i].0);
        stem_words(add_stem(stems, stem_of(alg, w), w), alg, ws, i + 1)
    }
}

/// The stems after recording the contents of the documents `es[k..]` that
/// are stemmed.
pub open spec fn stem_entries(
    stems: Seq<(Seq<char>, Seq<Seq<char>>)>,
    es: Seq<IntermediateEntry>,
    k: int,
) -> Seq<(Seq<char>, Seq<Seq<char>>)>
    decreases es.len() - k,
{
    if k < 0 || k >= es.len() {
        stems
    } else {
        let next = match es[k].stem_algorithm {
            Some(a) => stem_words(stems, a, word_views(es[k].contents.word_list@), 0),
            None => stems,
        };
        stem_entries(next, es, k + 1)
    }
}

/// Records the word `w` under `stem`.
#[verifier::loop_isolation(false)]
fn add_stem_exec(stems: &mut Vec<(String, Vec<String>)>, stem: String, w: String)
    ensures
        stems_view(final(stems)@) == add_stem(stems_view(old(stems)@), stem@, w@),
{
    let ghost sv = stems_view(stems@);
    proof {
        lemma_key_pos(sv, stem@);
    }
    let mut p: usize = 0;
    while p < stems.len()
        invariant
            p <= stems@.len(),
            sv == stems_view(stems@),
            *stems == *old(stems),
            forall|j: int| 0 <= j < p ==> sv[j].0 != stem@,
        decreases stems@.len() - p,
    {
        assert(sv[p as int] == (stems@[p as int].0@, views(stems@[p as int].1@)));
        if stems[p].0 == stem {
            proof {
                lemma_key_pos(sv, stem@);
                if key_pos(sv, stem@) != Some(p as int) {
                    match key_pos(sv, stem@) {
                        Some(i) => {
                            assert(i > p || i < p);
                        },
                        None => {},
                    }
                }
            }
            let ghost ws = views(stems@[p as int].1@);
            let mut q: usize = 0;
            while q < stems[p].1.len()
                invariant
                    p < stems@.len(),
                    q <= stems@[p as int].1@.len(),
                    ws == views(stems@[p as int].1@),
                    *stems == *old(stems),
                    forall|j: int| 0 <= j < q ==> ws[j] != w@,
                decreases stems@[p as int].1@.len() - q,
            {
                assert(ws[q as int] == stems@[p as int].1@[q as int]@);
                if stems[p].1[q] == w {
                    proof {
                        assert(ws.contains(w@));
                    }
                    return;
                }
                q = q + 1;
            }
            proof {
                assert(!ws.contains(w@));
            }
            let (k, mut v) = stems.remove(p);
            let ghost old_v = v@;
            v.push(w);
            stems.insert(p, (k, v));
            proof {
                assert(views(v@) =~= views(old_v).push(w@));
                assert(stems_view(stems@) =~= sv.update(p as int, (stem@, ws.push(w@))));
            }
            return;
        }
        p = p + 1;
    }
    let mut v: Vec<String> = Vec::new();
    v.push(w);
    stems.push((stem, v));
    proof {
        assert(views(v@) =~= seq![w@]);
        assert(stems_view(stems@) =~= sv.push((stem@, seq![w@])));
    }
}

/// Records the words of the contents of every stemmed document under their
/// stems; a word is recorded once under a stem.
pub fn fill_stems(intermediate_entries: &Vec<IntermediateEntry>, stems: &mut Vec<(String, Vec<String>)>)
    ensures
        stems_view(final(stems)@) == stem_entries(stems_view(old(stems)@), intermediate_entries@, 0),
{
    let ghost es = intermediate_entries@;
    let mut k: usize = 0;
    while k < intermediate_entries.len()
        invariant
            k <= es.len(),
            es == intermediate_entries@,
            stem_entries(stems_view(old(stems)@), es, 0) == stem_entries(
                stems_view(stems@),
                es,
                k as int,
            ),
        decreases es.len() - k,
    {
        let entry = &intermediate_entries[k];
        if let Some(alg) = entry.stem_algorithm {
            let ws = &entry.contents.word_list;
            let ghost wv = word_views(ws@);
            let ghost start = stems_view(stems@);
            let mut i: usize = 0;
            while i < ws.len()
                invariant
                    i <= ws@.len(),
                    wv == word_views(ws@),
                    stem_words(start, alg, wv, 0) == stem_words(stems_view(stems@), alg, wv, i as int),
                decreases ws@.len() - i,
            {
                assert(wv[i as int].0 == ws@[i as int].word@);
                let w = normalize_word(ws[i].word.as_str());
                let stem = stem_word(alg, w.as_str());
                add_stem_exec(stems, stem, w);
                i = i + 1;
            }
        }
        k = k + 1;
    }
}

} // verus!
