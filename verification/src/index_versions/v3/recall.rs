//! What an index of the third format finds: a word that was indexed in a
//! document is found again by a query that holds the word, and the document
//! is among the documents that query matches.

use super::builder::fill_containers::{
    add_alias, add_place, add_prefixes, add_prefixes_from, add_reverse_stems, add_stem_aliases,
    empty_container, fill_entries, fill_entry, fill_words, key_pos, lemma_key_pos,
    lemma_key_pos_of_containers, lemma_result_pos, result_pos, with_alias, with_place, word_step,
    WordView,
};
use super::builder::intermediate_entry::{word_views, IntermediateEntry};
use super::builder::normalize;
use super::search::intermediate_excerpt::IEView;
use super::search::results::{group_by_entry, group_position};
use super::search::{
    alias_ies, container_ies, excerpt_ies, find_key, query_ies, results_ies, search_output,
    stopword_scored,
};
use super::structs::{containers_view, Container, ContainerView, Index, PlaceView, ResultView, SearchResult, WordListSource};
use crate::config::stemming_config::Algorithm;
use crate::text::{lowercase, pieces};
use vstd::prelude::*;

verus! {

/// Whether the container of word `w` holds a result for document `e` with
/// at least one place.
pub open spec fn has_result(cs: Seq<(Seq<char>, ContainerView)>, w: Seq<char>, e: usize) -> bool {
    match key_pos(cs, w) {
        Some(p) => match result_pos(cs[p].1.results, e) {
            Some(q) => cs[p].1.results[q].1.places.len() > 0,
            None => false,
        },
        None => false,
    }
}

/// The first position of a key depends on the keys alone.
pub proof fn lemma_key_pos_same_keys<V>(a: Seq<(Seq<char>, V)>, b: Seq<(Seq<char>, V)>, k: Seq<char>)
    requires
        a.len() == b.len(),
        forall|j: int| 0 <= j < a.len() ==> a[j].0 == b[j].0,
    ensures
        key_pos(a, k) == key_pos(b, k),
    decreases a.len(),
{
    if a.len() > 0 {
        lemma_key_pos_same_keys(a.drop_last(), b.drop_last(), k);
    }
}

/// The position of a document's result depends on the documents alone.
proof fn lemma_result_pos_same_keys(a: Seq<(usize, ResultView)>, b: Seq<(usize, ResultView)>, e: usize)
    requires
        a.len() == b.len(),
        forall|j: int| 0 <= j < a.len() ==> a[j].0 == b[j].0,
    ensures
        result_pos(a, e) == result_pos(b, e),
    decreases a.len(),
{
    if a.len() > 0 {
        lemma_result_pos_same_keys(a.drop_last(), b.drop_last(), e);
    }
}

/// Appending a pair keeps every key's first position.
pub proof fn lemma_key_pos_push<V>(a: Seq<(Seq<char>, V)>, y: (Seq<char>, V), k: Seq<char>)
    ensures
        key_pos(a, k) is Some ==> key_pos(a.push(y), k) == key_pos(a, k),
        key_pos(a, k) is None && y.0 == k ==> key_pos(a.push(y), k) == Some(a.len() as int),
{
    assert(a.push(y).drop_last() =~= a);
}

/// Appending a result keeps every document's result position.
proof fn lemma_result_pos_push(a: Seq<(usize, ResultView)>, y: (usize, ResultView), e: usize)
    ensures
        result_pos(a, e) is Some ==> result_pos(a.push(y), e) == result_pos(a, e),
        result_pos(a, e) is None && y.0 == e ==> result_pos(a.push(y), e) == Some(a.len() as int),
{
    assert(a.push(y).drop_last() =~= a);
}

/// Adding a place to a container keeps the places of every result it had,
/// and leaves a non-empty result for the document the place is in.
proof fn lemma_with_place(c: ContainerView, e2: usize, x: PlaceView, e: usize)
    ensures
        ({
            let r = with_place(c, e2, x).results;
            &&& (match result_pos(c.results, e) {
                Some(q) => c.results[q].1.places.len() > 0 ==> (result_pos(r, e) == Some(q) && r[q].1.places.len() > 0),
                None => true,
            })
            &&& (result_pos(r, e2) matches Some(q) && r[q].1.places.len() > 0)
        }),
{
    lemma_result_pos(c.results, e2);
    lemma_result_pos(c.results, e);
    match result_pos(c.results, e2) {
        Some(q2) => {
            let r = with_place(c, e2, x).results;
            lemma_result_pos_same_keys(c.results, r, e);
            lemma_result_pos_same_keys(c.results, r, e2);
        },
        None => {
            let y = (e2, ResultView { places: seq![x], score: super::scores::MATCHED_WORD_SCORE });
            lemma_result_pos_push(c.results, y, e);
            lemma_result_pos_push(c.results, y, e2);
        },
    }
}

/// Adding a place keeps every result a word had.
proof fn lemma_add_place_keeps(
    cs: Seq<(Seq<char>, ContainerView)>,
    w2: Seq<char>,
    e2: usize,
    x: PlaceView,
    w: Seq<char>,
    e: usize,
)
    requires
        has_result(cs, w, e),
    ensures
        has_result(add_place(cs, w2, e2, x), w, e),
{
    lemma_key_pos(cs, w2);
    lemma_key_pos(cs, w);
    let p = key_pos(cs, w).unwrap();
    let q = result_pos(cs[p].1.results, e).unwrap();
    match key_pos(cs, w2) {
        Some(p2) => {
            let after = add_place(cs, w2, e2, x);
            lemma_key_pos_same_keys(cs, after, w);
            if p2 == p {
                lemma_with_place(cs[p].1, e2, x, e);
            }
        },
        None => {
            lemma_key_pos_push(cs, (w2, with_place(empty_container(), e2, x)), w);
        },
    }
}

/// Adding a place leaves a result for its word and document.
proof fn lemma_add_place_makes(cs: Seq<(Seq<char>, ContainerView)>, w: Seq<char>, e: usize, x: PlaceView)
    ensures
        has_result(add_place(cs, w, e, x), w, e),
{
    lemma_key_pos(cs, w);
    let after = add_place(cs, w, e, x);
    match key_pos(cs, w) {
        Some(p) => {
            lemma_key_pos_same_keys(cs, after, w);
            lemma_with_place(cs[p].1, e, x, e);
        },
        None => {
            lemma_key_pos_push(cs, (w, with_place(empty_container(), e, x)), w);
            lemma_with_place(empty_container(), e, x, e);
        },
    }
}

/// Adding an alias keeps every result a word had.
proof fn lemma_add_alias_keeps(
    cs: Seq<(Seq<char>, ContainerView)>,
    t: Seq<char>,
    a: Seq<char>,
    s: u8,
    w: Seq<char>,
    e: usize,
)
    requires
        has_result(cs, w, e),
    ensures
        has_result(add_alias(cs, t, a, s), w, e),
{
    lemma_key_pos(cs, t);
    lemma_key_pos(cs, w);
    match key_pos(cs, t) {
        Some(pt) => {
            let after = add_alias(cs, t, a, s);
            lemma_key_pos_same_keys(cs, after, w);
            assert(with_alias(cs[pt].1, a, s).results == cs[pt].1.results);
        },
        None => {
            lemma_key_pos_push(cs, (t, with_alias(empty_container(), a, s)), w);
        },
    }
}

proof fn lemma_add_prefixes_from_keeps(
    cs: Seq<(Seq<char>, ContainerView)>,
    v: Seq<char>,
    n: int,
    w: Seq<char>,
    e: usize,
)
    requires
        has_result(cs, w, e),
    ensures
        has_result(add_prefixes_from(cs, v, n), w, e),
    decreases v.len() - n,
{
    if !(n < 1 || n >= v.len()) {
        let sub = v.take(n);
        let next = if n < 3 && !super::builder::fill_containers::all_cjk(sub) {
            cs
        } else {
            add_alias(cs, sub, v, super::builder::fill_containers::prefix_score(v.len() as int, n))
        };
        if !(n < 3 && !super::builder::fill_containers::all_cjk(sub)) {
            lemma_add_alias_keeps(cs, sub, v, super::builder::fill_containers::prefix_score(v.len() as int, n), w, e);
        }
        lemma_add_prefixes_from_keeps(next, v, n + 1, w, e);
    }
}

proof fn lemma_add_stem_aliases_keeps(
    cs: Seq<(Seq<char>, ContainerView)>,
    rss: Seq<Seq<char>>,
    v: Seq<char>,
    k: int,
    w: Seq<char>,
    e: usize,
)
    requires
        has_result(cs, w, e),
    ensures
        has_result(add_stem_aliases(cs, rss, v, k), w, e),
    decreases rss.len() - k,
{
    if !(k < 0 || k >= rss.len()) {
        let next = if rss[k] != v {
            add_alias(cs, rss[k], v, super::scores::STEM_SCORE)
        } else {
            cs
        };
        if rss[k] != v {
            lemma_add_alias_keeps(cs, rss[k], v, super::scores::STEM_SCORE, w, e);
        }
        lemma_add_stem_aliases_keeps(next, rss, v, k + 1, w, e);
    }
}

/// Indexing a word keeps every result a word had.
proof fn lemma_word_step_keeps(
    cs: Seq<(Seq<char>, ContainerView)>,
    stems: Seq<(Seq<char>, Seq<Seq<char>>)>,
    e2: usize,
    alg: Option<Algorithm>,
    source: WordListSource,
    i: usize,
    v: Seq<char>,
    ann: Seq<crate::common::InternalWordAnnotation>,
    fields: Seq<(String, String)>,
    w: Seq<char>,
    e: usize,
)
    requires
        has_result(cs, w, e),
    ensures
        has_result(word_step(cs, stems, e2, alg, source, i, v, ann, fields), w, e),
{
    let x = PlaceView { word_index: i, source, internal_annotations: ann, fields };
    let placed = add_place(cs, v, e2, x);
    lemma_add_place_keeps(cs, v, e2, x, w, e);
    lemma_add_prefixes_from_keeps(placed, v, 1, w, e);
    let prefixed = add_prefixes(placed, v);
    match alg {
        Some(a) => {
            let stem = crate::config::stemming_config::stem_of(a, v);
            match key_pos(stems, stem) {
                Some(p) => lemma_add_stem_aliases_keeps(prefixed, stems[p].1, v, 0, w, e),
                None => {},
            }
        },
        None => {},
    }
}

/// Indexing a word leaves a result for it in its document.
proof fn lemma_word_step_makes(
    cs: Seq<(Seq<char>, ContainerView)>,
    stems: Seq<(Seq<char>, Seq<Seq<char>>)>,
    e: usize,
    alg: Option<Algorithm>,
    source: WordListSource,
    i: usize,
    w: Seq<char>,
    ann: Seq<crate::common::InternalWordAnnotation>,
    fields: Seq<(String, String)>,
)
    ensures
        has_result(word_step(cs, stems, e, alg, source, i, w, ann, fields), w, e),
{
    let x = PlaceView { word_index: i, source, internal_annotations: ann, fields };
    let placed = add_place(cs, w, e, x);
    lemma_add_place_makes(cs, w, e, x);
    lemma_add_prefixes_from_keeps(placed, w, 1, w, e);
    let prefixed = add_prefixes(placed, w);
    match alg {
        Some(a) => {
            let stem = crate::config::stemming_config::stem_of(a, w);
            match key_pos(stems, stem) {
                Some(p) => lemma_add_stem_aliases_keeps(prefixed, stems[p].1, w, 0, w, e),
                None => {},
            }
        },
        None => {},
    }
}

proof fn lemma_fill_words_keeps(
    cs: Seq<(Seq<char>, ContainerView)>,
    stems: Seq<(Seq<char>, Seq<Seq<char>>)>,
    e2: usize,
    alg: Option<Algorithm>,
    source: WordListSource,
    ws: Seq<WordView>,
    i: int,
    w: Seq<char>,
    e: usize,
)
    requires
        has_result(cs, w, e),
    ensures
        has_result(fill_words(cs, stems, e2, alg, source, ws, i), w, e),
    decreases ws.len() - i,
{
    if !(i < 0 || i >= ws.len()) {
        let v = normalize(ws[i].0);
        if v.len() != 0 {
            lemma_word_step_keeps(cs, stems, e2, alg, source, i as usize, v, ws[i].1, ws[i].2, w, e);
            lemma_fill_words_keeps(
                word_step(cs, stems, e2, alg, source, i as usize, v, ws[i].1, ws[i].2),
                stems,
                e2,
                alg,
                source,
                ws,
                i + 1,
                w,
                e,
            );
        }
    }
}

/// Whether the words `ws[from..=j]` all normalize to something, so that
/// indexing from `from` reaches word `j`.
pub open spec fn reaches(ws: Seq<WordView>, from: int, j: int) -> bool {
    &&& 0 <= from <= j < ws.len()
    &&& forall|t: int| from <= t <= j ==> normalize(#[trigger] ws[t].0).len() > 0
}

proof fn lemma_fill_words_makes(
    cs: Seq<(Seq<char>, ContainerView)>,
    stems: Seq<(Seq<char>, Seq<Seq<char>>)>,
    e: usize,
    alg: Option<Algorithm>,
    source: WordListSource,
    ws: Seq<WordView>,
    i: int,
    j: int,
)
    requires
        reaches(ws, i, j),
        j <= usize::MAX,
    ensures
        has_result(fill_words(cs, stems, e, alg, source, ws, i), normalize(ws[j].0), e),
    decreases j - i,
{
    let v = normalize(ws[i].0);
    assert(v.len() > 0);
    let next = word_step(cs, stems, e, alg, source, i as usize, v, ws[i].1, ws[i].2);
    if i == j {
        lemma_word_step_makes(cs, stems, e, alg, source, i as usize, v, ws[i].1, ws[i].2);
        lemma_fill_words_keeps(next, stems, e, alg, source, ws, i + 1, v, e);
    } else {
        lemma_fill_words_makes(next, stems, e, alg, source, ws, i + 1, j);
    }
}

proof fn lemma_fill_entry_keeps(
    cs: Seq<(Seq<char>, ContainerView)>,
    stems: Seq<(Seq<char>, Seq<Seq<char>>)>,
    e2: usize,
    entry: IntermediateEntry,
    w: Seq<char>,
    e: usize,
)
    requires
        has_result(cs, w, e),
    ensures
        has_result(fill_entry(cs, stems, e2, entry), w, e),
{
    let tws = super::builder::fill_containers::title_words(entry.title@);
    lemma_fill_words_keeps(cs, stems, e2, entry.stem_algorithm, WordListSource::Title, tws, 0, w, e);
    let t = fill_words(cs, stems, e2, entry.stem_algorithm, WordListSource::Title, tws, 0);
    lemma_fill_words_keeps(
        t,
        stems,
        e2,
        entry.stem_algorithm,
        WordListSource::Contents,
        word_views(entry.contents.word_list@),
        0,
        w,
        e,
    );
}

proof fn lemma_fill_entries_keeps(
    cs: Seq<(Seq<char>, ContainerView)>,
    stems: Seq<(Seq<char>, Seq<Seq<char>>)>,
    es: Seq<IntermediateEntry>,
    k: int,
    w: Seq<char>,
    e: usize,
)
    requires
        has_result(cs, w, e),
    ensures
        has_result(fill_entries(cs, stems, es, k), w, e),
    decreases es.len() - k,
{
    if !(k < 0 || k >= es.len() || k > usize::MAX) {
        lemma_fill_entry_keeps(cs, stems, k as usize, es[k], w, e);
        lemma_fill_entries_keeps(fill_entry(cs, stems, k as usize, es[k]), stems, es, k + 1, w, e);
    }
}

proof fn lemma_fill_entries_makes(
    cs: Seq<(Seq<char>, ContainerView)>,
    stems: Seq<(Seq<char>, Seq<Seq<char>>)>,
    es: Seq<IntermediateEntry>,
    k: int,
    d: int,
    j: int,
)
    requires
        0 <= k <= d < es.len(),
        d <= usize::MAX,
        reaches(word_views(es[d].contents.word_list@), 0, j),
    ensures
        has_result(
            fill_entries(cs, stems, es, k),
            normalize(word_views(es[d].contents.word_list@)[j].0),
            d as usize,
        ),
    decreases d - k,
{
    let next = fill_entry(cs, stems, k as usize, es[k]);
    assert(es[d].contents.word_list.len() == es[d].contents.word_list@.len());
    if k == d {
        let entry = es[d];
        let tws = super::builder::fill_containers::title_words(entry.title@);
        let t = fill_words(cs, stems, d as usize, entry.stem_algorithm, WordListSource::Title, tws, 0);
        lemma_fill_words_makes(
            t,
            stems,
            d as usize,
            entry.stem_algorithm,
            WordListSource::Contents,
            word_views(entry.contents.word_list@),
            0,
            j,
        );
        lemma_fill_entries_keeps(
            next,
            stems,
            es,
            k + 1,
            normalize(word_views(es[d].contents.word_list@)[j].0),
            d as usize,
        );
    } else {
        lemma_fill_entries_makes(next, stems, es, k + 1, d, j);
    }
}

/// Whether some match of `ies` is in document `e`.
pub open spec fn mentions(ies: Seq<IEView>, e: usize) -> bool {
    exists|i: int| 0 <= i < ies.len() && (#[trigger] ies[i]).entry_index == e
}

proof fn lemma_mentions_concat(a: Seq<IEView>, b: Seq<IEView>, e: usize)
    ensures
        mentions(a, e) || mentions(b, e) ==> mentions(a + b, e),
{
    if mentions(a, e) {
        let i = choose|i: int| 0 <= i < a.len() && (#[trigger] a[i]).entry_index == e;
        assert((a + b)[i] == a[i]);
    } else if mentions(b, e) {
        let i = choose|i: int| 0 <= i < b.len() && (#[trigger] b[i]).entry_index == e;
        assert((a + b)[a.len() + i] == b[i]);
    }
}

/// The matches of a container's results include one in each document whose
/// result has a place.
proof fn lemma_results_ies_mentions(query: Seq<char>, rs: Seq<(usize, SearchResult)>, score: Option<u8>, q: int)
    requires
        0 <= q < rs.len(),
        rs[q].1.excerpts@.len() > 0,
    ensures
        mentions(results_ies(query, rs, score), rs[q].0),
    decreases rs.len(),
{
    let r = rs.last();
    let s = match score {
        Some(s) => s,
        None => r.1.score,
    };
    let more = excerpt_ies(query, r.0, s, r.1.excerpts@);
    if q == rs.len() - 1 {
        assert(more[0].entry_index == rs[q].0);
        lemma_mentions_concat(results_ies(query, rs.drop_last(), score), more, rs[q].0);
    } else {
        assert(rs.drop_last()[q] == rs[q]);
        lemma_results_ies_mentions(query, rs.drop_last(), score, q);
        lemma_mentions_concat(results_ies(query, rs.drop_last(), score), more, rs[q].0);
    }
}

/// The matches of a query include one in document `e` where one of its
/// words has a result in `e`.
proof fn lemma_query_ies_mentions(cs: Seq<(String, Container)>, words: Seq<Seq<char>>, t: int, e: usize)
    requires
        0 <= t < words.len(),
        has_result(containers_view(cs), words[t], e),
    ensures
        mentions(query_ies(cs, words), e),
    decreases words.len(),
{
    let last = words.last();
    let tail = match find_key(cs, last) {
        Some(p) => container_ies(cs, cs[p].0@, cs[p].1),
        None => seq![],
    };
    if t == words.len() - 1 {
        let cv = containers_view(cs);
        lemma_key_pos_of_containers(cs, last);
        let p = key_pos(cv, last).unwrap();
        lemma_key_pos(cv, last);
        let q = result_pos(cv[p].1.results, e).unwrap();
        lemma_result_pos(cv[p].1.results, e);
        let rs = cs[p].1.results@;
        assert(cv[p].1.results[q] == (rs[q].0, rs[q].1@));
        assert(rs[q].1@.places.len() == rs[q].1.excerpts@.len());
        lemma_results_ies_mentions(cs[p].0@, rs, None, q);
        lemma_mentions_concat(results_ies(cs[p].0@, rs, None), alias_ies(cs, cs[p].1.aliases@), e);
        lemma_mentions_concat(query_ies(cs, words.drop_last()), tail, e);
    } else {
        assert(words.drop_last()[t] == words[t]);
        lemma_query_ies_mentions(cs, words.drop_last(), t, e);
        lemma_mentions_concat(query_ies(cs, words.drop_last()), tail, e);
    }
}

/// Scoring stopwords keeps the documents of the matches.
proof fn lemma_scored_mentions(ies: Seq<IEView>, e: usize)
    requires
        mentions(ies, e),
    ensures
        mentions(ies.map_values(|ie: IEView| stopword_scored(ie)), e),
{
    let i = choose|i: int| 0 <= i < ies.len() && (#[trigger] ies[i]).entry_index == e;
    let scored = ies.map_values(|ie: IEView| stopword_scored(ie));
    assert(scored[i].entry_index == e);
}

/// Grouping matches by document makes a group for every document a match
/// is in.
proof fn lemma_group_by_entry_has(ies: Seq<IEView>, e: usize)
    requires
        mentions(ies, e),
    ensures
        group_position(group_by_entry(ies), e) is Some,
    decreases ies.len(),
{
    let gs = group_by_entry(ies.drop_last());
    let ie = ies.last();
    lemma_group_position(gs, e);
    lemma_group_position(gs, ie.entry_index);
    if mentions(ies.drop_last(), e) {
        lemma_group_by_entry_has(ies.drop_last(), e);
        match group_position(gs, ie.entry_index) {
            Some(p) => {
                let after = gs.update(p, (gs[p].0, gs[p].1.push(ie)));
                lemma_group_position_same_keys(gs, after, e);
            },
            None => {
                assert(gs.push((ie.entry_index, seq![ie])).drop_last() =~= gs);
            },
        }
    } else {
        let i = choose|i: int| 0 <= i < ies.len() && (#[trigger] ies[i]).entry_index == e;
        if i < ies.len() - 1 {
            assert(ies.drop_last()[i] == ies[i]);
        }
        assert(ie.entry_index == e);
        match group_position(gs, e) {
            Some(p) => {
                let after = gs.update(p, (gs[p].0, gs[p].1.push(ie)));
                lemma_group_position_same_keys(gs, after, e);
            },
            None => {
                assert(gs.push((ie.entry_index, seq![ie])).drop_last() =~= gs);
            },
        }
    }
}

proof fn lemma_group_position(gs: Seq<(usize, Seq<IEView>)>, k: usize)
    ensures
        match group_position(gs, k) {
            Some(i) => 0 <= i < gs.len() && gs[i].0 == k,
            None => forall|j: int| 0 <= j < gs.len() ==> gs[j].0 != k,
        },
    decreases gs.len(),
{
    if gs.len() > 0 {
        lemma_group_position(gs.drop_last(), k);
        assert forall|j: int| 0 <= j < gs.len() - 1 implies gs.drop_last()[j] == gs[j] by {}
    }
}

proof fn lemma_group_position_same_keys(a: Seq<(usize, Seq<IEView>)>, b: Seq<(usize, Seq<IEView>)>, k: usize)
    requires
        a.len() == b.len(),
        forall|j: int| 0 <= j < a.len() ==> a[j].0 == b[j].0,
    ensures
        group_position(a, k) == group_position(b, k),
    decreases a.len(),
{
    if a.len() > 0 {
        lemma_group_position_same_keys(a.drop_last(), b.drop_last(), k);
    }
}

/// The documents a query matches in an index, grouped as a search groups
/// them, before the results are made and ranked.
pub open spec fn matched_documents(index: Index, query: Seq<char>) -> Seq<(usize, Seq<IEView>)> {
    let words = pieces(lowercase(query), |c: char| c == ' ');
    group_by_entry(query_ies(index.containers@, words).map_values(|ie: IEView| stopword_scored(ie)))
}

/// A word indexed in a document is found again: where an index's
/// containers are those that building from the documents `es` makes (with
/// any stems), and the query's words hold the normalized word `j` of
/// document `d` (indexing reaches that word: no word of the document before
/// it normalizes to nothing), the documents the query matches include `d`,
/// and a search that gives an output counts at least one hit.
pub proof fn lemma_indexed_word_is_found(
    index: Index,
    stems: Seq<(Seq<char>, Seq<Seq<char>>)>,
    es: Seq<IntermediateEntry>,
    d: int,
    j: int,
    query: Seq<char>,
)
    requires
        containers_view(index.containers@) == fill_entries(seq![], stems, es, 0),
        0 <= d < es.len(),
        d <= usize::MAX,
        reaches(word_views(es[d].contents.word_list@), 0, j),
        pieces(lowercase(query), |c: char| c == ' ').contains(
            normalize(word_views(es[d].contents.word_list@)[j].0),
        ),
    ensures
        group_position(matched_documents(index, query), d as usize) is Some,
        search_output(index, query) matches Some(o) ==> o.total_hit_count >= 1,
{
    let w = normalize(word_views(es[d].contents.word_list@)[j].0);
    lemma_fill_entries_makes(seq![], stems, es, 0, d, j);
    let words = pieces(lowercase(query), |c: char| c == ' ');
    let t = choose|t: int| 0 <= t < words.len() && words[t] == w;
    lemma_query_ies_mentions(index.containers@, words, t, d as usize);
    let ies = query_ies(index.containers@, words);
    lemma_scored_mentions(ies, d as usize);
    lemma_group_by_entry_has(ies.map_values(|ie: IEView| stopword_scored(ie)), d as usize);
    let gs = matched_documents(index, query);
    lemma_group_position(gs, d as usize);
}

} // verus!
