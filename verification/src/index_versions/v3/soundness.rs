//! What the containers of an index of the third format hold leads back to
//! its documents: every place recorded under a word is a place where a word
//! that normalizes to it occurs, and every alias points to a word that
//! occurs, from a proper prefix of it or from another word with its stem.
//! And the containers are kept as a map: no word has two containers, no
//! container two results for one document or two aliases to one word; what
//! they held before indexing stays as it was, added to only.

use super::builder::fill_containers::{
    add_alias, add_place, add_prefixes_from, add_reverse_stems, add_stem_aliases, all_cjk,
    empty_container, fill_entries, fill_entry, fill_words, key_pos, lemma_key_pos, lemma_result_pos,
    prefix_score, result_pos, title_words, with_alias, with_place, word_step, WordView, is_cjk_ideograph,
    add_prefixes,
};
use super::builder::intermediate_entry::{word_views, IntermediateEntry};
use super::builder::normalize;
use super::scores::STEM_SCORE;
use super::structs::{ContainerView, PlaceView, ResultView, WordListSource};
use crate::config::stemming_config::{stem_of, Algorithm};
use vstd::prelude::*;

verus! {

/// The words of the part `source` of a document.
pub open spec fn source_words(entry: IntermediateEntry, source: WordListSource) -> Seq<WordView> {
    match source {
        WordListSource::Title => title_words(entry.title@),
        WordListSource::Contents => word_views(entry.contents.word_list@),
    }
}

/// Whether document `e` of `es` has, at the place `x`, a word that
/// normalizes to the word `w`, which is not empty.
pub open spec fn occurs_at(es: Seq<IntermediateEntry>, w: Seq<char>, e: usize, x: PlaceView) -> bool {
    &&& w.len() > 0
    &&& e < es.len()
    &&& x.word_index < source_words(es[e as int], x.source).len()
    &&& normalize(source_words(es[e as int], x.source)[x.word_index as int].0) == w
}

/// Whether some word of some document of `es` normalizes to `w`.
pub open spec fn occurs(es: Seq<IntermediateEntry>, w: Seq<char>) -> bool {
    exists|e: usize, x: PlaceView| #[trigger] occurs_at(es, w, e, x)
}

/// Whether `p` and `t` are different words listed under one stem, that stem
/// being `t`'s under some algorithm.
pub open spec fn stem_siblings(stems: Seq<(Seq<char>, Seq<Seq<char>>)>, p: Seq<char>, t: Seq<char>) -> bool {
    &&& p != t
    &&& exists|q: int, a: Algorithm|
        #![trigger stems[q], stem_of(a, t)]
        0 <= q < stems.len() && stems[q].0 == stem_of(a, t) && stems[q].1.contains(p)
}

/// Whether an alias from the word `p` to the word `t` leads back to the
/// documents: `t` occurs in them, and `p` is a proper, non-empty prefix of
/// `t` or another word with its stem.
pub open spec fn alias_sound(
    es: Seq<IntermediateEntry>,
    stems: Seq<(Seq<char>, Seq<Seq<char>>)>,
    p: Seq<char>,
    t: Seq<char>,
) -> bool {
    &&& occurs(es, t)
    &&& (0 < p.len() < t.len() && t.take(p.len() as int) == p) || stem_siblings(stems, p, t)
}

/// The container that `cs0` holds at position `p`; an empty one past its
/// end.
pub open spec fn base_of(cs0: Seq<(Seq<char>, ContainerView)>, p: int) -> ContainerView {
    if 0 <= p < cs0.len() {
        cs0[p].1
    } else {
        empty_container()
    }
}

/// Whether a container's word is one that can only have come from the
/// documents or the stems: not empty, or listed under some stem.
pub open spec fn key_from(stems: Seq<(Seq<char>, Seq<Seq<char>>)>, k: Seq<char>) -> bool {
    k.len() > 0 || exists|q: int| 0 <= q < stems.len() && #[trigger] stems[q].1.contains(k)
}

/// Whether what the container `c` of the word `w` holds beyond what `b`
/// held leads back to the documents: each place that is not one of `b`'s,
/// at the same position, and each alias past `b`'s.
pub open spec fn container_sound_over(
    es: Seq<IntermediateEntry>,
    stems: Seq<(Seq<char>, Seq<Seq<char>>)>,
    w: Seq<char>,
    b: ContainerView,
    c: ContainerView,
) -> bool {
    &&& forall|r: int, m: int|
        0 <= r < c.results.len() && 0 <= m < c.results[r].1.places.len() && !(r < b.results.len() && m
            < b.results[r].1.places.len()) ==> occurs_at(
            es,
            w,
            c.results[r].0,
            #[trigger] c.results[r].1.places[m],
        )
    &&& forall|a: int| b.aliases.len() <= a < c.aliases.len() ==> alias_sound(es, stems, w, #[trigger] c.aliases[a].0)
}

/// Whether what the containers `cs` hold beyond what `cs0` held leads back
/// to the documents, and each container past those of `cs0` is under a
/// word from the documents or the stems.
pub open spec fn containers_sound_over(
    cs0: Seq<(Seq<char>, ContainerView)>,
    cs: Seq<(Seq<char>, ContainerView)>,
    es: Seq<IntermediateEntry>,
    stems: Seq<(Seq<char>, Seq<Seq<char>>)>,
) -> bool {
    forall|p: int|
        #![trigger cs[p]]
        0 <= p < cs.len() ==> container_sound_over(es, stems, cs[p].0, base_of(cs0, p), cs[p].1) && (p
            >= cs0.len() ==> key_from(stems, cs[p].0))
}

/// Whether everything the containers hold leads back to the documents.
pub open spec fn containers_sound(
    cs: Seq<(Seq<char>, ContainerView)>,
    es: Seq<IntermediateEntry>,
    stems: Seq<(Seq<char>, Seq<Seq<char>>)>,
) -> bool {
    containers_sound_over(seq![], cs, es, stems)
}

/// Whether each part of each document has no more words than a place can
/// number.
pub open spec fn word_counts_fit(es: Seq<IntermediateEntry>) -> bool {
    forall|e: int|
        0 <= e < es.len() ==> title_words((#[trigger] es[e]).title@).len() <= usize::MAX && word_views(
            es[e].contents.word_list@,
        ).len() <= usize::MAX
}

proof fn lemma_with_place(
    es: Seq<IntermediateEntry>,
    stems: Seq<(Seq<char>, Seq<Seq<char>>)>,
    w: Seq<char>,
    b: ContainerView,
    c: ContainerView,
    e: usize,
    x: PlaceView,
)
    requires
        container_sound_over(es, stems, w, b, c),
        occurs_at(es, w, e, x),
    ensures
        container_sound_over(es, stems, w, b, with_place(c, e, x)),
{
    lemma_result_pos(c.results, e);
    let n = with_place(c, e, x);
    assert(n.aliases == c.aliases);
    assert forall|r: int, m: int|
        0 <= r < n.results.len() && 0 <= m < n.results[r].1.places.len() && !(r < b.results.len() && m
            < b.results[r].1.places.len()) implies occurs_at(
        es,
        w,
        n.results[r].0,
        #[trigger] n.results[r].1.places[m],
    ) by {
        match result_pos(c.results, e) {
            Some(q) => {
                if r != q {
                    assert(n.results[r] == c.results[r]);
                    assert(occurs_at(es, w, c.results[r].0, c.results[r].1.places[m]));
                } else if m < c.results[q].1.places.len() {
                    assert(n.results[r].1.places[m] == c.results[q].1.places[m]);
                    assert(occurs_at(es, w, c.results[q].0, c.results[q].1.places[m]));
                } else {
                    assert(n.results[r].1.places[m] == x);
                }
            },
            None => {
                if r < c.results.len() {
                    assert(n.results[r] == c.results[r]);
                    assert(occurs_at(es, w, c.results[r].0, c.results[r].1.places[m]));
                } else {
                    assert(n.results[r].1.places[m] == x);
                }
            },
        }
    }
}

proof fn lemma_add_place(
    cs0: Seq<(Seq<char>, ContainerView)>,
    cs: Seq<(Seq<char>, ContainerView)>,
    es: Seq<IntermediateEntry>,
    stems: Seq<(Seq<char>, Seq<Seq<char>>)>,
    w: Seq<char>,
    e: usize,
    x: PlaceView,
)
    requires
        containers_sound_over(cs0, cs, es, stems),
        cs0.len() <= cs.len(),
        occurs_at(es, w, e, x),
    ensures
        containers_sound_over(cs0, add_place(cs, w, e, x), es, stems),
{
    lemma_key_pos(cs, w);
    let n = add_place(cs, w, e, x);
    match key_pos(cs, w) {
        Some(p) => {
            lemma_with_place(es, stems, w, base_of(cs0, p), cs[p].1, e, x);
            assert forall|i: int| #![trigger n[i]] 0 <= i < n.len() implies container_sound_over(
                es,
                stems,
                n[i].0,
                base_of(cs0, i),
                n[i].1,
            ) && (i >= cs0.len() ==> key_from(stems, n[i].0)) by {
                if i != p {
                    assert(n[i] == cs[i]);
                }
            }
        },
        None => {
            lemma_with_place(es, stems, w, empty_container(), empty_container(), e, x);
            assert forall|i: int| #![trigger n[i]] 0 <= i < n.len() implies container_sound_over(
                es,
                stems,
                n[i].0,
                base_of(cs0, i),
                n[i].1,
            ) && (i >= cs0.len() ==> key_from(stems, n[i].0)) by {
                if i < cs.len() {
                    assert(n[i] == cs[i]);
                }
            }
        },
    }
}

proof fn lemma_with_alias(
    es: Seq<IntermediateEntry>,
    stems: Seq<(Seq<char>, Seq<Seq<char>>)>,
    t: Seq<char>,
    b: ContainerView,
    c: ContainerView,
    a: Seq<char>,
    s: u8,
)
    requires
        container_sound_over(es, stems, t, b, c),
        b.aliases.len() <= c.aliases.len(),
        alias_sound(es, stems, t, a),
    ensures
        container_sound_over(es, stems, t, b, with_alias(c, a, s)),
{
    let n = with_alias(c, a, s);
    assert(n.results == c.results);
    assert forall|i: int| b.aliases.len() <= i < n.aliases.len() implies alias_sound(
        es,
        stems,
        t,
        #[trigger] n.aliases[i].0,
    ) by {
        if i < c.aliases.len() {
            assert(n.aliases[i] == c.aliases[i]);
        }
    }
}

proof fn lemma_add_alias(
    cs0: Seq<(Seq<char>, ContainerView)>,
    cs: Seq<(Seq<char>, ContainerView)>,
    es: Seq<IntermediateEntry>,
    stems: Seq<(Seq<char>, Seq<Seq<char>>)>,
    t: Seq<char>,
    a: Seq<char>,
    s: u8,
)
    requires
        containers_sound_over(cs0, cs, es, stems),
        containers_grow(cs0, cs),
        alias_sound(es, stems, t, a),
    ensures
        containers_sound_over(cs0, add_alias(cs, t, a, s), es, stems),
{
    lemma_key_pos(cs, t);
    let n = add_alias(cs, t, a, s);
    assert(key_from(stems, t)) by {
        if t.len() == 0 {
            let (q, al) = choose|q: int, al: Algorithm|
                #![trigger stems[q], stem_of(al, a)]
                0 <= q < stems.len() && stems[q].0 == stem_of(al, a) && stems[q].1.contains(t);
            assert(stems[q].1.contains(t));
        }
    }
    match key_pos(cs, t) {
        Some(p) => {
            if p < cs0.len() {
                assert(container_grows(cs0[p].1, cs[p].1));
            }
            lemma_with_alias(es, stems, t, base_of(cs0, p), cs[p].1, a, s);
            assert forall|i: int| #![trigger n[i]] 0 <= i < n.len() implies container_sound_over(
                es,
                stems,
                n[i].0,
                base_of(cs0, i),
                n[i].1,
            ) && (i >= cs0.len() ==> key_from(stems, n[i].0)) by {
                if i != p {
                    assert(n[i] == cs[i]);
                }
            }
        },
        None => {
            lemma_with_alias(es, stems, t, empty_container(), empty_container(), a, s);
            assert forall|i: int| #![trigger n[i]] 0 <= i < n.len() implies container_sound_over(
                es,
                stems,
                n[i].0,
                base_of(cs0, i),
                n[i].1,
            ) && (i >= cs0.len() ==> key_from(stems, n[i].0)) by {
                if i < cs.len() {
                    assert(n[i] == cs[i]);
                }
            }
        },
    }
}

proof fn lemma_add_prefixes_from(
    cs0: Seq<(Seq<char>, ContainerView)>,
    cs: Seq<(Seq<char>, ContainerView)>,
    es: Seq<IntermediateEntry>,
    stems: Seq<(Seq<char>, Seq<Seq<char>>)>,
    w: Seq<char>,
    n: int,
)
    requires
        containers_sound_over(cs0, cs, es, stems),
        containers_grow(cs0, cs),
        occurs(es, w),
    ensures
        containers_sound_over(cs0, add_prefixes_from(cs, w, n), es, stems),
    decreases w.len() - n,
{
    if !(n < 1 || n >= w.len()) {
        let sub = w.take(n);
        let next = if n < 3 && !all_cjk(sub) {
            cs
        } else {
            add_alias(cs, sub, w, prefix_score(w.len() as int, n))
        };
        if !(n < 3 && !all_cjk(sub)) {
            assert(w.take(sub.len() as int) == sub);
            lemma_add_alias(cs0, cs, es, stems, sub, w, prefix_score(w.len() as int, n));
            lemma_add_alias_grows(cs, sub, w, prefix_score(w.len() as int, n));
            lemma_grow_trans(cs0, cs, next);
        }
        lemma_add_prefixes_from(cs0, next, es, stems, w, n + 1);
    }
}

proof fn lemma_add_stem_aliases(
    cs0: Seq<(Seq<char>, ContainerView)>,
    cs: Seq<(Seq<char>, ContainerView)>,
    es: Seq<IntermediateEntry>,
    stems: Seq<(Seq<char>, Seq<Seq<char>>)>,
    q: int,
    alg: Algorithm,
    w: Seq<char>,
    k: int,
)
    requires
        containers_sound_over(cs0, cs, es, stems),
        containers_grow(cs0, cs),
        occurs(es, w),
        0 <= q < stems.len(),
        stems[q].0 == stem_of(alg, w),
    ensures
        containers_sound_over(cs0, add_stem_aliases(cs, stems[q].1, w, k), es, stems),
    decreases stems[q].1.len() - k,
{
    let rss = stems[q].1;
    if !(k < 0 || k >= rss.len()) {
        let next = if rss[k] != w {
            add_alias(cs, rss[k], w, STEM_SCORE)
        } else {
            cs
        };
        if rss[k] != w {
            assert(rss.contains(rss[k]));
            assert(stem_siblings(stems, rss[k], w));
            lemma_add_alias(cs0, cs, es, stems, rss[k], w, STEM_SCORE);
            lemma_add_alias_grows(cs, rss[k], w, STEM_SCORE);
            lemma_grow_trans(cs0, cs, next);
        }
        lemma_add_stem_aliases(cs0, next, es, stems, q, alg, w, k + 1);
    }
}

proof fn lemma_word_step(
    cs0: Seq<(Seq<char>, ContainerView)>,
    cs: Seq<(Seq<char>, ContainerView)>,
    es: Seq<IntermediateEntry>,
    stems: Seq<(Seq<char>, Seq<Seq<char>>)>,
    e: usize,
    alg: Option<Algorithm>,
    x: PlaceView,
    w: Seq<char>,
)
    requires
        containers_sound_over(cs0, cs, es, stems),
        containers_grow(cs0, cs),
        occurs_at(es, w, e, x),
    ensures
        containers_sound_over(
            cs0,
            word_step(cs, stems, e, alg, x.source, x.word_index, w, x.internal_annotations, x.fields),
            es,
            stems,
        ),
{
    let placed = add_place(cs, w, e, x);
    lemma_add_place(cs0, cs, es, stems, w, e, x);
    lemma_add_place_grows(cs, w, e, x);
    lemma_grow_trans(cs0, cs, placed);
    assert(occurs(es, w));
    lemma_add_prefixes_from(cs0, placed, es, stems, w, 1);
    let prefixed = add_prefixes_from(placed, w, 1);
    lemma_add_prefixes_grows(placed, w, 1);
    lemma_grow_trans(cs0, placed, prefixed);
    if let Some(a) = alg {
        let stem = stem_of(a, w);
        lemma_key_pos(stems, stem);
        if let Some(p) = key_pos(stems, stem) {
            lemma_add_stem_aliases(cs0, prefixed, es, stems, p, a, w, 0);
        }
    }
}

proof fn lemma_fill_words(
    cs0: Seq<(Seq<char>, ContainerView)>,
    cs: Seq<(Seq<char>, ContainerView)>,
    es: Seq<IntermediateEntry>,
    stems: Seq<(Seq<char>, Seq<Seq<char>>)>,
    e: usize,
    alg: Option<Algorithm>,
    source: WordListSource,
    i: int,
)
    requires
        containers_sound_over(cs0, cs, es, stems),
        containers_grow(cs0, cs),
        e < es.len(),
        source_words(es[e as int], source).len() <= usize::MAX,
    ensures
        containers_sound_over(
            cs0,
            fill_words(cs, stems, e, alg, source, source_words(es[e as int], source), i),
            es,
            stems,
        ),
    decreases source_words(es[e as int], source).len() - i,
{
    let ws = source_words(es[e as int], source);
    if !(i < 0 || i >= ws.len()) {
        let w = normalize(ws[i].0);
        if w.len() != 0 {
            let x = PlaceView {
                word_index: i as usize,
                source,
                internal_annotations: ws[i].1,
                fields: ws[i].2,
            };
            assert(occurs_at(es, w, e, x));
            let stepped = word_step(cs, stems, e, alg, source, i as usize, w, ws[i].1, ws[i].2);
            lemma_word_step(cs0, cs, es, stems, e, alg, x, w);
            lemma_word_step_grows(cs, stems, e, alg, x, w);
            lemma_grow_trans(cs0, cs, stepped);
            lemma_fill_words(cs0, stepped, es, stems, e, alg, source, i + 1);
        }
    }
}

proof fn lemma_fill_entries(
    cs0: Seq<(Seq<char>, ContainerView)>,
    cs: Seq<(Seq<char>, ContainerView)>,
    es: Seq<IntermediateEntry>,
    stems: Seq<(Seq<char>, Seq<Seq<char>>)>,
    k: int,
)
    requires
        containers_sound_over(cs0, cs, es, stems),
        containers_grow(cs0, cs),
        word_counts_fit(es),
    ensures
        containers_sound_over(cs0, fill_entries(cs, stems, es, k), es, stems),
    decreases es.len() - k,
{
    if !(k < 0 || k >= es.len() || k > usize::MAX) {
        let e = k as usize;
        let entry = es[k];
        assert(word_counts_fit(es) ==> title_words(es[k].title@).len() <= usize::MAX);
        lemma_fill_words(cs0, cs, es, stems, e, entry.stem_algorithm, WordListSource::Title, 0);
        let t = fill_words(cs, stems, e, entry.stem_algorithm, WordListSource::Title, title_words(entry.title@), 0);
        lemma_fill_words_grows(cs, stems, e, entry.stem_algorithm, WordListSource::Title, title_words(entry.title@), 0);
        lemma_grow_trans(cs0, cs, t);
        lemma_fill_words(cs0, t, es, stems, e, entry.stem_algorithm, WordListSource::Contents, 0);
        let f = fill_entry(cs, stems, e, entry);
        assert(f == fill_words(
            t,
            stems,
            e,
            entry.stem_algorithm,
            WordListSource::Contents,
            word_views(entry.contents.word_list@),
            0,
        ));
        lemma_fill_words_grows(
            t,
            stems,
            e,
            entry.stem_algorithm,
            WordListSource::Contents,
            word_views(entry.contents.word_list@),
            0,
        );
        lemma_grow_trans(cs0, t, f);
        lemma_fill_entries(cs0, f, es, stems, k + 1);
    }
}

/// Indexing documents into containers, whatever they held before, adds
/// only what leads back to the documents, and keeps what was there: every
/// place it records under a word in the result for a document is a place
/// of that document, in its title or its contents, where a word normalizes
/// to that word, which is not empty; every alias it adds to the container
/// of a word points to a word that occurs in the documents, from a proper,
/// non-empty prefix of it or from another word listed under its stem; every
/// container it adds is under a word that is not empty or is listed under a
/// stem; and each container already there stays under its word at its
/// position, with its results, places and aliases, scores included.
pub proof fn lemma_containers_sound(
    cs: Seq<(Seq<char>, ContainerView)>,
    stems: Seq<(Seq<char>, Seq<Seq<char>>)>,
    es: Seq<IntermediateEntry>,
)
    requires
        word_counts_fit(es),
    ensures
        containers_sound_over(cs, fill_entries(cs, stems, es, 0), es, stems),
        containers_grow(cs, fill_entries(cs, stems, es, 0)),
{
    lemma_grow_refl(cs);
    assert(containers_sound_over(cs, cs, es, stems));
    lemma_fill_entries(cs, cs, es, stems, 0);
    lemma_fill_entries_grows(cs, stems, es, 0);
}

/// From empty containers, everything the containers of an index hold leads
/// back to its documents.
pub proof fn lemma_built_containers_sound(stems: Seq<(Seq<char>, Seq<Seq<char>>)>, es: Seq<IntermediateEntry>)
    requires
        word_counts_fit(es),
    ensures
        containers_sound(fill_entries(seq![], stems, es, 0), es, stems),
{
    lemma_containers_sound(seq![], stems, es);
}

/// Whether no key occurs twice among the pairs `m`.
pub open spec fn distinct_keys<V>(m: Seq<(Seq<char>, V)>) -> bool {
    forall|i: int, j: int| #![trigger m[i], m[j]] 0 <= i < j < m.len() ==> m[i].0 != m[j].0
}

/// Whether no document has two results among `rs`.
pub open spec fn distinct_documents(rs: Seq<(usize, ResultView)>) -> bool {
    forall|i: int, j: int| #![trigger rs[i], rs[j]] 0 <= i < j < rs.len() ==> rs[i].0 != rs[j].0
}

/// Whether the containers are kept as a map: no word has two containers,
/// no container two results for one document or two aliases to one word.
pub open spec fn map_like(cs: Seq<(Seq<char>, ContainerView)>) -> bool {
    &&& distinct_keys(cs)
    &&& forall|p: int|
        #![trigger cs[p]]
        0 <= p < cs.len() ==> distinct_documents(cs[p].1.results) && distinct_keys(cs[p].1.aliases)
}

proof fn lemma_with_place_distinct(c: ContainerView, e: usize, x: PlaceView)
    requires
        distinct_documents(c.results),
    ensures
        distinct_documents(with_place(c, e, x).results),
        with_place(c, e, x).aliases == c.aliases,
{
    lemma_result_pos(c.results, e);
    let n = with_place(c, e, x).results;
    assert forall|i: int, j: int| #![trigger n[i], n[j]] 0 <= i < j < n.len() implies n[i].0 != n[j].0 by {
        if i < c.results.len() {
            assert(n[i].0 == c.results[i].0);
        }
        if j < c.results.len() {
            assert(n[j].0 == c.results[j].0);
        }
    }
}

proof fn lemma_with_alias_distinct(c: ContainerView, a: Seq<char>, s: u8)
    requires
        distinct_keys(c.aliases),
    ensures
        distinct_keys(with_alias(c, a, s).aliases),
        with_alias(c, a, s).results == c.results,
{
    lemma_key_pos(c.aliases, a);
    let n = with_alias(c, a, s).aliases;
    assert forall|i: int, j: int| #![trigger n[i], n[j]] 0 <= i < j < n.len() implies n[i].0 != n[j].0 by {
        if j < c.aliases.len() {
            assert(n[i] == c.aliases[i]);
            assert(n[j] == c.aliases[j]);
        } else {
            assert(n[i] == c.aliases[i]);
        }
    }
}

/// Replacing the container at `p`, or adding one under a word that has
/// none, keeps the containers a map.
proof fn lemma_put_container(cs: Seq<(Seq<char>, ContainerView)>, w: Seq<char>, c: ContainerView)
    requires
        map_like(cs),
        distinct_documents(c.results),
        distinct_keys(c.aliases),
    ensures
        map_like(
            match key_pos(cs, w) {
                Some(p) => cs.update(p, (w, c)),
                None => cs.push((w, c)),
            },
        ),
{
    lemma_key_pos(cs, w);
    let n = match key_pos(cs, w) {
        Some(p) => cs.update(p, (w, c)),
        None => cs.push((w, c)),
    };
    assert forall|i: int, j: int| #![trigger n[i], n[j]] 0 <= i < j < n.len() implies n[i].0 != n[j].0 by {
        if i < cs.len() {
            assert(n[i].0 == cs[i].0);
        }
        if j < cs.len() {
            assert(n[j].0 == cs[j].0);
        }
    }
    assert forall|p: int| #![trigger n[p]] 0 <= p < n.len() implies distinct_documents(n[p].1.results)
        && distinct_keys(n[p].1.aliases) by {
        if p < cs.len() && n[p] != (w, c) {
            assert(n[p] == cs[p]);
        }
    }
}

proof fn lemma_add_place_distinct(cs: Seq<(Seq<char>, ContainerView)>, w: Seq<char>, e: usize, x: PlaceView)
    requires
        map_like(cs),
    ensures
        map_like(add_place(cs, w, e, x)),
{
    lemma_key_pos(cs, w);
    let c = match key_pos(cs, w) {
        Some(p) => cs[p].1,
        None => empty_container(),
    };
    lemma_with_place_distinct(c, e, x);
    lemma_put_container(cs, w, with_place(c, e, x));
}

proof fn lemma_add_alias_distinct(cs: Seq<(Seq<char>, ContainerView)>, t: Seq<char>, a: Seq<char>, s: u8)
    requires
        map_like(cs),
    ensures
        map_like(add_alias(cs, t, a, s)),
{
    lemma_key_pos(cs, t);
    let c = match key_pos(cs, t) {
        Some(p) => cs[p].1,
        None => empty_container(),
    };
    lemma_with_alias_distinct(c, a, s);
    lemma_put_container(cs, t, with_alias(c, a, s));
}

proof fn lemma_add_prefixes_distinct(cs: Seq<(Seq<char>, ContainerView)>, w: Seq<char>, n: int)
    requires
        map_like(cs),
    ensures
        map_like(add_prefixes_from(cs, w, n)),
    decreases w.len() - n,
{
    if !(n < 1 || n >= w.len()) {
        let sub = w.take(n);
        let next = if n < 3 && !all_cjk(sub) {
            cs
        } else {
            add_alias(cs, sub, w, prefix_score(w.len() as int, n))
        };
        lemma_add_alias_distinct(cs, sub, w, prefix_score(w.len() as int, n));
        lemma_add_prefixes_distinct(next, w, n + 1);
    }
}

proof fn lemma_add_stem_aliases_distinct(
    cs: Seq<(Seq<char>, ContainerView)>,
    rss: Seq<Seq<char>>,
    w: Seq<char>,
    k: int,
)
    requires
        map_like(cs),
    ensures
        map_like(add_stem_aliases(cs, rss, w, k)),
    decreases rss.len() - k,
{
    if !(k < 0 || k >= rss.len()) {
        let next = if rss[k] != w {
            add_alias(cs, rss[k], w, STEM_SCORE)
        } else {
            cs
        };
        lemma_add_alias_distinct(cs, rss[k], w, STEM_SCORE);
        lemma_add_stem_aliases_distinct(next, rss, w, k + 1);
    }
}

proof fn lemma_fill_words_distinct(
    cs: Seq<(Seq<char>, ContainerView)>,
    stems: Seq<(Seq<char>, Seq<Seq<char>>)>,
    e: usize,
    alg: Option<Algorithm>,
    source: WordListSource,
    ws: Seq<WordView>,
    i: int,
)
    requires
        map_like(cs),
    ensures
        map_like(fill_words(cs, stems, e, alg, source, ws, i)),
    decreases ws.len() - i,
{
    if !(i < 0 || i >= ws.len()) {
        let w = normalize(ws[i].0);
        if w.len() != 0 {
            let x = PlaceView {
                word_index: i as usize,
                source,
                internal_annotations: ws[i].1,
                fields: ws[i].2,
            };
            let placed = add_place(cs, w, e, x);
            lemma_add_place_distinct(cs, w, e, x);
            lemma_add_prefixes_distinct(placed, w, 1);
            let prefixed = add_prefixes_from(placed, w, 1);
            if let Some(a) = alg {
                if let Some(p) = key_pos(stems, stem_of(a, w)) {
                    lemma_add_stem_aliases_distinct(prefixed, stems[p].1, w, 0);
                }
            }
            lemma_fill_words_distinct(
                word_step(cs, stems, e, alg, source, i as usize, w, ws[i].1, ws[i].2),
                stems,
                e,
                alg,
                source,
                ws,
                i + 1,
            );
        }
    }
}

proof fn lemma_fill_entries_distinct(
    cs: Seq<(Seq<char>, ContainerView)>,
    stems: Seq<(Seq<char>, Seq<Seq<char>>)>,
    es: Seq<IntermediateEntry>,
    k: int,
)
    requires
        map_like(cs),
    ensures
        map_like(fill_entries(cs, stems, es, k)),
    decreases es.len() - k,
{
    if !(k < 0 || k >= es.len() || k > usize::MAX) {
        let e = k as usize;
        let entry = es[k];
        lemma_fill_words_distinct(cs, stems, e, entry.stem_algorithm, WordListSource::Title, title_words(entry.title@), 0);
        let t = fill_words(cs, stems, e, entry.stem_algorithm, WordListSource::Title, title_words(entry.title@), 0);
        lemma_fill_words_distinct(
            t,
            stems,
            e,
            entry.stem_algorithm,
            WordListSource::Contents,
            word_views(entry.contents.word_list@),
            0,
        );
        lemma_fill_entries_distinct(fill_entry(cs, stems, e, entry), stems, es, k + 1);
    }
}

/// The containers of an index are kept as a map, as a hash map keyed by
/// word would keep them: no word has two containers, no container has two
/// results for one document, and none has two aliases to one word.
pub proof fn lemma_containers_map_like(stems: Seq<(Seq<char>, Seq<Seq<char>>)>, es: Seq<IntermediateEntry>)
    ensures
        map_like(fill_entries(seq![], stems, es, 0)),
{
    lemma_fill_entries_distinct(seq![], stems, es, 0);
}

/// Whether the container `c1` keeps what `c0` holds: its results, each for
/// the same document with the same score and the same places first, and its
/// aliases, each to the same word with the same score.
pub open spec fn container_grows(c0: ContainerView, c1: ContainerView) -> bool {
    &&& c0.results.len() <= c1.results.len()
    &&& forall|r: int|
        #![trigger c1.results[r]]
        0 <= r < c0.results.len() ==> c1.results[r].0 == c0.results[r].0 && c1.results[r].1.score
            == c0.results[r].1.score && c0.results[r].1.places.len() <= c1.results[r].1.places.len()
            && forall|m: int|
            0 <= m < c0.results[r].1.places.len() ==> #[trigger] c1.results[r].1.places[m]
                == c0.results[r].1.places[m]
    &&& c0.aliases.len() <= c1.aliases.len()
    &&& forall|a: int| 0 <= a < c0.aliases.len() ==> #[trigger] c1.aliases[a] == c0.aliases[a]
}

/// Whether the containers `cs1` keep what `cs0` holds: each container under
/// the same word at the same position, keeping what it held.
pub open spec fn containers_grow(cs0: Seq<(Seq<char>, ContainerView)>, cs1: Seq<(Seq<char>, ContainerView)>) -> bool {
    &&& cs0.len() <= cs1.len()
    &&& forall|p: int|
        #![trigger cs1[p]]
        0 <= p < cs0.len() ==> cs1[p].0 == cs0[p].0 && container_grows(cs0[p].1, cs1[p].1)
}

proof fn lemma_grow_refl(cs: Seq<(Seq<char>, ContainerView)>)
    ensures
        containers_grow(cs, cs),
{
}

proof fn lemma_grow_trans(
    a: Seq<(Seq<char>, ContainerView)>,
    b: Seq<(Seq<char>, ContainerView)>,
    c: Seq<(Seq<char>, ContainerView)>,
)
    requires
        containers_grow(a, b),
        containers_grow(b, c),
    ensures
        containers_grow(a, c),
{
    assert forall|p: int| #![trigger c[p]] 0 <= p < a.len() implies c[p].0 == a[p].0 && container_grows(
        a[p].1,
        c[p].1,
    ) by {
        assert(b[p].0 == a[p].0 && container_grows(a[p].1, b[p].1));
        assert(c[p].0 == b[p].0 && container_grows(b[p].1, c[p].1));
        let (x, y, z) = (a[p].1, b[p].1, c[p].1);
        assert forall|r: int| #![trigger z.results[r]] 0 <= r < x.results.len() implies z.results[r].0
            == x.results[r].0 && z.results[r].1.score == x.results[r].1.score
            && x.results[r].1.places.len() <= z.results[r].1.places.len() && forall|m: int|
            0 <= m < x.results[r].1.places.len() ==> #[trigger] z.results[r].1.places[m]
                == x.results[r].1.places[m] by {
            assert(y.results[r].0 == x.results[r].0);
            assert(z.results[r].0 == y.results[r].0);
            assert forall|m: int| 0 <= m < x.results[r].1.places.len() implies #[trigger] z.results[r].1.places[m]
                == x.results[r].1.places[m] by {
                assert(y.results[r].1.places[m] == x.results[r].1.places[m]);
            }
        }
        assert forall|q: int| 0 <= q < x.aliases.len() implies #[trigger] z.aliases[q] == x.aliases[q] by {
            assert(y.aliases[q] == x.aliases[q]);
        }
    }
}

proof fn lemma_with_place_grows(c: ContainerView, e: usize, x: PlaceView)
    ensures
        container_grows(c, with_place(c, e, x)),
{
    lemma_result_pos(c.results, e);
    let n = with_place(c, e, x);
    assert forall|r: int| #![trigger n.results[r]] 0 <= r < c.results.len() implies n.results[r].0
        == c.results[r].0 && n.results[r].1.score == c.results[r].1.score
        && c.results[r].1.places.len() <= n.results[r].1.places.len() && forall|m: int|
        0 <= m < c.results[r].1.places.len() ==> #[trigger] n.results[r].1.places[m]
            == c.results[r].1.places[m] by {
        match result_pos(c.results, e) {
            Some(q) => {
                if r == q {
                    assert forall|m: int| 0 <= m < c.results[r].1.places.len() implies #[trigger] n.results[r].1.places[m]
                        == c.results[r].1.places[m] by {}
                } else {
                    assert(n.results[r] == c.results[r]);
                }
            },
            None => {
                assert(n.results[r] == c.results[r]);
            },
        }
    }
}

proof fn lemma_with_alias_grows(c: ContainerView, a: Seq<char>, s: u8)
    ensures
        container_grows(c, with_alias(c, a, s)),
{
    let n = with_alias(c, a, s);
    assert forall|r: int| #![trigger n.results[r]] 0 <= r < c.results.len() implies n.results[r].0
        == c.results[r].0 && n.results[r].1.score == c.results[r].1.score
        && c.results[r].1.places.len() <= n.results[r].1.places.len() && forall|m: int|
        0 <= m < c.results[r].1.places.len() ==> #[trigger] n.results[r].1.places[m]
            == c.results[r].1.places[m] by {
        assert(n.results == c.results);
    }
}

proof fn lemma_put_grows(cs: Seq<(Seq<char>, ContainerView)>, w: Seq<char>, c: ContainerView)
    requires
        key_pos(cs, w) matches Some(p) ==> container_grows(cs[p].1, c),
    ensures
        containers_grow(
            cs,
            match key_pos(cs, w) {
                Some(p) => cs.update(p, (w, c)),
                None => cs.push((w, c)),
            },
        ),
{
    lemma_key_pos(cs, w);
    let n = match key_pos(cs, w) {
        Some(p) => cs.update(p, (w, c)),
        None => cs.push((w, c)),
    };
    assert forall|p: int| #![trigger n[p]] 0 <= p < cs.len() implies n[p].0 == cs[p].0 && container_grows(
        cs[p].1,
        n[p].1,
    ) by {
        if key_pos(cs, w) == Some(p) {
        } else {
            assert(n[p] == cs[p]);
            lemma_grow_refl(cs);
        }
    }
}

proof fn lemma_add_place_grows(cs: Seq<(Seq<char>, ContainerView)>, w: Seq<char>, e: usize, x: PlaceView)
    ensures
        containers_grow(cs, add_place(cs, w, e, x)),
{
    lemma_key_pos(cs, w);
    let c = match key_pos(cs, w) {
        Some(p) => cs[p].1,
        None => empty_container(),
    };
    lemma_with_place_grows(c, e, x);
    lemma_put_grows(cs, w, with_place(c, e, x));
}

proof fn lemma_add_alias_grows(cs: Seq<(Seq<char>, ContainerView)>, t: Seq<char>, a: Seq<char>, s: u8)
    ensures
        containers_grow(cs, add_alias(cs, t, a, s)),
{
    lemma_key_pos(cs, t);
    let c = match key_pos(cs, t) {
        Some(p) => cs[p].1,
        None => empty_container(),
    };
    lemma_with_alias_grows(c, a, s);
    lemma_put_grows(cs, t, with_alias(c, a, s));
}

proof fn lemma_add_prefixes_grows(cs: Seq<(Seq<char>, ContainerView)>, w: Seq<char>, n: int)
    ensures
        containers_grow(cs, add_prefixes_from(cs, w, n)),
    decreases w.len() - n,
{
    if !(n < 1 || n >= w.len()) {
        let sub = w.take(n);
        let next = if n < 3 && !all_cjk(sub) {
            cs
        } else {
            add_alias(cs, sub, w, prefix_score(w.len() as int, n))
        };
        lemma_add_alias_grows(cs, sub, w, prefix_score(w.len() as int, n));
        lemma_grow_refl(cs);
        lemma_add_prefixes_grows(next, w, n + 1);
        lemma_grow_trans(cs, next, add_prefixes_from(next, w, n + 1));
    } else {
        lemma_grow_refl(cs);
    }
}

proof fn lemma_add_stem_aliases_grows(cs: Seq<(Seq<char>, ContainerView)>, rss: Seq<Seq<char>>, w: Seq<char>, k: int)
    ensures
        containers_grow(cs, add_stem_aliases(cs, rss, w, k)),
    decreases rss.len() - k,
{
    if !(k < 0 || k >= rss.len()) {
        let next = if rss[k] != w {
            add_alias(cs, rss[k], w, STEM_SCORE)
        } else {
            cs
        };
        lemma_add_alias_grows(cs, rss[k], w, STEM_SCORE);
        lemma_grow_refl(cs);
        lemma_add_stem_aliases_grows(next, rss, w, k + 1);
        lemma_grow_trans(cs, next, add_stem_aliases(next, rss, w, k + 1));
    } else {
        lemma_grow_refl(cs);
    }
}

proof fn lemma_word_step_grows(
    cs: Seq<(Seq<char>, ContainerView)>,
    stems: Seq<(Seq<char>, Seq<Seq<char>>)>,
    e: usize,
    alg: Option<Algorithm>,
    x: PlaceView,
    w: Seq<char>,
)
    ensures
        containers_grow(
            cs,
            word_step(cs, stems, e, alg, x.source, x.word_index, w, x.internal_annotations, x.fields),
        ),
{
    let placed = add_place(cs, w, e, x);
    lemma_add_place_grows(cs, w, e, x);
    let prefixed = add_prefixes_from(placed, w, 1);
    lemma_add_prefixes_grows(placed, w, 1);
    lemma_grow_trans(cs, placed, prefixed);
    if let Some(a) = alg {
        if let Some(p) = key_pos(stems, stem_of(a, w)) {
            lemma_add_stem_aliases_grows(prefixed, stems[p].1, w, 0);
            lemma_grow_trans(cs, prefixed, add_stem_aliases(prefixed, stems[p].1, w, 0));
        }
    }
}

proof fn lemma_fill_words_grows(
    cs: Seq<(Seq<char>, ContainerView)>,
    stems: Seq<(Seq<char>, Seq<Seq<char>>)>,
    e: usize,
    alg: Option<Algorithm>,
    source: WordListSource,
    ws: Seq<WordView>,
    i: int,
)
    ensures
        containers_grow(cs, fill_words(cs, stems, e, alg, source, ws, i)),
    decreases ws.len() - i,
{
    lemma_grow_refl(cs);
    if !(i < 0 || i >= ws.len()) {
        let w = normalize(ws[i].0);
        if w.len() != 0 {
            let x = PlaceView {
                word_index: i as usize,
                source,
                internal_annotations: ws[i].1,
                fields: ws[i].2,
            };
            let placed = add_place(cs, w, e, x);
            lemma_add_place_grows(cs, w, e, x);
            let prefixed = add_prefixes_from(placed, w, 1);
            lemma_add_prefixes_grows(placed, w, 1);
            lemma_grow_trans(cs, placed, prefixed);
            let stepped = word_step(cs, stems, e, alg, source, i as usize, w, ws[i].1, ws[i].2);
            if let Some(a) = alg {
                if let Some(p) = key_pos(stems, stem_of(a, w)) {
                    lemma_add_stem_aliases_grows(prefixed, stems[p].1, w, 0);
                    lemma_grow_trans(cs, prefixed, stepped);
                }
            }
            lemma_fill_words_grows(stepped, stems, e, alg, source, ws, i + 1);
            lemma_grow_trans(cs, stepped, fill_words(stepped, stems, e, alg, source, ws, i + 1));
        }
    }
}

proof fn lemma_fill_entries_grows(
    cs: Seq<(Seq<char>, ContainerView)>,
    stems: Seq<(Seq<char>, Seq<Seq<char>>)>,
    es: Seq<IntermediateEntry>,
    k: int,
)
    ensures
        containers_grow(cs, fill_entries(cs, stems, es, k)),
    decreases es.len() - k,
{
    lemma_grow_refl(cs);
    if !(k < 0 || k >= es.len() || k > usize::MAX) {
        let e = k as usize;
        let entry = es[k];
        let t = fill_words(cs, stems, e, entry.stem_algorithm, WordListSource::Title, title_words(entry.title@), 0);
        lemma_fill_words_grows(cs, stems, e, entry.stem_algorithm, WordListSource::Title, title_words(entry.title@), 0);
        let f = fill_entry(cs, stems, e, entry);
        lemma_fill_words_grows(
            t,
            stems,
            e,
            entry.stem_algorithm,
            WordListSource::Contents,
            word_views(entry.contents.word_list@),
            0,
        );
        lemma_grow_trans(cs, t, f);
        lemma_fill_entries_grows(f, stems, es, k + 1);
        lemma_grow_trans(cs, f, fill_entries(f, stems, es, k + 1));
    }
}

/// Indexing documents into containers that already hold something keeps
/// what they held: each container stays under its word at its position,
/// its results keep their documents, scores and places, and its aliases
/// keep their words and scores; indexing only adds.
pub proof fn lemma_containers_grow(
    cs: Seq<(Seq<char>, ContainerView)>,
    stems: Seq<(Seq<char>, Seq<Seq<char>>)>,
    es: Seq<IntermediateEntry>,
)
    ensures
        containers_grow(cs, fill_entries(cs, stems, es, 0)),
{
    lemma_fill_entries_grows(cs, stems, es, 0);
}

/// Whether the container of the word `p` holds an alias to the word `t`.
pub open spec fn has_alias(cs: Seq<(Seq<char>, ContainerView)>, p: Seq<char>, t: Seq<char>) -> bool {
    exists|i: int, a: int|
        #![trigger cs[i].1.aliases[a]]
        0 <= i < cs.len() && cs[i].0 == p && 0 <= a < cs[i].1.aliases.len() && cs[i].1.aliases[a].0 == t
}

/// An alias, once there, stays as containers grow.
proof fn lemma_has_alias_grows(
    cs: Seq<(Seq<char>, ContainerView)>,
    cs1: Seq<(Seq<char>, ContainerView)>,
    p: Seq<char>,
    t: Seq<char>,
)
    requires
        has_alias(cs, p, t),
        containers_grow(cs, cs1),
    ensures
        has_alias(cs1, p, t),
{
    let (i, a) = choose|i: int, a: int|
        #![trigger cs[i].1.aliases[a]]
        0 <= i < cs.len() && cs[i].0 == p && 0 <= a < cs[i].1.aliases.len() && cs[i].1.aliases[a].0 == t;
    assert(cs1[i].0 == cs[i].0 && container_grows(cs[i].1, cs1[i].1));
    assert(cs1[i].1.aliases[a] == cs[i].1.aliases[a]);
}

/// Adding an alias from `p` to `t` leaves one there.
proof fn lemma_add_alias_has(cs: Seq<(Seq<char>, ContainerView)>, p: Seq<char>, t: Seq<char>, s: u8)
    ensures
        has_alias(add_alias(cs, p, t, s), p, t),
{
    lemma_key_pos(cs, p);
    let n = add_alias(cs, p, t, s);
    match key_pos(cs, p) {
        Some(i) => {
            let c = cs[i].1;
            lemma_key_pos(c.aliases, t);
            match key_pos(c.aliases, t) {
                Some(a) => {
                    assert(n[i].1.aliases[a].0 == t);
                },
                None => {
                    assert(n[i].1.aliases[c.aliases.len() as int].0 == t);
                },
            }
        },
        None => {
            assert(n[cs.len() as int].1.aliases[0].0 == t);
        },
    }
}

proof fn lemma_prefixes_from_alias(cs: Seq<(Seq<char>, ContainerView)>, w: Seq<char>, m: int, n: int)
    requires
        1 <= m <= n < w.len(),
        n >= 3 || all_cjk(w.take(n)),
    ensures
        has_alias(add_prefixes_from(cs, w, m), w.take(n), w),
    decreases w.len() - m,
{
    let sub = w.take(m);
    let next = if m < 3 && !all_cjk(sub) {
        cs
    } else {
        add_alias(cs, sub, w, prefix_score(w.len() as int, m))
    };
    if m < n {
        lemma_prefixes_from_alias(next, w, m + 1, n);
    } else {
        lemma_add_alias_has(cs, sub, w, prefix_score(w.len() as int, m));
        lemma_add_prefixes_grows(next, w, m + 1);
        lemma_has_alias_grows(next, add_prefixes_from(next, w, m + 1), sub, w);
    }
}

/// Every proper, non-empty prefix of an indexed word gets an alias to the
/// word in its container, where it has at least three characters or all its
/// characters are CJK ideographs.
pub proof fn lemma_prefixes_aliased(cs: Seq<(Seq<char>, ContainerView)>, w: Seq<char>, n: int)
    requires
        1 <= n < w.len(),
        n >= 3 || all_cjk(w.take(n)),
    ensures
        has_alias(add_prefixes(cs, w), w.take(n), w),
{
    lemma_prefixes_from_alias(cs, w, 1, n);
}

/// For a word written in CJK Unified Ideographs (U+4E00 to U+9FFF), every
/// proper, non-empty prefix, however short, gets an alias to the word in
/// its container.
pub proof fn lemma_cjk_prefixes_aliased(cs: Seq<(Seq<char>, ContainerView)>, w: Seq<char>, n: int)
    requires
        1 <= n < w.len(),
        forall|i: int| 0 <= i < w.len() ==> 0x4E00 <= #[trigger] (w[i] as u32) <= 0x9FFF,
    ensures
        has_alias(add_prefixes(cs, w), w.take(n), w),
{
    assert forall|i: int| 0 <= i < w.take(n).len() implies is_cjk_ideograph(#[trigger] w.take(n)[i]) by {
        assert(w.take(n)[i] == w[i]);
        assert(0x4E00 <= (w[i] as u32) <= 0x9FFF);
    }
    lemma_prefixes_aliased(cs, w, n);
}

} // verus!
