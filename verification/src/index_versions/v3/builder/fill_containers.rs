//! Filling the containers of an index: the places each word occurs, and the
//! aliases from the prefixes and stems of words back to the words.

use super::intermediate_entry::{word_views, IntermediateEntry};
use super::normalize;
use super::normalize_word;
use super::super::scores::{MATCHED_WORD_SCORE, PREFIX_SCORE, STEM_SCORE};
use super::super::search::{find_key, find_key_exec, lemma_find_key};
use super::super::structs::{
    containers_view, AnnotatedWord, Container, ContainerView, Excerpt, PlaceView, ResultView,
    SearchResult, WordListSource,
};
use crate::common::{copy_annotations, copy_string, InternalWordAnnotation};
use crate::config::stemming_config::{stem_of, stem_word, Algorithm};
use crate::text::{chars_of, split_whitespace, split_ws, string_from_chars, views};
use vstd::prelude::*;

verus! {

/// The first position of key `k` in `m`.
pub open spec fn key_pos<V>(m: Seq<(Seq<char>, V)>, k: Seq<char>) -> Option<int>
    decreases m.len(),
{
    if m.len() == 0 {
        None
    } else {
        match key_pos(m.drop_last(), k) {
            Some(i) => Some(i),
            None => if m.last().0 == k {
                Some(m.len() - 1)
            } else {
                None
            },
        }
    }
}

pub proof fn lemma_key_pos<V>(m: Seq<(Seq<char>, V)>, k: Seq<char>)
    ensures
        match key_pos(m, k) {
            Some(i) => 0 <= i < m.len() && m[i].0 == k && forall|j: int|
                0 <= j < i ==> m[j].0 != k,
            None => forall|j: int| 0 <= j < m.len() ==> m[j].0 != k,
        },
    decreases m.len(),
{
    if m.len() > 0 {
        lemma_key_pos(m.drop_last(), k);
        assert forall|j: int| 0 <= j < m.len() - 1 implies m.drop_last()[j] == m[j] by {}
    }
}

/// A key's first position in a list of pairs is its first position in the
/// list of their views.
pub proof fn lemma_key_pos_of_containers(cs: Seq<(String, Container)>, k: Seq<char>)
    ensures
        key_pos(containers_view(cs), k) == find_key(cs, k),
    decreases cs.len(),
{
    if cs.len() > 0 {
        assert(containers_view(cs.drop_last()) =~= containers_view(cs).drop_last());
        lemma_key_pos_of_containers(cs.drop_last(), k);
    }
}

/// The position of the result for document `e`.
pub open spec fn result_pos(rs: Seq<(usize, ResultView)>, e: usize) -> Option<int>
    decreases rs.len(),
{
    if rs.len() == 0 {
        None
    } else {
        match result_pos(rs.drop_last(), e) {
            Some(i) => Some(i),
            None => if rs.last().0 == e {
                Some(rs.len() - 1)
            } else {
                None
            },
        }
    }
}

pub proof fn lemma_result_pos(rs: Seq<(usize, ResultView)>, e: usize)
    ensures
        match result_pos(rs, e) {
            Some(i) => 0 <= i < rs.len() && rs[i].0 == e && forall|j: int|
                0 <= j < i ==> rs[j].0 != e,
            None => forall|j: int| 0 <= j < rs.len() ==> rs[j].0 != e,
        },
    decreases rs.len(),
{
    if rs.len() > 0 {
        lemma_result_pos(rs.drop_last(), e);
        assert forall|j: int| 0 <= j < rs.len() - 1 implies rs.drop_last()[j] == rs[j] by {}
    }
}

/// A container that matches nothing.
pub open spec fn empty_container() -> ContainerView {
    ContainerView { results: seq![], aliases: seq![] }
}

/// `c` with the place `x` added to its result for document `e`, which is
/// made, with the score of a matched word, if there is none.
pub open spec fn with_place(c: ContainerView, e: usize, x: PlaceView) -> ContainerView {
    match result_pos(c.results, e) {
        Some(q) => ContainerView {
            results: c.results.update(
                q,
                (e, ResultView { places: c.results[q].1.places.push(x), score: c.results[q].1.score }),
            ),
            ..c
        },
        None => ContainerView {
            results: c.results.push((e, ResultView { places: seq![x], score: MATCHED_WORD_SCORE })),
            ..c
        },
    }
}

/// The containers with the place `x` of word `w` in document `e` added.
pub open spec fn add_place(cs: Seq<(Seq<char>, ContainerView)>, w: Seq<char>, e: usize, x: PlaceView) -> Seq<
    (Seq<char>, ContainerView),
> {
    match key_pos(cs, w) {
        Some(p) => cs.update(p, (w, with_place(cs[p].1, e, x))),
        None => cs.push((w, with_place(empty_container(), e, x))),
    }
}

/// `c` with an alias to `a` scoring `s`, unless it has an alias to `a`
/// already.
pub open spec fn with_alias(c: ContainerView, a: Seq<char>, s: u8) -> ContainerView {
    if key_pos(c.aliases, a) is Some {
        c
    } else {
        ContainerView { aliases: c.aliases.push((a, s)), ..c }
    }
}

/// The containers with an alias from word `t` to word `a` scoring `s`; the
/// container of `t` is made if there is none.
pub open spec fn add_alias(cs: Seq<(Seq<char>, ContainerView)>, t: Seq<char>, a: Seq<char>, s: u8) -> Seq<
    (Seq<char>, ContainerView),
> {
    match key_pos(cs, t) {
        Some(p) => cs.update(p, (t, with_alias(cs[p].1, a, s))),
        None => cs.push((t, with_alias(empty_container(), a, s))),
    }
}

/// Whether a character is a CJK unified or compatibility ideograph.
pub open spec fn is_cjk_ideograph(c: char) -> bool {
    let u = c as u32;
    ||| 0x4E00 <= u <= 0x9FFF
    ||| 0x3400 <= u <= 0x4DBF
    ||| 0x20000 <= u <= 0x2A6DF
    ||| 0x2A700 <= u <= 0x2EBEF
    ||| 0x30000 <= u <= 0x3134F
    ||| 0xF900 <= u <= 0xFAFF
}

/// Whether every character of `s` is a CJK ideograph.
pub open spec fn all_cjk(s: Seq<char>) -> bool {
    forall|i: int| 0 <= i < s.len() ==> is_cjk_ideograph(#[trigger] s[i])
}

/// The score of an alias from the prefix of length `n` of a word of `len`
/// characters: 127 less one for each character the prefix lacks, the
/// difference counted in a byte and wrapping around below zero, as the
/// byte arithmetic of a release build does for very long words.
pub open spec fn prefix_score(len: int, n: int) -> u8 {
    PREFIX_SCORE.wrapping_sub((len - n) as u8)
}

/// The containers with aliases to `w` from its prefixes of `n` characters
/// and more, short of `w` itself; a prefix shorter than three characters
/// gets one only if all its characters are CJK ideographs.
pub open spec fn add_prefixes_from(cs: Seq<(Seq<char>, ContainerView)>, w: Seq<char>, n: int) -> Seq<
    (Seq<char>, ContainerView),
>
    decreases w.len() - n,
{
    if n < 1 || n >= w.len() {
        cs
    } else {
        let sub = w.take(n);
        let next = if n < 3 && !all_cjk(sub) {
            cs
        } else {
            add_alias(cs, sub, w, prefix_score(w.len() as int, n))
        };
        add_prefixes_from(next, w, n + 1)
    }
}

/// The containers with aliases to `w` from each of its proper prefixes.
pub open spec fn add_prefixes(cs: Seq<(Seq<char>, ContainerView)>, w: Seq<char>) -> Seq<
    (Seq<char>, ContainerView),
> {
    add_prefixes_from(cs, w, 1)
}

/// The containers with aliases to `w` from the words `rss[k..]` other than
/// `w`.
pub open spec fn add_stem_aliases(
    cs: Seq<(Seq<char>, ContainerView)>,
    rss: Seq<Seq<char>>,
    w: Seq<char>,
    k: int,
) -> Seq<(Seq<char>, ContainerView)>
    decreases rss.len() - k,
{
    if k < 0 || k >= rss.len() {
        cs
    } else {
        let next = if rss[k] != w {
            add_alias(cs, rss[k], w, STEM_SCORE)
        } else {
            cs
        };
        add_stem_aliases(next, rss, w, k + 1)
    }
}

/// The containers with aliases to `w` from the other words with the stem
/// `stem`.
pub open spec fn add_reverse_stems(
    cs: Seq<(Seq<char>, ContainerView)>,
    stems: Seq<(Seq<char>, Seq<Seq<char>>)>,
    stem: Seq<char>,
    w: Seq<char>,
) -> Seq<(Seq<char>, ContainerView)> {
    match key_pos(stems, stem) {
        Some(p) => add_stem_aliases(cs, stems[p].1, w, 0),
        None => cs,
    }
}

/// What indexing the normalized word `w`, found at place `i` of the part
/// `source` of document `e` with annotations `ann` and fields `fields`, does
/// to the containers.
pub open spec fn word_step(
    cs: Seq<(Seq<char>, ContainerView)>,
    stems: Seq<(Seq<char>, Seq<Seq<char>>)>,
    e: usize,
    alg: Option<Algorithm>,
    source: WordListSource,
    i: usize,
    w: Seq<char>,
    ann: Seq<InternalWordAnnotation>,
    fields: Seq<(String, String)>,
) -> Seq<(Seq<char>, ContainerView)> {
    let placed = add_place(
        cs,
        w,
        e,
        PlaceView { word_index: i, source, internal_annotations: ann, fields },
    );
    let prefixed = add_prefixes(placed, w);
    match alg {
        Some(a) => add_reverse_stems(prefixed, stems, stem_of(a, w), w),
        None => prefixed,
    }
}

/// A word with its annotations and fields, taken by their views.
pub type WordView = (Seq<char>, Seq<InternalWordAnnotation>, Seq<(String, String)>);

/// The containers after indexing the words `ws[i..]` of the part `source` of
/// document `e`, stopping at the first word that normalizes to nothing.
pub open spec fn fill_words(
    cs: Seq<(Seq<char>, ContainerView)>,
    stems: Seq<(Seq<char>, Seq<Seq<char>>)>,
    e: usize,
    alg: Option<Algorithm>,
    source: WordListSource,
    ws: Seq<WordView>,
    i: int,
) -> Seq<(Seq<char>, ContainerView)>
    decreases ws.len() - i,
{
    if i < 0 || i >= ws.len() {
        cs
    } else {
        let w = normalize(ws[i].0);
        if w.len() == 0 {
            cs
        } else {
            fill_words(
                word_step(cs, stems, e, alg, source, i as usize, w, ws[i].1, ws[i].2),
                stems,
                e,
                alg,
                source,
                ws,
                i + 1,
            )
        }
    }
}

/// The words of a title, without annotations or fields.
pub open spec fn title_words(title: Seq<char>) -> Seq<WordView> {
    split_ws(title).map_values(|w: Seq<char>| (w, Seq::<InternalWordAnnotation>::empty(), Seq::<(String, String)>::empty()))
}

/// The containers after indexing document `e`: the words of its title, then
/// those of its contents.
pub open spec fn fill_entry(
    cs: Seq<(Seq<char>, ContainerView)>,
    stems: Seq<(Seq<char>, Seq<Seq<char>>)>,
    e: usize,
    entry: IntermediateEntry,
) -> Seq<(Seq<char>, ContainerView)> {
    let t = fill_words(cs, stems, e, entry.stem_algorithm, WordListSource::Title, title_words(entry.title@), 0);
    fill_words(t, stems, e, entry.stem_algorithm, WordListSource::Contents, word_views(entry.contents.word_list@), 0)
}

/// The containers after indexing the documents `es[k..]`, document `k` under
/// the number `k`.
pub open spec fn fill_entries(
    cs: Seq<(Seq<char>, ContainerView)>,
    stems: Seq<(Seq<char>, Seq<Seq<char>>)>,
    es: Seq<IntermediateEntry>,
    k: int,
) -> Seq<(Seq<char>, ContainerView)>
    decreases es.len() - k,
{
    if k < 0 || k >= es.len() || k > usize::MAX {
        cs
    } else {
        fill_entries(fill_entry(cs, stems, k as usize, es[k]), stems, es, k + 1)
    }
}

/// The words with a stem, each with the words found with that stem.
pub open spec fn stems_view(stems: Seq<(String, Vec<String>)>) -> Seq<(Seq<char>, Seq<Seq<char>>)> {
    stems.map_values(|p: (String, Vec<String>)| (p.0@, views(p.1@)))
}

/// Adds the place `x` to the result for document `e` of a container.
fn container_add_place(c: &mut Container, e: usize, x: Excerpt)
    ensures
        final(c)@ == with_place(old(c)@, e, x@),
{
    let ghost rv = old(c)@.results;
    let mut q: usize = 0;
    while q < c.results.len()
        invariant
            q <= c.results@.len(),
            c@.results == rv,
            *c == *old(c),
            forall|j: int| 0 <= j < q ==> rv[j].0 != e,
        decreases c.results@.len() - q,
    {
        assert(rv[q as int] == (c.results@[q as int].0, c.results@[q as int].1@));
        if c.results[q].0 == e {
            proof {
                lemma_result_pos(rv, e);
                if result_pos(rv, e) != Some(q as int) {
                    match result_pos(rv, e) {
                        Some(i) => {
                            assert(i > q || i < q);
                        },
                        None => {},
                    }
                }
            }
            let ghost before = c.results@;
            let (k, mut r) = c.results.remove(q);
            let ghost old_r = r@;
            r.excerpts.push(x);
            c.results.insert(q, (k, r));
            proof {
                assert(r@.places =~= old_r.places.push(x@));
                assert(c@.results =~= rv.update(
                    q as int,
                    (e, ResultView { places: rv[q as int].1.places.push(x@), score: rv[q as int].1.score }),
                ));
            }
            return;
        }
        q = q + 1;
    }
    proof {
        lemma_result_pos(rv, e);
    }
    let mut excerpts: Vec<Excerpt> = Vec::new();
    excerpts.push(x);
    let r = SearchResult { excerpts, score: MATCHED_WORD_SCORE };
    c.results.push((e, r));
    proof {
        assert(r@.places =~= seq![x@]);
        assert(c@.results =~= rv.push((e, ResultView { places: seq![x@], score: MATCHED_WORD_SCORE })));
    }
}

/// Adds an alias to `a` scoring `s` to a container, unless it has one.
fn container_add_alias(c: &mut Container, a: &String, s: u8)
    ensures
        final(c)@ == with_alias(old(c)@, a@, s),
{
    let ghost av = old(c)@.aliases;
    proof {
        lemma_key_pos(av, a@);
    }
    let mut q: usize = 0;
    while q < c.aliases.len()
        invariant
            q <= c.aliases@.len(),
            c@.aliases == av,
            *c == *old(c),
            forall|j: int| 0 <= j < q ==> av[j].0 != a@,
        decreases c.aliases@.len() - q,
    {
        assert(av[q as int] == (c.aliases@[q as int].0@, c.aliases@[q as int].1));
        if c.aliases[q].0 == *a {
            proof {
                lemma_key_pos(av, a@);
            }
            return;
        }
        q = q + 1;
    }
    c.aliases.push((copy_string(a), s));
    proof {
        assert(c@.aliases =~= av.push((a@, s)));
    }
}

/// The position of word `w`'s container, made if there is none.
fn container_for(cs: &mut Vec<(String, Container)>, w: &String) -> (r: usize)
    ensures
        r < final(cs)@.len(),
        final(cs)@[r as int].0@ == w@,
        match key_pos(containers_view(old(cs)@), w@) {
            Some(p) => r == p && final(cs)@ == old(cs)@,
            None => r == old(cs)@.len() && containers_view(final(cs)@) == containers_view(old(cs)@).push(
                (w@, empty_container()),
            ),
        },
{
    proof {
        lemma_key_pos_of_containers(cs@, w@);
        lemma_find_key(cs@, w@);
    }
    match find_key_exec(cs, w) {
        Some(p) => p,
        None => {
            let c = Container::new();
            cs.push((copy_string(w), c));
            proof {
                assert(c@.results =~= Seq::<(usize, ResultView)>::empty());
                assert(c@.aliases =~= Seq::<(Seq<char>, u8)>::empty());
                assert(containers_view(cs@) =~= containers_view(old(cs)@).push((w@, empty_container())));
            }
            cs.len() - 1
        },
    }
}

/// Records the place of a word in its container: the word's container, and
/// within it the result for the document, are made if there are none.
pub fn fill_container_results_map(
    containers: &mut Vec<(String, Container)>,
    normalized_word: &String,
    word_index: usize,
    entry_index: usize,
    annotated_word: &AnnotatedWord,
    source: WordListSource,
)
    ensures
        containers_view(final(containers)@) == add_place(
            containers_view(old(containers)@),
            normalized_word@,
            entry_index,
            PlaceView {
                word_index,
                source,
                internal_annotations: annotated_word.internal_annotations@,
                fields: annotated_word.fields.pairs@,
            },
        ),
{
    let x = Excerpt {
        word_index,
        source,
        internal_annotations: copy_annotations(&annotated_word.internal_annotations),
        fields: annotated_word.fields.copy(),
    };
    let ghost before = containers_view(containers@);
    let p = container_for(containers, normalized_word);
    let ghost mid = containers_view(containers@);
    let (k, mut c) = containers.remove(p);
    let ghost old_c = c@;
    container_add_place(&mut c, entry_index, x);
    containers.insert(p, (k, c));
    proof {
        assert(mid[p as int] == (k@, old_c));
        assert(containers_view(containers@) =~= mid.update(p as int, (k@, c@)));
        lemma_key_pos(before, normalized_word@);
    }
}

/// Adds an alias from word `t` to word `a` scoring `s`.
fn add_alias_exec(containers: &mut Vec<(String, Container)>, t: &String, a: &String, s: u8)
    ensures
        containers_view(final(containers)@) == add_alias(containers_view(old(containers)@), t@, a@, s),
{
    let ghost before = containers_view(containers@);
    let p = container_for(containers, t);
    let ghost mid = containers_view(containers@);
    let (k, mut c) = containers.remove(p);
    let ghost old_c = c@;
    container_add_alias(&mut c, a, s);
    containers.insert(p, (k, c));
    proof {
        assert(mid[p as int] == (k@, old_c));
        assert(containers_view(containers@) =~= mid.update(p as int, (k@, c@)));
    }
}

/// The CJK ideographs are exactly the characters of the Unicode blocks of
/// CJK Unified Ideographs (U+4E00 to U+9FFF), its Extension A (U+3400 to
/// U+4DBF), Extensions B to F (U+20000 to U+2A6DF, U+2A700 to U+2B73F,
/// U+2B740 to U+2B81F, U+2B820 to U+2CEAF, U+2CEB0 to U+2EBEF), Extension G
/// (U+30000 to U+3134F) and CJK Compatibility Ideographs (U+F900 to
/// U+FAFF).
pub proof fn lemma_cjk_ideograph_blocks(c: char)
    ensures
        is_cjk_ideograph(c) <==> {
            let u = c as u32;
            ||| 0x4E00 <= u <= 0x9FFF
            ||| 0x3400 <= u <= 0x4DBF
            ||| 0x20000 <= u <= 0x2A6DF
            ||| 0x2A700 <= u <= 0x2B73F
            ||| 0x2B740 <= u <= 0x2B81F
            ||| 0x2B820 <= u <= 0x2CEAF
            ||| 0x2CEB0 <= u <= 0x2EBEF
            ||| 0x30000 <= u <= 0x3134F
            ||| 0xF900 <= u <= 0xFAFF
        },
{
}

/// Tests whether a character is a CJK ideograph.
pub fn char_is_cjk_ideograph(c: char) -> (r: bool)
    ensures
        r == is_cjk_ideograph(c),
{
    let u = c as u32;
    (0x4E00 <= u && u <= 0x9FFF) || (0x3400 <= u && u <= 0x4DBF) || (0x20000 <= u && u <= 0x2A6DF)
        || (0x2A700 <= u && u <= 0x2EBEF) || (0x30000 <= u && u <= 0x3134F) || (0xF900 <= u && u
        <= 0xFAFF)
}

/// Tests whether every character of a string is a CJK ideograph.
pub fn string_is_cjk_ideographic(s: &[char]) -> (r: bool)
    ensures
        r == all_cjk(s@),
{
    let mut i: usize = 0;
    while i < s.len()
        invariant
            i <= s@.len(),
            forall|j: int| 0 <= j < i ==> is_cjk_ideograph(#[trigger] s@[j]),
        decreases s@.len() - i,
    {
        if !char_is_cjk_ideograph(s[i]) {
            return false;
        }
        i = i + 1;
    }
    true
}

/// Adds to the containers of the proper prefixes of `normalized_word` an
/// alias back to it, scoring one less for each character the prefix lacks;
/// prefixes shorter than three characters get one only if they are all CJK
/// ideographs.
pub fn fill_other_containers_alias_maps_with_prefixes(
    containers: &mut Vec<(String, Container)>,
    normalized_word: &String,
)
    ensures
        containers_view(final(containers)@) == add_prefixes(
            containers_view(old(containers)@),
            normalized_word@,
        ),
{
    let chars = chars_of(normalized_word.as_str());
    let len = chars.len();
    let ghost w = normalized_word@;
    let mut n: usize = 1;
    while n < len
        invariant
            1 <= n,
            len == w.len(),
            chars@ == w,
            w == normalized_word@,
            add_prefixes(containers_view(old(containers)@), w) == add_prefixes_from(
                containers_view(containers@),
                w,
                n as int,
            ),
        decreases len - n,
    {
        let prefix = &chars.as_slice()[0..n];
        assert(prefix@ =~= w.take(n as int));
        if n >= 3 || string_is_cjk_ideographic(prefix) {
            proof {
                if n < 3 {
                    assert(is_cjk_ideograph(prefix@[0]));
                    assert(prefix@[0] == w[0]);
                }
            }
            let sub = string_from_chars(prefix);
            let score = PREFIX_SCORE.wrapping_sub((len - n) as u8);
            add_alias_exec(containers, &sub, normalized_word, score);
        }
        n = n + 1;
    }
}

/// Adds to the containers of the other words with the stem of
/// `normalized_word` an alias back to it.
#[verifier::loop_isolation(false)]
pub fn fill_other_containers_alias_maps_with_reverse_stems(
    entry: &IntermediateEntry,
    stems: &Vec<(String, Vec<String>)>,
    containers: &mut Vec<(String, Container)>,
    normalized_word: &String,
)
    ensures
        containers_view(final(containers)@) == match entry.stem_algorithm {
            Some(a) => add_reverse_stems(
                containers_view(old(containers)@),
                stems_view(stems@),
                stem_of(a, normalized_word@),
                normalized_word@,
            ),
            None => containers_view(old(containers)@),
        },
{
    if let Some(alg) = entry.stem_algorithm {
        let stem = stem_word(alg, normalized_word.as_str());
        let ghost sv = stems_view(stems@);
        let mut p: usize = 0;
        while p < stems.len()
            invariant
                p <= stems@.len(),
                sv == stems_view(stems@),
                *containers == *old(containers),
                forall|j: int| 0 <= j < p ==> sv[j].0 != stem@,
            decreases stems@.len() - p,
        {
            assert(sv[p as int] == (stems@[p as int].0@, views(stems@[p as int].1@)));
            if stems[p].0 == stem {
                proof {
                    lemma_key_pos(sv, stem@);
                    if key_pos(sv, stem@) != Some(p as int) {
                        match key_pos(sv, stem@) {
                            Some(i) => {
                                assert(i > p || i < p);
                            },
                            None => {},
                        }
                    }
                }
                let rss = &stems[p].1;
                let ghost rv = views(rss@);
                let mut k: usize = 0;
                while k < rss.len()
                    invariant
                        k <= rss@.len(),
                        rv == views(rss@),
                        add_stem_aliases(containers_view(old(containers)@), rv, normalized_word@, 0)
                            == add_stem_aliases(containers_view(containers@), rv, normalized_word@, k as int),
                    decreases rss@.len() - k,
                {
                    assert(rv[k as int] == rss@[k as int]@);
                    if rss[k] != *normalized_word {
                        add_alias_exec(containers, &rss[k], normalized_word, STEM_SCORE);
                    }
                    k = k + 1;
                }
                return;
            }
            p = p + 1;
        }
        proof {
            lemma_key_pos(sv, stem@);
        }
    }
}

/// Indexes the words `ws` of the part `source` of document `e`, stopping at
/// the first word that normalizes to nothing.
fn fill_word_list(
    containers: &mut Vec<(String, Container)>,
    stems: &Vec<(String, Vec<String>)>,
    entry_index: usize,
    entry: &IntermediateEntry,
    source: WordListSource,
    ws: &Vec<AnnotatedWord>,
)
    ensures
        containers_view(final(containers)@) == fill_words(
            containers_view(old(containers)@),
            stems_view(stems@),
            entry_index,
            entry.stem_algorithm,
            source,
            word_views(ws@),
            0,
        ),
{
    let ghost wv = word_views(ws@);
    let mut i: usize = 0;
    while i < ws.len()
        invariant
            i <= ws@.len(),
            wv == word_views(ws@),
            fill_words(containers_view(old(containers)@), stems_view(stems@), entry_index, entry.stem_algorithm, source, wv, 0)
                == fill_words(containers_view(containers@), stems_view(stems@), entry_index, entry.stem_algorithm, source, wv, i as int),
        decreases ws@.len() - i,
    {
        let aw = &ws[i];
        proof {
            assert(wv[i as int] == (aw.word@, aw.internal_annotations@, aw.fields.pairs@));
        }
        let w = normalize_word(aw.word.as_str());
        if w.as_str().is_empty() {
            proof {
                assert(w@.len() == 0);
            }
            return;
        }
        fill_container_results_map(containers, &w, i, entry_index, aw, source);
        fill_other_containers_alias_maps_with_prefixes(containers, &w);
        fill_other_containers_alias_maps_with_reverse_stems(entry, stems, containers, &w);
        i = i + 1;
    }
}

/// Indexes every word of the documents: for each document, the words of
/// its title, then those of its contents.
pub fn fill_containers(
    intermediate_entries: &Vec<IntermediateEntry>,
    stems: &Vec<(String, Vec<String>)>,
    containers: &mut Vec<(String, Container)>,
)
    ensures
        containers_view(final(containers)@) == fill_entries(
            containers_view(old(containers)@),
            stems_view(stems@),
            intermediate_entries@,
            0,
        ),
{
    let ghost es = intermediate_entries@;
    let mut k: usize = 0;
    while k < intermediate_entries.len()
        invariant
            k <= es.len(),
            es == intermediate_entries@,
            fill_entries(containers_view(old(containers)@), stems_view(stems@), es, 0) == fill_entries(
                containers_view(containers@),
                stems_view(stems@),
                es,
                k as int,
            ),
        decreases es.len() - k,
    {
        let entry = &intermediate_entries[k];
        let title = split_whitespace(entry.title.as_str());
        let mut title_list: Vec<AnnotatedWord> = Vec::new();
        let mut t: usize = 0;
        while t < title.len()
            invariant
                t <= title@.len(),
                views(title@) == split_ws(entry.title@),
                word_views(title_list@) == title_words(entry.title@).take(t as int),
            decreases title@.len() - t,
        {
            let aw = AnnotatedWord::plain(copy_string(&title[t]));
            let ghost prev = title_list@;
            title_list.push(aw);
            proof {
                assert(views(title@)[t as int] == title@[t as int]@);
                assert(aw.internal_annotations@ =~= Seq::<InternalWordAnnotation>::empty());
                assert(aw.fields.pairs@ =~= Seq::<(String, String)>::empty());
                assert(aw.word@ == title@[t as int]@);
                assert(word_views(title_list@) =~= word_views(prev).push(
                    (aw.word@, aw.internal_annotations@, aw.fields.pairs@),
                ));
                assert(title_words(entry.title@).take(t as int + 1) =~= title_words(entry.title@).take(
                    t as int,
                ).push((title@[t as int]@, Seq::<InternalWordAnnotation>::empty(), Seq::<(String, String)>::empty())));
            }
            t = t + 1;
        }
        proof {
            assert(title_words(entry.title@).take(title@.len() as int) =~= title_words(entry.title@));
        }
        fill_word_list(containers, stems, k, entry, WordListSource::Title, &title_list);
        fill_word_list(containers, stems, k, entry, WordListSource::Contents, &entry.contents.word_list);
        k = k + 1;
    }
}

} // verus!
