//! Turning the matches in one document into a result: excerpts around the
//! matches, highlighted title words, and a score.

use super::intermediate_excerpt::{views as ie_views, IEView, IntermediateExcerpt};
use super::super::structs::{Entry, PassthroughConfig, WordListSource};
use crate::common::{copy_annotations, copy_string};
use crate::config::{title_boost_points, TitleBoost};
use crate::searcher::{
    Excerpt, ExcerptView, HighlightRange, OutputEntry, OutputEntryView, OutputResult,
    OutputResultView,
};
use crate::sort::{
    int_keys, int_positions, lemma_sort_by_keys_sorted, lemma_stable_order_covers, lemma_stable_order_len,
    lemma_stable_order_sorted, permute, sort_by_keys, stable_order, stable_order_of,
};
use crate::text::{byte_len, join, join_strings, split_whitespace, split_ws, string_byte_len, views};
use vstd::prelude::*;

verus! {

/// The matches of `ies` found in the part `src` of the document, in order.
pub open spec fn from_source(ies: Seq<IEView>, src: WordListSource) -> Seq<IEView>
    decreases ies.len(),
{
    if ies.len() == 0 {
        seq![]
    } else if ies.last().source == src {
        from_source(ies.drop_last(), src).push(ies.last())
    } else {
        from_source(ies.drop_last(), src)
    }
}

/// The scores of matches, as sort keys that put the highest score first.
pub open spec fn score_keys(ies: Seq<IEView>) -> Seq<int> {
    ies.map_values(|ie: IEView| -(ie.score as int))
}

/// The places of matches, as sort keys.
pub open spec fn place_keys(ies: Seq<IEView>) -> Seq<int> {
    ies.map_values(|ie: IEView| ie.word_index as int)
}

/// Matches sorted by place, and among matches at the same place by score,
/// highest first, so that keeping the first match at each place keeps the
/// one that scores highest.
pub open spec fn by_place(ies: Seq<IEView>) -> Seq<IEView> {
    let a = sort_by_keys(ies, score_keys(ies));
    sort_by_keys(a, place_keys(a))
}

/// `s` with each match that follows a match at the same place left out.
pub open spec fn dedup_places(s: Seq<IEView>) -> Seq<IEView>
    decreases s.len(),
{
    if s.len() <= 1 {
        s
    } else if s.last().word_index == s[s.len() - 2].word_index {
        dedup_places(s.drop_last())
    } else {
        dedup_places(s.drop_last()).push(s.last())
    }
}

/// Each match that `dedup_places` keeps starts a run of matches at its
/// place.
proof fn lemma_dedup_run_first(s: Seq<IEView>, k: int)
    requires
        0 <= k < dedup_places(s).len(),
    ensures
        exists|i: int|
            #![trigger s[i]]
            0 <= i < s.len() && s[i] == dedup_places(s)[k] && (i == 0 || s[i - 1].word_index
                != s[i].word_index),
    decreases s.len(),
{
    if s.len() <= 1 {
        assert(s[k] == dedup_places(s)[k]);
    } else {
        let d = s.drop_last();
        if s.last().word_index == s[s.len() - 2].word_index || k < dedup_places(d).len() {
            lemma_dedup_run_first(d, k);
            let i = choose|i: int|
                #![trigger d[i]]
                0 <= i < d.len() && d[i] == dedup_places(d)[k] && (i == 0 || d[i - 1].word_index
                    != d[i].word_index);
            assert(s[i] == d[i]);
            if i > 0 {
                assert(s[i - 1] == d[i - 1]);
            }
        } else {
            assert(s[s.len() - 1] == dedup_places(s)[k]);
        }
    }
}

/// Of the matches at one word, the one kept scores highest: every match at
/// the place of a match that `dedup_places` keeps of `by_place` scores no
/// more than it.
#[verifier::spinoff_prover]
pub proof fn lemma_dedup_keeps_highest(ies: Seq<IEView>, k: int, j: int)
    requires
        0 <= k < dedup_places(by_place(ies)).len(),
        0 <= j < ies.len(),
        ies[j].word_index == dedup_places(by_place(ies))[k].word_index,
    ensures
        ies[j].score <= dedup_places(by_place(ies))[k].score,
{
    let n = ies.len();
    let sk = score_keys(ies);
    let pa = stable_order(sk);
    let a = sort_by_keys(ies, sk);
    let pk = place_keys(a);
    let pb = stable_order(pk);
    let b = sort_by_keys(a, pk);
    assert(a.len() == n && pa.len() == n && forall|x: int| 0 <= x < n ==> 0 <= #[trigger] pa[x] < n) by {
        lemma_sort_by_keys_sorted(ies, sk);
    }
    assert(pk.len() == n);
    assert(b.len() == n && pb.len() == n && forall|x: int| 0 <= x < n ==> 0 <= #[trigger] pb[x] < n) by {
        lemma_sort_by_keys_sorted(a, pk);
    }
    assert(pa.contains(j)) by {
        lemma_stable_order_covers(sk, j);
    }
    let ia = choose|x: int| 0 <= x < pa.len() && pa[x] == j;
    assert(a[ia] == ies[j]) by {
        lemma_sort_by_keys_sorted(ies, sk);
    }
    assert(pb.contains(ia)) by {
        lemma_stable_order_covers(pk, ia);
    }
    let ib = choose|x: int| 0 <= x < pb.len() && pb[x] == ia;
    assert(b[ib] == a[ia]) by {
        lemma_sort_by_keys_sorted(a, pk);
    }
    lemma_dedup_run_first(b, k);
    let i = choose|i: int|
        #![trigger b[i]]
        0 <= i < b.len() && b[i] == dedup_places(b)[k] && (i == 0 || b[i - 1].word_index != b[i].word_index);
    assert(b[i] == a[pb[i]]) by {
        lemma_sort_by_keys_sorted(a, pk);
    }
    assert(pk[pb[i]] == a[pb[i]].word_index as int);
    assert(pk[pb[ib]] == a[pb[ib]].word_index as int);
    if ib < i {
        assert(b[i - 1] == a[pb[i - 1]]) by {
            lemma_sort_by_keys_sorted(a, pk);
        }
        assert(pk[pb[i - 1]] == a[pb[i - 1]].word_index as int);
        assert(pk[pb[ib]] <= pk[pb[i - 1]] && pk[pb[i - 1]] <= pk[pb[i]]) by {
            lemma_sort_by_keys_sorted(a, pk);
        }
    }
    if i < ib {
        assert(pb[i] < pb[ib]) by {
            lemma_stable_order_sorted(pk);
        }
        assert(sk[pa[pb[i]]] <= sk[pa[pb[ib]]]) by {
            lemma_sort_by_keys_sorted(ies, sk);
        }
        assert(a[pb[i]] == ies[pa[pb[i]]] && a[pb[ib]] == ies[pa[pb[ib]]]) by {
            lemma_sort_by_keys_sorted(ies, sk);
        }
        assert(sk[pa[pb[i]]] == -(ies[pa[pb[i]]].score as int));
        assert(sk[pa[pb[ib]]] == -(ies[pa[pb[ib]]].score as int));
    }
}

/// The matches of `s` gathered into groups: a match joins the last group when
/// it lies fewer than `buf` words after that group's first match, and starts
/// a new group otherwise.
pub open spec fn close_groups(s: Seq<IEView>, buf: int) -> Seq<Seq<IEView>>
    decreases s.len(),
{
    if s.len() == 0 {
        seq![]
    } else {
        let gs = close_groups(s.drop_last(), buf);
        let ie = s.last();
        if gs.len() > 0 && (ie.word_index as int) - (gs.last()[0].word_index as int) < buf {
            gs.update(gs.len() - 1, gs.last().push(ie))
        } else {
            gs.push(seq![ie])
        }
    }
}

/// The byte ranges of the matches of a group within an excerpt that starts
/// at word `min`, or `None` when a range does not fit in `usize`.
pub open spec fn highlight_ranges(split: Seq<Seq<char>>, min: int, g: Seq<IEView>) -> Option<
    Seq<HighlightRange>,
>
    decreases g.len(),
{
    if g.len() == 0 {
        Some(seq![])
    } else {
        match highlight_ranges(split, min, g.drop_last()) {
            None => None,
            Some(rs) => {
                let ie = g.last();
                let b = byte_len(join(split.subrange(min, ie.word_index as int), seq![' '])) + 1;
                let e = b + byte_len(ie.query);
                if e > usize::MAX {
                    None
                } else {
                    Some(rs.push(HighlightRange { beginning: b as usize, end: e as usize }))
                }
            },
        }
    }
}

/// The beginnings of ranges, as sort keys.
pub open spec fn beginning_keys(rs: Seq<HighlightRange>) -> Seq<int> {
    rs.map_values(|r: HighlightRange| r.beginning as int)
}

/// The total number of bytes the ranges cover, counting overlaps twice.
pub open spec fn covered(rs: Seq<HighlightRange>) -> int
    decreases rs.len(),
{
    if rs.len() == 0 {
        0
    } else {
        covered(rs.drop_last()) + (rs.last().end - rs.last().beginning)
    }
}

/// The sum of the scores of the matches.
pub open spec fn total_score(g: Seq<IEView>) -> int
    decreases g.len(),
{
    if g.len() == 0 {
        0
    } else {
        total_score(g.drop_last()) + g.last().score
    }
}

/// Whether every match of `g` lies within the first `n` words, and its place
/// fits in an `isize`.
pub open spec fn places_within(g: Seq<IEView>, n: int) -> bool {
    forall|i: int|
        0 <= i < g.len() ==> (#[trigger] g[i]).word_index <= n && g[i].word_index <= isize::MAX
}

/// `a - b`, or `0` when `b` is larger.
pub open spec fn sat_sub(a: int, b: int) -> int {
    if a >= b {
        a - b
    } else {
        0
    }
}

/// The text around a group of matches and the byte ranges of the matches in
/// it, given the words of the document and the number of words to show
/// around the matches; `None` where a place lies beyond the document or a
/// range does not fit in `usize`.
pub open spec fn excerpt_window(split: Seq<Seq<char>>, buf: int, g: Seq<IEView>) -> Option<
    (Seq<char>, Seq<HighlightRange>),
> {
    if !places_within(g, split.len() as int) {
        None
    } else {
        let first = g[0].word_index as int;
        let last = g.last().word_index as int;
        let min = sat_sub(first, buf);
        let max = if last + buf > usize::MAX {
            if usize::MAX < split.len() {
                usize::MAX as int
            } else {
                split.len() as int
            }
        } else if last + buf < split.len() {
            last + buf
        } else {
            split.len() as int
        };
        if !places_from(g, min) {
            None
        } else {
            match highlight_ranges(split, min, g) {
                None => None,
                Some(rs) => Some((join(split.subrange(min, max), seq![' ']), rs)),
            }
        }
    }
}

/// The excerpt for a group of matches: its ranges sorted, and its score the
/// sum of the scores of the matches less the bytes between the ranges;
/// `None` where the window cannot be made or a number does not fit.
pub open spec fn excerpt_of(split: Seq<Seq<char>>, buf: int, g: Seq<IEView>) -> Option<ExcerptView> {
    match excerpt_window(split, buf, g) {
        None => None,
        Some((text, rs)) => {
            let sorted = sort_by_keys(rs, beginning_keys(rs));
            let width = sorted.last().end - sorted[0].beginning;
            let count = covered(sorted);
            let total = total_score(g);
            if width < 0 || !ranges_ordered(sorted) || count > usize::MAX || count > width || total
                > usize::MAX {
                None
            } else {
                Some(
                    ExcerptView {
                        text,
                        highlight_ranges: sorted,
                        score: sat_sub(total, width - count) as nat,
                        internal_annotations: g[0].internal_annotations,
                        fields: g[0].fields,
                    },
                )
            }
        },
    }
}

/// Whether every range ends at or after its beginning.
pub open spec fn ranges_ordered(rs: Seq<HighlightRange>) -> bool {
    forall|i: int| 0 <= i < rs.len() ==> (#[trigger] rs[i]).end >= rs[i].beginning
}

/// Whether no match of `g` lies before word `min`.
pub open spec fn places_from(g: Seq<IEView>, min: int) -> bool {
    forall|i: int| 0 <= i < g.len() ==> (#[trigger] g[i]).word_index >= min
}

/// The excerpts for each group, or `None` when one of them cannot be made.
pub open spec fn excerpts_of(split: Seq<Seq<char>>, buf: int, gs: Seq<Seq<IEView>>) -> Option<
    Seq<ExcerptView>,
>
    decreases gs.len(),
{
    if gs.len() == 0 {
        Some(seq![])
    } else {
        match (excerpts_of(split, buf, gs.drop_last()), excerpt_of(split, buf, gs.last())) {
            (Some(es), Some(e)) => Some(es.push(e)),
            _ => None,
        }
    }
}

/// `n` read as an `i16`, as `n as i16` gives it.
pub open spec fn as_i16(n: nat) -> int {
    let m = (n % 65536) as int;
    if m < 32768 {
        m
    } else {
        m - 65536
    }
}

/// Excerpts ranked best first by `-(score as i16)`, as sort keys.
pub open spec fn excerpt_keys(es: Seq<ExcerptView>) -> Seq<int> {
    es.map_values(|e: ExcerptView| -as_i16(e.score))
}

/// Whether an excerpt's score, read as an `i16`, can be negated.
pub open spec fn negatable_i16(es: Seq<ExcerptView>) -> bool {
    forall|i: int| 0 <= i < es.len() ==> as_i16((#[trigger] es[i]).score) != -32768
}

/// The byte ranges of title matches in the title, or `None` when a place
/// lies beyond the title or a range does not fit in `usize`.
pub open spec fn title_ranges(title: Seq<Seq<char>>, ts: Seq<IEView>) -> Option<Seq<HighlightRange>>
    decreases ts.len(),
{
    if ts.len() == 0 {
        Some(seq![])
    } else {
        match title_ranges(title, ts.drop_last()) {
            None => None,
            Some(rs) => {
                let ie = ts.last();
                if ie.word_index > title.len() {
                    None
                } else {
                    let offset: int = if ie.word_index == 0 {
                        0
                    } else {
                        1
                    };
                    let b = byte_len(join(title.take(ie.word_index as int), seq![' '])) + offset;
                    let e = b + byte_len(ie.query);
                    if e > usize::MAX {
                        None
                    } else {
                        Some(rs.push(HighlightRange { beginning: b as usize, end: e as usize }))
                    }
                }
            },
        }
    }
}

/// The result for one document and the matches in it, or `None` where a
/// place lies beyond the document or a number does not fit its type.
pub open spec fn output_result(entry: Entry, cfg: PassthroughConfig, ies: Seq<IEView>) -> Option<
    OutputResultView,
> {
    let split = split_ws(entry.contents@);
    let buf = cfg.excerpt_buffer as int;
    let gs = close_groups(dedup_places(by_place(from_source(ies, WordListSource::Contents))), buf);
    match excerpts_of(split, buf, gs) {
        None => None,
        Some(es) => if !negatable_i16(es) {
            None
        } else {
            let kept = ranked_excerpts(es, cfg.excerpts_per_result as int);
            match title_ranges(split_ws(entry.title@), from_source(ies, WordListSource::Title)) {
                None => None,
                Some(trs) => {
                    let boost = trs.len() * title_boost_points(cfg.title_boost);
                    let base: int = if kept.len() > 0 {
                        kept[0].score as int
                    } else {
                        0
                    };
                    if boost > usize::MAX || base + boost > usize::MAX {
                        None
                    } else {
                        Some(
                            OutputResultView {
                                entry: OutputEntryView {
                                    url: entry.url@,
                                    title: entry.title@,
                                    fields: entry.fields.pairs@,
                                },
                                excerpts: kept,
                                title_highlight_ranges: trs,
                                score: (base + boost) as nat,
                            },
                        )
                    }
                },
            }
        },
    }
}


/// The matches of `ies` found in the part `src` of the document.
pub fn select_source(ies: &Vec<IntermediateExcerpt>, src: WordListSource) -> (r: Vec<
    IntermediateExcerpt,
>)
    ensures
        ie_views(r@) == from_source(ie_views(ies@), src),
{
    let mut r: Vec<IntermediateExcerpt> = Vec::new();
    let mut i: usize = 0;
    while i < ies.len()
        invariant
            i <= ies@.len(),
            ie_views(r@) == from_source(ie_views(ies@.take(i as int)), src),
        decreases ies@.len() - i,
    {
        proof {
            assert(ie_views(ies@.take(i as int + 1)).drop_last() =~= ie_views(ies@.take(i as int)));
            assert(ie_views(ies@.take(i as int + 1)).last() == ies@[i as int]@);
        }
        if ies[i].source == src {
            let c = ies[i].copy();
            let ghost prev = r@;
            r.push(c);
            proof {
                super::intermediate_excerpt::lemma_views_push(prev, c);
            }
        }
        i = i + 1;
    }
    assert(ies@.take(ies@.len() as int) =~= ies@);
    r
}

/// The matches of `v` in the order of `perm`.
pub fn permute_ies(v: &Vec<IntermediateExcerpt>, perm: &Vec<usize>) -> (r: Vec<IntermediateExcerpt>)
    requires
        forall|i: int| 0 <= i < perm@.len() ==> #[trigger] perm@[i] < v@.len(),
    ensures
        ie_views(r@) == permute(ie_views(v@), int_positions(perm@)),
{
    let mut r: Vec<IntermediateExcerpt> = Vec::new();
    let mut i: usize = 0;
    while i < perm.len()
        invariant
            i <= perm@.len(),
            forall|j: int| 0 <= j < perm@.len() ==> #[trigger] perm@[j] < v@.len(),
            ie_views(r@) == permute(ie_views(v@), int_positions(perm@.take(i as int))),
        decreases perm@.len() - i,
    {
        let c = v[perm[i]].copy();
        let ghost prev = r@;
        r.push(c);
        proof {
            super::intermediate_excerpt::lemma_views_push(prev, c);
            assert(permute(ie_views(v@), int_positions(perm@.take(i as int + 1))) =~= permute(
                ie_views(v@),
                int_positions(perm@.take(i as int)),
            ).push(c@));
        }
        i = i + 1;
    }
    assert(perm@.take(perm@.len() as int) =~= perm@);
    r
}

/// Sorts matches stably by the given keys.
pub fn sort_ies(v: &Vec<IntermediateExcerpt>, keys: &Vec<i128>) -> (r: Vec<IntermediateExcerpt>)
    requires
        keys@.len() == v@.len(),
    ensures
        ie_views(r@) == sort_by_keys(ie_views(v@), int_keys(keys@)),
{
    let perm = stable_order_of(keys);
    proof {
        lemma_stable_order_len(int_keys(keys@));
        assert forall|i: int| 0 <= i < perm@.len() implies #[trigger] perm@[i] < v@.len() by {
            assert(int_positions(perm@)[i] == perm@[i] as int);
        }
    }
    permute_ies(v, &perm)
}

/// Matches sorted by place, and by score at the same place.
pub fn sort_by_place(v: &Vec<IntermediateExcerpt>) -> (r: Vec<IntermediateExcerpt>)
    ensures
        ie_views(r@) == by_place(ie_views(v@)),
{
    let mut keys: Vec<i128> = Vec::new();
    let mut i: usize = 0;
    while i < v.len()
        invariant
            i <= v@.len(),
            int_keys(keys@) == score_keys(ie_views(v@.take(i as int))),
        decreases v@.len() - i,
    {
        let ghost prev = keys@;
        keys.push(-(v[i].score as i128));
        proof {
            assert(int_keys(keys@) =~= int_keys(prev).push(-(v@[i as int].score as int)));
            assert(ie_views(v@.take(i as int + 1)) =~= ie_views(v@.take(i as int)).push(v@[i as int]@));
            assert(score_keys(ie_views(v@.take(i as int + 1))) =~= score_keys(ie_views(v@.take(i as int))).push(-(v@[i as int].score as int)));
        }
        i = i + 1;
    }
    assert(v@.take(v@.len() as int) =~= v@);
    let a = sort_ies(v, &keys);
    let mut keys2: Vec<i128> = Vec::new();
    let mut j: usize = 0;
    while j < a.len()
        invariant
            j <= a@.len(),
            int_keys(keys2@) == place_keys(ie_views(a@.take(j as int))),
        decreases a@.len() - j,
    {
        let ghost prev = keys2@;
        keys2.push(a[j].word_index as i128);
        proof {
            assert(int_keys(keys2@) =~= int_keys(prev).push(a@[j as int].word_index as int));
            assert(ie_views(a@.take(j as int + 1)) =~= ie_views(a@.take(j as int)).push(a@[j as int]@));
            assert(place_keys(ie_views(a@.take(j as int + 1))) =~= place_keys(ie_views(a@.take(j as int))).push(a@[j as int].word_index as int));
        }
        j = j + 1;
    }
    assert(a@.take(a@.len() as int) =~= a@);
    sort_ies(&a, &keys2)
}

/// Leaves out each match that follows a match at the same place.
pub fn dedup_by_place(v: &Vec<IntermediateExcerpt>) -> (r: Vec<IntermediateExcerpt>)
    ensures
        ie_views(r@) == dedup_places(ie_views(v@)),
{
    let mut r: Vec<IntermediateExcerpt> = Vec::new();
    let mut i: usize = 0;
    while i < v.len()
        invariant
            i <= v@.len(),
            ie_views(r@) == dedup_places(ie_views(v@.take(i as int))),
        decreases v@.len() - i,
    {
        let ghost s = ie_views(v@.take(i as int + 1));
        proof {
            assert(s.drop_last() =~= ie_views(v@.take(i as int)));
            assert(s.last() == v@[i as int]@);
        }
        if i == 0 || v[i].word_index != v[i - 1].word_index {
            let c = v[i].copy();
            let ghost prev = r@;
            r.push(c);
            proof {
                super::intermediate_excerpt::lemma_views_push(prev, c);
                if i > 0 {
                    assert(s[s.len() - 2] == v@[i - 1]@);
                } else {
                    assert(s =~= seq![c@]);
                    assert(ie_views(v@.take(0)) =~= Seq::<IEView>::empty());
                }
            }
        } else {
            proof {
                assert(s[s.len() - 2] == v@[i - 1]@);
            }
        }
        i = i + 1;
    }
    assert(v@.take(v@.len() as int) =~= v@);
    r
}

/// The views of groups of matches.
pub open spec fn group_views(gs: Seq<Vec<IntermediateExcerpt>>) -> Seq<Seq<IEView>> {
    gs.map_values(|g: Vec<IntermediateExcerpt>| ie_views(g@))
}

/// Gathers matches into groups of nearby places.
pub fn group_close(v: &Vec<IntermediateExcerpt>, buf: usize) -> (r: Vec<Vec<IntermediateExcerpt>>)
    ensures
        group_views(r@) == close_groups(ie_views(v@), buf as int),
        forall|i: int| 0 <= i < r@.len() ==> (#[trigger] r@[i])@.len() > 0,
{
    let mut gs: Vec<Vec<IntermediateExcerpt>> = Vec::new();
    let mut i: usize = 0;
    while i < v.len()
        invariant
            i <= v@.len(),
            group_views(gs@) == close_groups(ie_views(v@.take(i as int)), buf as int),
            forall|j: int| 0 <= j < gs@.len() ==> (#[trigger] gs@[j])@.len() > 0,
        decreases v@.len() - i,
    {
        let ghost s = ie_views(v@.take(i as int + 1));
        proof {
            assert(s.drop_last() =~= ie_views(v@.take(i as int)));
            assert(s.last() == v@[i as int]@);
        }
        let c = v[i].copy();
        let n = gs.len();
        let joins = if n > 0 {
            (c.word_index as i128) - (gs[n - 1][0].word_index as i128) < buf as i128
        } else {
            false
        };
        let ghost old_gs = gs@;
        if joins {
            let mut last = gs.pop().unwrap();
            let ghost old_last = last@;
            last.push(c);
            gs.push(last);
            proof {
                assert(group_views(old_gs).last() == ie_views(old_last));
                assert(ie_views(old_last)[0] == old_last[0]@);
                super::intermediate_excerpt::lemma_views_push(old_last, c);
                assert(group_views(gs@) =~= group_views(old_gs).update(
                    group_views(old_gs).len() - 1,
                    group_views(old_gs).last().push(c@),
                ));
                assert forall|j: int| 0 <= j < gs@.len() implies (#[trigger] gs@[j])@.len() > 0 by {
                    if j < gs@.len() - 1 {
                        assert(gs@[j] == old_gs[j]);
                    }
                }
            }
        } else {
            let mut g: Vec<IntermediateExcerpt> = Vec::new();
            g.push(c);
            gs.push(g);
            proof {
                assert(ie_views(g@) =~= seq![c@]);
                assert(group_views(gs@) =~= group_views(old_gs).push(seq![c@]));
                if n > 0 {
                    assert(group_views(old_gs).last()[0] == old_gs[n - 1]@[0]@);
                }
                assert forall|j: int| 0 <= j < gs@.len() implies (#[trigger] gs@[j])@.len() > 0 by {
                    if j < gs@.len() - 1 {
                        assert(gs@[j] == old_gs[j]);
                    }
                }
            }
        }
        i = i + 1;
    }
    assert(v@.take(v@.len() as int) =~= v@);
    gs
}


/// A prefix of ordered ranges covers no more than the whole.
pub proof fn lemma_covered_prefix(rs: Seq<HighlightRange>, k: int)
    requires
        ranges_ordered(rs),
        0 <= k <= rs.len(),
    ensures
        covered(rs.take(k)) <= covered(rs),
    decreases rs.len(),
{
    if k < rs.len() {
        assert(rs.drop_last().take(k) =~= rs.take(k));
        assert(ranges_ordered(rs.drop_last())) by {
            assert forall|i: int| 0 <= i < rs.drop_last().len() implies (#[trigger] rs.drop_last()[i]).end
                >= rs.drop_last()[i].beginning by {
                assert(rs.drop_last()[i] == rs[i]);
            }
        }
        lemma_covered_prefix(rs.drop_last(), k);
        assert(rs.last() == rs[rs.len() - 1]);
    } else {
        assert(rs.take(k) =~= rs);
    }
}

/// A prefix of the matches scores no more than the whole.
pub proof fn lemma_total_prefix(g: Seq<IEView>, k: int)
    requires
        0 <= k <= g.len(),
    ensures
        total_score(g.take(k)) <= total_score(g),
    decreases g.len(),
{
    if k < g.len() {
        assert(g.drop_last().take(k) =~= g.take(k));
        lemma_total_prefix(g.drop_last(), k);
    } else {
        assert(g.take(k) =~= g);
    }
}

/// Once the ranges of a prefix fail, the ranges of the whole fail.
pub proof fn lemma_highlight_none(split: Seq<Seq<char>>, min: int, g: Seq<IEView>, k: int)
    requires
        0 <= k <= g.len(),
        highlight_ranges(split, min, g.take(k)) is None,
    ensures
        highlight_ranges(split, min, g) is None,
    decreases g.len(),
{
    if k < g.len() {
        assert(g.drop_last().take(k) =~= g.take(k));
        lemma_highlight_none(split, min, g.drop_last(), k);
    } else {
        assert(g.take(k) =~= g);
    }
}

/// There is one range for each match.
pub proof fn lemma_highlight_len(split: Seq<Seq<char>>, min: int, g: Seq<IEView>)
    ensures
        match highlight_ranges(split, min, g) {
            Some(rs) => rs.len() == g.len(),
            None => true,
        },
    decreases g.len(),
{
    if g.len() > 0 {
        lemma_highlight_len(split, min, g.drop_last());
    }
}

/// The ranges in the order of `perm`.
pub fn permute_ranges(v: &Vec<HighlightRange>, perm: &Vec<usize>) -> (r: Vec<HighlightRange>)
    requires
        forall|i: int| 0 <= i < perm@.len() ==> #[trigger] perm@[i] < v@.len(),
    ensures
        r@ == permute(v@, int_positions(perm@)),
{
    let mut r: Vec<HighlightRange> = Vec::new();
    let mut i: usize = 0;
    while i < perm.len()
        invariant
            i <= perm@.len(),
            forall|j: int| 0 <= j < perm@.len() ==> #[trigger] perm@[j] < v@.len(),
            r@ == permute(v@, int_positions(perm@.take(i as int))),
        decreases perm@.len() - i,
    {
        r.push(v[perm[i]]);
        assert(r@ =~= permute(v@, int_positions(perm@.take(i as int + 1))));
        i = i + 1;
    }
    assert(perm@.take(perm@.len() as int) =~= perm@);
    r
}

/// The ranges sorted stably by beginning.
pub fn sort_ranges(v: &Vec<HighlightRange>) -> (r: Vec<HighlightRange>)
    ensures
        r@ == sort_by_keys(v@, beginning_keys(v@)),
{
    let mut keys: Vec<i128> = Vec::new();
    let mut i: usize = 0;
    while i < v.len()
        invariant
            i <= v@.len(),
            int_keys(keys@) == beginning_keys(v@.take(i as int)),
        decreases v@.len() - i,
    {
        let ghost prev = keys@;
        keys.push(v[i].beginning as i128);
        proof {
            assert(int_keys(keys@) =~= int_keys(prev).push(v@[i as int].beginning as int));
            assert(beginning_keys(v@.take(i as int + 1)) =~= beginning_keys(v@.take(i as int)).push(
                v@[i as int].beginning as int,
            ));
        }
        i = i + 1;
    }
    assert(v@.take(v@.len() as int) =~= v@);
    let perm = stable_order_of(&keys);
    proof {
        lemma_stable_order_len(int_keys(keys@));
        assert forall|i: int| 0 <= i < perm@.len() implies #[trigger] perm@[i] < v@.len() by {
            assert(int_positions(perm@)[i] == perm@[i] as int);
        }
    }
    permute_ranges(v, &perm)
}

/// The text around a nonempty group of matches and the ranges of the
/// matches in it.
#[verifier::loop_isolation(false)]
pub fn window_for_group(split: &Vec<String>, buf: usize, g: &Vec<IntermediateExcerpt>) -> (r: Option<
    (String, Vec<HighlightRange>),
>)
    requires
        g@.len() > 0,
    ensures
        match r {
            Some((t, rs)) => excerpt_window(views(split@), buf as int, ie_views(g@)) == Some(
                (t@, rs@),
            ),
            None => excerpt_window(views(split@), buf as int, ie_views(g@)) is None,
        },
{
    let ghost sv = views(split@);
    let ghost gv = ie_views(g@);
    let n = split.len();
    let mut i: usize = 0;
    while i < g.len()
        invariant
            i <= g@.len(),
            n == split@.len(),
            gv == ie_views(g@),
            forall|j: int| 0 <= j < i ==> (#[trigger] gv[j]).word_index <= n && gv[j].word_index
                <= isize::MAX,
        decreases g@.len() - i,
    {
        if g[i].word_index > n || g[i].word_index > isize::MAX as usize {
            proof {
                assert(gv[i as int] == g@[i as int]@);
            }
            return None;
        }
        proof {
            assert(gv[i as int] == g@[i as int]@);
        }
        i = i + 1;
    }
    assert(places_within(gv, sv.len() as int));
    let first = g[0].word_index;
    let last = g[g.len() - 1].word_index;
    assert(gv[0] == g@[0]@);
    assert(gv.last() == g@[g@.len() - 1]@);
    let min = first.saturating_sub(buf);
    let reach = last.saturating_add(buf);
    let max = if reach < n {
        reach
    } else {
        n
    };
    let mut k: usize = 0;
    while k < g.len()
        invariant
            k <= g@.len(),
            gv == ie_views(g@),
            forall|j: int| 0 <= j < k ==> (#[trigger] gv[j]).word_index >= min,
        decreases g@.len() - k,
    {
        if g[k].word_index < min {
            proof {
                assert(gv[k as int] == g@[k as int]@);
            }
            return None;
        }
        proof {
            assert(gv[k as int] == g@[k as int]@);
        }
        k = k + 1;
    }
    assert(places_from(gv, min as int));
    let text = crate::text::join_range(split, min, max, ' ');
    let mut ranges: Vec<HighlightRange> = Vec::new();
    let mut m: usize = 0;
    while m < g.len()
        invariant
            m <= g@.len(),
            gv == ie_views(g@),
            n == split@.len(),
            sv == views(split@),
            places_within(gv, sv.len() as int),
            places_from(gv, min as int),
            highlight_ranges(sv, min as int, gv.take(m as int)) == Some(ranges@),
        decreases g@.len() - m,
    {
        let ie = &g[m];
        proof {
            assert(gv[m as int] == g@[m as int]@);
            assert(gv.take(m as int + 1).drop_last() =~= gv.take(m as int));
            assert(gv.take(m as int + 1).last() == gv[m as int]);
        }
        let prefix = crate::text::join_range(split, min, ie.word_index, ' ');
        let b = string_byte_len(&prefix).checked_add(1);
        let e = match b {
            Some(b) => b.checked_add(string_byte_len(&ie.query)),
            None => None,
        };
        match (b, e) {
            (Some(b), Some(e)) => {
                ranges.push(HighlightRange { beginning: b, end: e });
            },
            _ => {
                proof {
                    lemma_highlight_none(sv, min as int, gv, m as int + 1);
                }
                return None;
            },
        }
        m = m + 1;
    }
    assert(gv.take(gv.len() as int) =~= gv);
    Some((text, ranges))
}

/// The excerpt for a nonempty group of matches.
#[verifier::loop_isolation(false)]
pub fn excerpt_for_group(split: &Vec<String>, buf: usize, g: &Vec<IntermediateExcerpt>) -> (r: Option<
    Excerpt,
>)
    requires
        g@.len() > 0,
    ensures
        match r {
            Some(e) => excerpt_of(views(split@), buf as int, ie_views(g@)) == Some(e@),
            None => excerpt_of(views(split@), buf as int, ie_views(g@)) is None,
        },
{
    let ghost gv = ie_views(g@);
    let (text, ranges) = match window_for_group(split, buf, g) {
        Some(w) => w,
        None => {
            return None;
        },
    };
    assert(gv.len() > 0);
    assert(ranges@.len() == gv.len()) by {
        lemma_highlight_len(views(split@), sat_sub(gv[0].word_index as int, buf as int), gv);
    }
    let sorted = sort_ranges(&ranges);
    proof {
        lemma_stable_order_len(beginning_keys(ranges@));
    }
    let sl = sorted.len();
    let width = match sorted[sl - 1].end.checked_sub(sorted[0].beginning) {
        Some(w) => w,
        None => {
            return None;
        },
    };
    let mut count: usize = 0;
    let mut c: usize = 0;
    while c < sl
        invariant
            c <= sorted@.len(),
            sl == sorted@.len(),
            count as int == covered(sorted@.take(c as int)),
            ranges_ordered(sorted@.take(c as int)),
        decreases sl - c,
    {
        proof {
            assert(sorted@.take(c as int + 1).drop_last() =~= sorted@.take(c as int));
        }
        if sorted[c].end < sorted[c].beginning {
            proof {
                assert(!ranges_ordered(sorted@));
            }
            return None;
        }
        match count.checked_add(sorted[c].end - sorted[c].beginning) {
            Some(x) => {
                count = x;
            },
            None => {
                proof {
                    if ranges_ordered(sorted@) {
                        lemma_covered_prefix(sorted@, c as int + 1);
                    }
                }
                return None;
            },
        }
        proof {
            assert forall|j: int| 0 <= j < c + 1 implies (#[trigger] sorted@.take(c as int + 1)[j]).end
                >= sorted@.take(c as int + 1)[j].beginning by {
                if j < c {
                    assert(sorted@.take(c as int + 1)[j] == sorted@.take(c as int)[j]);
                }
            }
        }
        c = c + 1;
    }
    assert(sorted@.take(sl as int) =~= sorted@);
    if count > width {
        return None;
    }
    let mut total: usize = 0;
    let mut t: usize = 0;
    while t < g.len()
        invariant
            t <= g@.len(),
            gv == ie_views(g@),
            total as int == total_score(gv.take(t as int)),
        decreases g@.len() - t,
    {
        proof {
            assert(gv.take(t as int + 1).drop_last() =~= gv.take(t as int));
            assert(gv[t as int] == g@[t as int]@);
        }
        match total.checked_add(g[t].score as usize) {
            Some(x) => {
                total = x;
            },
            None => {
                proof {
                    lemma_total_prefix(gv, t as int + 1);
                }
                return None;
            },
        }
        t = t + 1;
    }
    assert(gv.take(gv.len() as int) =~= gv);
    let score = total.saturating_sub(width - count);
    Some(
        Excerpt {
            text,
            highlight_ranges: sorted,
            score,
            internal_annotations: copy_annotations(&g[0].internal_annotations),
            fields: g[0].fields.copy(),
        },
    )
}


/// The views of a list of excerpts.
pub open spec fn excerpt_views(es: Seq<Excerpt>) -> Seq<ExcerptView> {
    es.map_values(|e: Excerpt| e@)
}

/// Once the excerpts of a prefix of the groups fail, those of all fail.
pub proof fn lemma_excerpts_none(split: Seq<Seq<char>>, buf: int, gs: Seq<Seq<IEView>>, k: int)
    requires
        0 <= k <= gs.len(),
        excerpts_of(split, buf, gs.take(k)) is None,
    ensures
        excerpts_of(split, buf, gs) is None,
    decreases gs.len(),
{
    if k < gs.len() {
        assert(gs.drop_last().take(k) =~= gs.take(k));
        lemma_excerpts_none(split, buf, gs.drop_last(), k);
    } else {
        assert(gs.take(k) =~= gs);
    }
}

/// The excerpts for each group of matches, in the order of the groups.
pub fn excerpts_for_groups(split: &Vec<String>, buf: usize, gs: &Vec<Vec<IntermediateExcerpt>>) -> (r:
    Option<Vec<Excerpt>>)
    requires
        forall|i: int| 0 <= i < gs@.len() ==> (#[trigger] gs@[i])@.len() > 0,
    ensures
        match r {
            Some(es) => excerpts_of(views(split@), buf as int, group_views(gs@)) == Some(
                excerpt_views(es@),
            ),
            None => excerpts_of(views(split@), buf as int, group_views(gs@)) is None,
        },
{
    let ghost gv = group_views(gs@);
    let mut out: Vec<Excerpt> = Vec::new();
    let mut i: usize = 0;
    while i < gs.len()
        invariant
            i <= gs@.len(),
            gv == group_views(gs@),
            forall|j: int| 0 <= j < gs@.len() ==> (#[trigger] gs@[j])@.len() > 0,
            excerpts_of(views(split@), buf as int, gv.take(i as int)) == Some(excerpt_views(out@)),
        decreases gs@.len() - i,
    {
        proof {
            assert(gv.take(i as int + 1).drop_last() =~= gv.take(i as int));
            assert(gv.take(i as int + 1).last() == gv[i as int]);
            assert(gv[i as int] == ie_views(gs@[i as int]@));
        }
        match excerpt_for_group(split, buf, &gs[i]) {
            Some(e) => {
                let ghost prev = out@;
                out.push(e);
                proof {
                    assert(excerpt_views(out@) =~= excerpt_views(prev).push(e@));
                }
            },
            None => {
                proof {
                    lemma_excerpts_none(views(split@), buf as int, gv, i as int + 1);
                }
                return None;
            },
        }
        i = i + 1;
    }
    assert(gv.take(gv.len() as int) =~= gv);
    Some(out)
}

/// A score read as an `i16`, the way `score as i16` reads it.
pub fn score_as_i16(score: usize) -> (r: i128)
    ensures
        r == as_i16(score as nat),
{
    let m = score % 65536;
    if m < 32768 {
        m as i128
    } else {
        m as i128 - 65536
    }
}

/// The excerpts ranked best first and cut to at most `n`.
pub open spec fn ranked_excerpts(es: Seq<ExcerptView>, n: int) -> Seq<ExcerptView> {
    let ranked = sort_by_keys(es, excerpt_keys(es));
    ranked.take(
        if n < ranked.len() {
            n
        } else {
            ranked.len() as int
        },
    )
}

/// The excerpts of `v` in the order of `perm`, at most `n` of them.
fn permute_excerpts(v: &Vec<Excerpt>, perm: &Vec<usize>, n: usize) -> (r: Vec<Excerpt>)
    requires
        forall|i: int| 0 <= i < perm@.len() ==> #[trigger] perm@[i] < v@.len(),
    ensures
        excerpt_views(r@) == permute(excerpt_views(v@), int_positions(perm@)).take(
            if n < perm@.len() {
                n as int
            } else {
                perm@.len() as int
            },
        ),
{
    let mut r: Vec<Excerpt> = Vec::new();
    let mut i: usize = 0;
    while i < perm.len() && i < n
        invariant
            i <= perm@.len(),
            i <= n,
            forall|j: int| 0 <= j < perm@.len() ==> #[trigger] perm@[j] < v@.len(),
            excerpt_views(r@) == permute(excerpt_views(v@), int_positions(perm@.take(i as int))),
        decreases perm@.len() - i,
    {
        let c = v[perm[i]].copy();
        let ghost prev = r@;
        r.push(c);
        proof {
            assert(excerpt_views(r@) =~= excerpt_views(prev).push(c@));
            assert(permute(excerpt_views(v@), int_positions(perm@.take(i as int + 1))) =~= permute(
                excerpt_views(v@),
                int_positions(perm@.take(i as int)),
            ).push(c@));
        }
        i = i + 1;
    }
    assert(permute(excerpt_views(v@), int_positions(perm@.take(i as int))) =~= permute(
        excerpt_views(v@),
        int_positions(perm@),
    ).take(i as int));
    r
}

/// Ranks excerpts best first by their score read as an `i16`, keeping at most
/// `n`; `None` where a score read that way cannot be negated.
pub fn rank_excerpts(es: &Vec<Excerpt>, n: u8) -> (r: Option<Vec<Excerpt>>)
    ensures
        match r {
            Some(v) => negatable_i16(excerpt_views(es@)) && excerpt_views(v@) == ranked_excerpts(
                excerpt_views(es@),
                n as int,
            ),
            None => !negatable_i16(excerpt_views(es@)),
        },
{
    let ghost ev = excerpt_views(es@);
    let mut keys: Vec<i128> = Vec::new();
    let mut i: usize = 0;
    while i < es.len()
        invariant
            i <= es@.len(),
            ev == excerpt_views(es@),
            int_keys(keys@) == excerpt_keys(ev.take(i as int)),
            negatable_i16(ev.take(i as int)),
        decreases es@.len() - i,
    {
        let k = score_as_i16(es[i].score);
        proof {
            assert(ev[i as int] == es@[i as int]@);
        }
        if k == -32768 {
            proof {
                assert(!negatable_i16(ev));
            }
            return None;
        }
        let ghost prev = keys@;
        keys.push(-k);
        proof {
            assert(int_keys(keys@) =~= int_keys(prev).push(-as_i16(ev[i as int].score)));
            assert(excerpt_keys(ev.take(i as int + 1)) =~= excerpt_keys(ev.take(i as int)).push(
                -as_i16(ev[i as int].score),
            ));
            assert forall|j: int| 0 <= j < i + 1 implies as_i16(
                (#[trigger] ev.take(i as int + 1)[j]).score,
            ) != -32768 by {
                if j < i {
                    assert(ev.take(i as int + 1)[j] == ev.take(i as int)[j]);
                }
            }
        }
        i = i + 1;
    }
    assert(ev.take(ev.len() as int) =~= ev);
    let perm = stable_order_of(&keys);
    proof {
        lemma_stable_order_len(int_keys(keys@));
        assert forall|j: int| 0 <= j < perm@.len() implies #[trigger] perm@[j] < es@.len() by {
            assert(int_positions(perm@)[j] == perm@[j] as int);
        }
    }
    Some(permute_excerpts(es, &perm, n as usize))
}


/// Once the ranges of a prefix of the title matches fail, those of all fail.
pub proof fn lemma_title_none(title: Seq<Seq<char>>, ts: Seq<IEView>, k: int)
    requires
        0 <= k <= ts.len(),
        title_ranges(title, ts.take(k)) is None,
    ensures
        title_ranges(title, ts) is None,
    decreases ts.len(),
{
    if k < ts.len() {
        assert(ts.drop_last().take(k) =~= ts.take(k));
        lemma_title_none(title, ts.drop_last(), k);
    } else {
        assert(ts.take(k) =~= ts);
    }
}

/// The byte ranges of the title matches `ts` in the title words `title`.
pub fn title_highlights(title: &Vec<String>, ts: &Vec<IntermediateExcerpt>) -> (r: Option<
    Vec<HighlightRange>,
>)
    ensures
        match r {
            Some(v) => title_ranges(views(title@), ie_views(ts@)) == Some(v@),
            None => title_ranges(views(title@), ie_views(ts@)) is None,
        },
{
    let ghost tv = ie_views(ts@);
    let ghost wv = views(title@);
    let mut out: Vec<HighlightRange> = Vec::new();
    let mut i: usize = 0;
    while i < ts.len()
        invariant
            i <= ts@.len(),
            tv == ie_views(ts@),
            wv == views(title@),
            title_ranges(wv, tv.take(i as int)) == Some(out@),
        decreases ts@.len() - i,
    {
        proof {
            assert(tv.take(i as int + 1).drop_last() =~= tv.take(i as int));
            assert(tv.take(i as int + 1).last() == tv[i as int]);
            assert(tv[i as int] == ts@[i as int]@);
        }
        let ie = &ts[i];
        if ie.word_index > title.len() {
            proof {
                lemma_title_none(wv, tv, i as int + 1);
            }
            return None;
        }
        let offset: usize = if ie.word_index == 0 {
            0
        } else {
            1
        };
        let prefix = crate::text::join_range(title, 0, ie.word_index, ' ');
        proof {
            assert(wv.subrange(0, ie.word_index as int) =~= wv.take(ie.word_index as int));
        }
        let b = string_byte_len(&prefix).checked_add(offset);
        let e = match b {
            Some(b) => b.checked_add(string_byte_len(&ie.query)),
            None => None,
        };
        match (b, e) {
            (Some(b), Some(e)) => {
                out.push(HighlightRange { beginning: b, end: e });
            },
            _ => {
                proof {
                    lemma_title_none(wv, tv, i as int + 1);
                }
                return None;
            },
        }
        i = i + 1;
    }
    assert(tv.take(tv.len() as int) =~= tv);
    Some(out)
}

/// The points a title match adds under a boost setting.
pub fn boost_points(b: TitleBoost) -> (r: usize)
    ensures
        r == title_boost_points(b),
{
    match b {
        TitleBoost::Minimal => 25,
        TitleBoost::Moderate => 75,
        TitleBoost::Large => 150,
        TitleBoost::Ridiculous => 5000,
    }
}

impl OutputEntry {
    /// The document a result is about, taken from an indexed entry.
    pub fn from_entry(entry: &Entry) -> (r: OutputEntry)
        ensures
            r@ == (OutputEntryView { url: entry.url@, title: entry.title@, fields: entry.fields.pairs@ }),
    {
        OutputEntry {
            url: copy_string(&entry.url),
            title: copy_string(&entry.title),
            fields: entry.fields.copy(),
        }
    }
}

impl OutputResult {
    /// The result for one document and the matches found in it; `None` where
    /// a place lies beyond the document or a number does not fit its type.
    pub fn from_matches(entry: &Entry, config: &PassthroughConfig, ies: &Vec<IntermediateExcerpt>) -> (r:
        Option<OutputResult>)
        ensures
            match r {
                Some(o) => output_result(*entry, *config, ie_views(ies@)) == Some(o@),
                None => output_result(*entry, *config, ie_views(ies@)) is None,
            },
    {
        let split = split_whitespace(entry.contents.as_str());
        let buf = config.excerpt_buffer as usize;
        let contents = select_source(ies, WordListSource::Contents);
        let sorted = sort_by_place(&contents);
        let deduped = dedup_by_place(&sorted);
        let groups = group_close(&deduped, buf);
        let es = match excerpts_for_groups(&split, buf, &groups) {
            Some(es) => es,
            None => {
                return None;
            },
        };
        let kept = match rank_excerpts(&es, config.excerpts_per_result) {
            Some(k) => k,
            None => {
                return None;
            },
        };
        let title = split_whitespace(entry.title.as_str());
        let titles = select_source(ies, WordListSource::Title);
        let trs = match title_highlights(&title, &titles) {
            Some(t) => t,
            None => {
                return None;
            },
        };
        let boost = match trs.len().checked_mul(boost_points(config.title_boost)) {
            Some(b) => b,
            None => {
                return None;
            },
        };
        let base: usize = if kept.len() > 0 {
            kept[0].score
        } else {
            0
        };
        proof {
            if kept@.len() > 0 {
                assert(excerpt_views(kept@)[0] == kept@[0]@);
            }
        }
        let score = match base.checked_add(boost) {
            Some(s) => s,
            None => {
                return None;
            },
        };
        let r = OutputResult {
            entry: OutputEntry::from_entry(entry),
            excerpts: kept,
            title_highlight_ranges: trs,
            score,
        };
        proof {
            assert(r@.excerpts =~= excerpt_views(kept@));
        }
        Some(r)
    }
}

/// Each title match gets one highlight range, in the order of the matches,
/// that starts where the matched title word starts and spans the query
/// word: for a match at title word `k`, the range begins after the first
/// `k` title words joined by single spaces and the space that follows them
/// (at 0 for the first word), and is as many bytes long as the query word.
pub proof fn lemma_title_ranges_locate(title: Seq<Seq<char>>, ts: Seq<IEView>)
    ensures
        title_ranges(title, ts) matches Some(rs) ==> {
            &&& rs.len() == ts.len()
            &&& forall|i: int|
                0 <= i < ts.len() ==> {
                    let k = ts[i].word_index as int;
                    &&& k <= title.len()
                    &&& (#[trigger] rs[i]).beginning == byte_len(join(title.take(k), seq![' '])) + (if k
                        > 0 {
                        1int
                    } else {
                        0int
                    })
                    &&& rs[i].end == rs[i].beginning + byte_len(ts[i].query)
                }
        },
    decreases ts.len(),
{
    if ts.len() > 0 {
        lemma_title_ranges_locate(title, ts.drop_last());
        if let Some(rs) = title_ranges(title, ts) {
            let prev = title_ranges(title, ts.drop_last()).unwrap();
            assert forall|i: int| 0 <= i < ts.len() - 1 implies rs[i] == prev[i] && ts[i] == ts.drop_last()[i] by {}
        }
    }
}

/// Excerpts taken from `gs` one per group.
proof fn lemma_excerpts_of_len(split: Seq<Seq<char>>, buf: int, gs: Seq<Seq<IEView>>)
    ensures
        excerpts_of(split, buf, gs) matches Some(es) ==> es.len() == gs.len(),
    decreases gs.len(),
{
    if gs.len() > 0 {
        lemma_excerpts_of_len(split, buf, gs.drop_last());
    }
}

/// Ranking excerpts keeps as many of them as asked for, or all of them
/// where there are fewer, best first: each scores, read as an `i16` the
/// way the ranking reads it, at least as much as every later one.
pub proof fn lemma_ranked_excerpts_len(es: Seq<ExcerptView>, n: int)
    requires
        0 <= n,
    ensures
        ranked_excerpts(es, n).len() == if n < es.len() {
            n
        } else {
            es.len() as int
        },
        forall|i: int, j: int|
            0 <= i < j < ranked_excerpts(es, n).len() ==> as_i16(ranked_excerpts(es, n)[i].score) >= as_i16(
                ranked_excerpts(es, n)[j].score,
            ),
{
    let keys = excerpt_keys(es);
    lemma_sort_by_keys_sorted(es, keys);
    let p = stable_order(keys);
    let ranked = sort_by_keys(es, keys);
    let r = ranked_excerpts(es, n);
    assert forall|i: int, j: int| 0 <= i < j < r.len() implies as_i16(r[i].score) >= as_i16(r[j].score) by {
        assert(r[i] == ranked[i] && ranked[i] == es[p[i]]);
        assert(r[j] == ranked[j] && ranked[j] == es[p[j]]);
        assert(keys[p[i]] <= keys[p[j]]);
    }
}

/// Each match of a group gets one highlight range, in the order of the
/// matches, within an excerpt that starts at word `min`: for a match at
/// word `k`, the range begins one byte after the words from `min` up to
/// `k` joined by single spaces, and is as many bytes long as the query
/// word.
pub proof fn lemma_highlight_ranges_locate(split: Seq<Seq<char>>, min: int, g: Seq<IEView>)
    ensures
        highlight_ranges(split, min, g) matches Some(rs) ==> {
            &&& rs.len() == g.len()
            &&& forall|i: int|
                0 <= i < g.len() ==> (#[trigger] rs[i]).beginning == byte_len(
                    join(split.subrange(min, g[i].word_index as int), seq![' ']),
                ) + 1 && rs[i].end == rs[i].beginning + byte_len(g[i].query)
        },
    decreases g.len(),
{
    if g.len() > 0 {
        lemma_highlight_ranges_locate(split, min, g.drop_last());
        if let Some(rs) = highlight_ranges(split, min, g) {
            let prev = highlight_ranges(split, min, g.drop_last()).unwrap();
            assert forall|i: int| 0 <= i < g.len() - 1 implies rs[i] == prev[i] && g[i] == g.drop_last()[i] by {}
        }
    }
}

/// A result keeps one excerpt for each group of nearby matches in its
/// document's contents, as many as the index asks for where there are more
/// groups; and its title highlight ranges are those of its title matches.
pub proof fn lemma_result_excerpts_and_title(entry: Entry, cfg: PassthroughConfig, ies: Seq<IEView>)
    ensures
        output_result(entry, cfg, ies) matches Some(o) ==> {
            let groups = close_groups(
                dedup_places(by_place(from_source(ies, WordListSource::Contents))),
                cfg.excerpt_buffer as int,
            ).len();
            &&& o.excerpts.len() == if cfg.excerpts_per_result < groups {
                cfg.excerpts_per_result as int
            } else {
                groups as int
            }
            &&& title_ranges(split_ws(entry.title@), from_source(ies, WordListSource::Title)) == Some(
                o.title_highlight_ranges,
            )
        },
{
    let split = split_ws(entry.contents@);
    let buf = cfg.excerpt_buffer as int;
    let gs = close_groups(dedup_places(by_place(from_source(ies, WordListSource::Contents))), buf);
    lemma_excerpts_of_len(split, buf, gs);
    if let Some(es) = excerpts_of(split, buf, gs) {
        lemma_ranked_excerpts_len(es, cfg.excerpts_per_result as int);
    }
}

/// A result scores as its best excerpt (none scoring 0) plus, for each
/// match in its title, 25, 75, 150 or 5000 points as the title boost is
/// minimal, moderate, large or ridiculous.
pub proof fn lemma_result_score(entry: Entry, cfg: PassthroughConfig, ies: Seq<IEView>)
    ensures
        output_result(entry, cfg, ies) matches Some(o) ==> {
            let points: int = match cfg.title_boost {
                TitleBoost::Minimal => 25,
                TitleBoost::Moderate => 75,
                TitleBoost::Large => 150,
                TitleBoost::Ridiculous => 5000,
            };
            let best: int = if o.excerpts.len() > 0 {
                o.excerpts[0].score as int
            } else {
                0
            };
            &&& o.score == best + o.title_highlight_ranges.len() * points
            &&& forall|i: int| 0 <= i < o.excerpts.len() ==> as_i16(o.excerpts[0].score) >= as_i16(
                #[trigger] o.excerpts[i].score,
            )
        },
{
    let split = split_ws(entry.contents@);
    let buf = cfg.excerpt_buffer as int;
    let gs = close_groups(dedup_places(by_place(from_source(ies, WordListSource::Contents))), buf);
    if let Some(es) = excerpts_of(split, buf, gs) {
        lemma_ranked_excerpts_len(es, cfg.excerpts_per_result as int);
        let kept = ranked_excerpts(es, cfg.excerpts_per_result as int);
        assert forall|i: int| 0 < i < kept.len() implies as_i16(kept[0].score) >= as_i16(#[trigger] kept[i].score) by {}
    }
}

} // verus!
