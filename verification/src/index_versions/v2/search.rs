//! Searching an index of the second format.
//!
//! As in the third format, a query is lowercased and split at spaces and the
//! matches of its words are grouped by document. The second format keeps no
//! title matches and no per-word metadata; excerpts show eight words around
//! their matches and score the sum of their matches, and at most ten
//! documents become results.

use super::structs::{Container, Entry, Index, SearchResult};
use crate::common::{copy_string, Fields};
use crate::index_versions::v3::search::intermediate_excerpt::{
    lemma_views_concat, lemma_views_push, views as ie_views, IEView, IntermediateExcerpt,
};
use crate::index_versions::v3::search::output_result::{
    close_groups, dedup_by_place, dedup_places, excerpt_views, excerpt_window, group_close,
    group_views, negatable_i16, place_keys, rank_excerpts, ranked_excerpts, sort_ies,
    total_score, window_for_group,
};
use crate::index_versions::v3::search::results::{
    as_i64, entry_group_views, group_by_entry, group_matches, negatable_i64, result_views,
    score_as_i64, score_keys_desc,
};
use crate::index_versions::v3::search::{find_key, find_key_exec};
use crate::index_versions::v3::structs::WordListSource;
use crate::searcher::{
    Excerpt, OutputEntry, OutputEntryView, OutputResult, OutputResultView, SearchOutput,
    SearchOutputView,
};
use crate::sort::{int_keys, int_positions, lemma_sort_by_keys_sorted, lemma_stable_order_len, permute, sort_by_keys, stable_order, stable_order_of};
use crate::stopwords::{is_stopword, stopword};
use crate::text::{lowercase, pieces, split_pieces, split_whitespace, split_ws, to_lowercase, views};
use vstd::prelude::*;

verus! {

/// The number of words shown around the matches of an excerpt.
pub const EXCERPT_BUFFER: usize = 8;

/// The most excerpts a result keeps.
pub const EXCERPTS_PER_RESULT: u8 = 10;

/// The most documents that become results.
pub const RESULTS_SHOWN: usize = 10;

/// The score of any match on a stopword.
pub const STOPWORD_SCORE: u8 = 40;

/// The places `xs` in document `entry_index`, matched by `query` with `score`.
pub open spec fn excerpt_ies(
    query: Seq<char>,
    entry_index: usize,
    score: u8,
    xs: Seq<super::structs::Excerpt>,
) -> Seq<IEView> {
    xs.map_values(
        |x: super::structs::Excerpt|
            IEView {
                query,
                entry_index,
                score,
                source: WordListSource::Contents,
                word_index: x.word_index,
                internal_annotations: seq![],
                fields: seq![],
            },
    )
}

/// The places of a container's results, matched by `query`, each with the
/// score of its result or with `score` where that is given.
pub open spec fn results_ies(
    query: Seq<char>,
    rs: Seq<(usize, SearchResult)>,
    score: Option<u8>,
) -> Seq<IEView>
    decreases rs.len(),
{
    if rs.len() == 0 {
        seq![]
    } else {
        let r = rs.last();
        results_ies(query, rs.drop_last(), score) + excerpt_ies(
            query,
            r.0,
            match score {
                Some(s) => s,
                None => r.1.score,
            },
            r.1.excerpts@,
        )
    }
}

/// The places of the words that the aliases `als` stand for, each matched
/// by its own word with the alias's score.
pub open spec fn alias_ies(qs: Seq<(String, Container)>, als: Seq<(String, u8)>) -> Seq<IEView>
    decreases als.len(),
{
    if als.len() == 0 {
        seq![]
    } else {
        let a = als.last();
        alias_ies(qs, als.drop_last()) + match find_key(qs, a.0@) {
            Some(p) => results_ies(a.0@, qs[p].1.results@, Some(a.1)),
            None => seq![],
        }
    }
}

/// What the words of a query match, word by word: each word's own results,
/// then those of its aliases.
pub open spec fn query_ies(qs: Seq<(String, Container)>, words: Seq<Seq<char>>) -> Seq<IEView>
    decreases words.len(),
{
    if words.len() == 0 {
        seq![]
    } else {
        query_ies(qs, words.drop_last()) + match find_key(qs, words.last()) {
            Some(p) => results_ies(qs[p].0@, qs[p].1.results@, None) + alias_ies(
                qs,
                qs[p].1.aliases@,
            ),
            None => seq![],
        }
    }
}

/// A match on a stopword scores as a stopword.
pub open spec fn stopword_scored(ie: IEView) -> IEView {
    if is_stopword(ie.query) {
        IEView { score: STOPWORD_SCORE, ..ie }
    } else {
        ie
    }
}

/// The excerpt for a group of matches: the window around them, its ranges
/// in the order of the matches, and the sum of their scores.
pub open spec fn excerpt_of(split: Seq<Seq<char>>, g: Seq<IEView>) -> Option<
    crate::searcher::ExcerptView,
> {
    match excerpt_window(split, EXCERPT_BUFFER as int, g) {
        None => None,
        Some((text, rs)) => if total_score(g) > usize::MAX {
            None
        } else {
            Some(
                crate::searcher::ExcerptView {
                    text,
                    highlight_ranges: rs,
                    score: total_score(g) as nat,
                    internal_annotations: seq![],
                    fields: seq![],
                },
            )
        },
    }
}

/// The excerpts for each group, or `None` when one cannot be made.
pub open spec fn excerpts_of(split: Seq<Seq<char>>, gs: Seq<Seq<IEView>>) -> Option<
    Seq<crate::searcher::ExcerptView>,
>
    decreases gs.len(),
{
    if gs.len() == 0 {
        Some(seq![])
    } else {
        match (excerpts_of(split, gs.drop_last()), excerpt_of(split, gs.last())) {
            (Some(es), Some(e)) => Some(es.push(e)),
            _ => None,
        }
    }
}

/// The sum of the scores of the excerpts.
pub open spec fn excerpts_score(es: Seq<crate::searcher::ExcerptView>) -> nat
    decreases es.len(),
{
    if es.len() == 0 {
        0
    } else {
        excerpts_score(es.drop_last()) + es.last().score
    }
}

/// The score of a result with the ranked excerpts `es`: the sum of their
/// scores, or, with more than three, the sum of the first three and the mean
/// of the rest, rounded down.
pub open spec fn result_score(es: Seq<crate::searcher::ExcerptView>) -> nat {
    if es.len() > 3 {
        excerpts_score(es.take(3)) + excerpts_score(es.skip(3)) / ((es.len() - 3) as nat)
    } else {
        excerpts_score(es)
    }
}

/// The result for one document and the matches in it; `None` where a place
/// lies beyond the document or a number does not fit its type.
pub open spec fn output_result(entry: Entry, ies: Seq<IEView>) -> Option<OutputResultView> {
    let split = split_ws(entry.contents@);
    let sorted = sort_by_keys(ies, place_keys(ies));
    let gs = close_groups(dedup_places(sorted), EXCERPT_BUFFER as int);
    match excerpts_of(split, gs) {
        None => None,
        Some(es) => if !negatable_i16(es) {
            None
        } else {
            let kept = ranked_excerpts(es, EXCERPTS_PER_RESULT as int);
            if excerpts_score(kept) > usize::MAX {
                None
            } else {
                Some(
                    OutputResultView {
                        entry: OutputEntryView {
                            url: entry.url@,
                            title: entry.title@,
                            fields: entry.fields.pairs@,
                        },
                        excerpts: kept,
                        title_highlight_ranges: seq![],
                        score: result_score(kept),
                    },
                )
            }
        },
    }
}

/// The results for the first groups, at most `RESULTS_SHOWN` of them, in
/// the order of the groups; `None` where a group names a document the index
/// lacks or a result cannot be made.
pub open spec fn results_for(entries: Seq<Entry>, gs: Seq<(usize, Seq<IEView>)>) -> Option<
    Seq<OutputResultView>,
>
    decreases gs.len(),
{
    if gs.len() == 0 {
        Some(seq![])
    } else {
        match results_for(entries, gs.drop_last()) {
            None => None,
            Some(rs) => {
                let (k, g) = gs.last();
                if k >= entries.len() {
                    None
                } else {
                    match output_result(entries[k as int], g) {
                        None => None,
                        Some(r) => Some(rs.push(r)),
                    }
                }
            },
        }
    }
}

/// What a query finds in an index of the second format: the first ten
/// documents that match become results, ranked by score, best first.
pub open spec fn search_output(index: Index, query: Seq<char>) -> Option<SearchOutputView> {
    let words = pieces(lowercase(query), |c: char| c == ' ');
    let ies = query_ies(index.queries@, words).map_values(|ie: IEView| stopword_scored(ie));
    let gs = group_by_entry(ies);
    let shown = gs.take(
        if gs.len() < RESULTS_SHOWN {
            gs.len() as int
        } else {
            RESULTS_SHOWN as int
        },
    );
    match results_for(index.entries@, shown) {
        None => None,
        Some(rs) => if !negatable_i64(rs) {
            None
        } else {
            let ranked = sort_by_keys(rs, score_keys_desc(rs));
            Some(
                SearchOutputView {
                    results: ranked,
                    total_hit_count: ranked.len(),
                    url_prefix: seq![],
                },
            )
        },
    }
}

/// Appends the places of a container's results to `out`.
fn push_results_ies(
    out: &mut Vec<IntermediateExcerpt>,
    query: &String,
    rs: &Vec<(usize, SearchResult)>,
    score: Option<u8>,
)
    ensures
        ie_views(final(out)@) == ie_views(old(out)@) + results_ies(query@, rs@, score),
{
    let mut i: usize = 0;
    while i < rs.len()
        invariant
            i <= rs@.len(),
            ie_views(out@) == ie_views(old(out)@) + results_ies(query@, rs@.take(i as int), score),
        decreases rs@.len() - i,
    {
        let entry_index = rs[i].0;
        let result = &rs[i].1;
        let s = match score {
            Some(s) => s,
            None => result.score,
        };
        let ghost before = ie_views(out@);
        let mut j: usize = 0;
        while j < result.excerpts.len()
            invariant
                j <= result.excerpts@.len(),
                ie_views(out@) == before + excerpt_ies(
                    query@,
                    entry_index,
                    s,
                    result.excerpts@.take(j as int),
                ),
            decreases result.excerpts@.len() - j,
        {
            let ie = IntermediateExcerpt {
                query: copy_string(query),
                entry_index,
                score: s,
                source: WordListSource::Contents,
                word_index: result.excerpts[j].word_index,
                internal_annotations: Vec::new(),
                fields: Fields::new(),
            };
            let ghost prev = out@;
            out.push(ie);
            proof {
                lemma_views_push(prev, ie);
                assert(ie@.internal_annotations =~= Seq::<crate::common::InternalWordAnnotation>::empty());
                assert(excerpt_ies(query@, entry_index, s, result.excerpts@.take(j as int + 1))
                    =~= excerpt_ies(query@, entry_index, s, result.excerpts@.take(j as int)).push(
                    ie@,
                ));
            }
            j = j + 1;
        }
        proof {
            assert(result.excerpts@.take(result.excerpts@.len() as int) =~= result.excerpts@);
            assert(rs@.take(i as int + 1).drop_last() =~= rs@.take(i as int));
        }
        i = i + 1;
    }
    assert(rs@.take(rs@.len() as int) =~= rs@);
}

/// The places the words of a query match, with matches on stopwords scored
/// as stopwords.
pub fn collect_ies(index: &Index, words: &Vec<String>) -> (r: Vec<IntermediateExcerpt>)
    ensures
        ie_views(r@) == query_ies(index.queries@, views(words@)).map_values(
            |ie: IEView| stopword_scored(ie),
        ),
{
    let mut out: Vec<IntermediateExcerpt> = Vec::new();
    let mut i: usize = 0;
    while i < words.len()
        invariant
            i <= words@.len(),
            ie_views(out@) == query_ies(index.queries@, views(words@.take(i as int))),
        decreases words@.len() - i,
    {
        match find_key_exec(&index.queries, &words[i]) {
            Some(p) => {
                let c = &index.queries[p].1;
                let mut more: Vec<IntermediateExcerpt> = Vec::new();
                push_results_ies(&mut more, &index.queries[p].0, &c.results, None);
                let ghost own = ie_views(more@);
                let mut a: usize = 0;
                while a < c.aliases.len()
                    invariant
                        a <= c.aliases@.len(),
                        own == results_ies(index.queries@[p as int].0@, c.results@, None),
                        ie_views(more@) == own + alias_ies(index.queries@, c.aliases@.take(a as int)),
                    decreases c.aliases@.len() - a,
                {
                    let target = &c.aliases[a].0;
                    match find_key_exec(&index.queries, target) {
                        Some(q) => {
                            push_results_ies(
                                &mut more,
                                target,
                                &index.queries[q].1.results,
                                Some(c.aliases[a].1),
                            );
                        },
                        None => {},
                    }
                    proof {
                        assert(c.aliases@.take(a as int + 1).drop_last() =~= c.aliases@.take(a as int));
                        assert(ie_views(more@) =~= own + alias_ies(
                            index.queries@,
                            c.aliases@.take(a as int + 1),
                        ));
                    }
                    a = a + 1;
                }
                assert(c.aliases@.take(c.aliases@.len() as int) =~= c.aliases@);
                let ghost more_s = more@;
                let ghost out_v = out@;
                out.append(&mut more);
                proof {
                    lemma_views_concat(out_v, more_s);
                }
            },
            None => {},
        }
        proof {
            let ws = views(words@.take(i as int + 1));
            assert(ws.drop_last() =~= views(words@.take(i as int)));
            assert(ws.last() == words@[i as int]@);
        }
        i = i + 1;
    }
    assert(words@.take(words@.len() as int) =~= words@);
    let ghost collected = ie_views(out@);
    let mut k: usize = 0;
    while k < out.len()
        invariant
            k <= out@.len(),
            collected.len() == out@.len(),
            forall|j: int| 0 <= j < k ==> out@[j]@ == stopword_scored(#[trigger] collected[j]),
            forall|j: int| k <= j < out@.len() ==> out@[j]@ == #[trigger] collected[j],
        decreases out@.len() - k,
    {
        if stopword(out[k].query.as_str()) {
            let mut ie = out.remove(k);
            ie.score = STOPWORD_SCORE;
            out.insert(k, ie);
        }
        k = k + 1;
    }
    assert(ie_views(out@) =~= collected.map_values(|ie: IEView| stopword_scored(ie)));
    out
}

/// Matches sorted stably by place.
fn sort_by_word_index(v: &Vec<IntermediateExcerpt>) -> (r: Vec<IntermediateExcerpt>)
    ensures
        ie_views(r@) == sort_by_keys(ie_views(v@), place_keys(ie_views(v@))),
{
    let mut keys: Vec<i128> = Vec::new();
    let mut i: usize = 0;
    while i < v.len()
        invariant
            i <= v@.len(),
            int_keys(keys@) == place_keys(ie_views(v@.take(i as int))),
        decreases v@.len() - i,
    {
        let ghost prev = keys@;
        keys.push(v[i].word_index as i128);
        proof {
            assert(int_keys(keys@) =~= int_keys(prev).push(v@[i as int].word_index as int));
            assert(ie_views(v@.take(i as int + 1)) =~= ie_views(v@.take(i as int)).push(
                v@[i as int]@,
            ));
            assert(place_keys(ie_views(v@.take(i as int + 1))) =~= place_keys(
                ie_views(v@.take(i as int)),
            ).push(v@[i as int].word_index as int));
        }
        i = i + 1;
    }
    assert(v@.take(v@.len() as int) =~= v@);
    sort_ies(v, &keys)
}

/// Once the excerpts of a prefix of the groups fail, those of all fail.
pub proof fn lemma_excerpts_none(split: Seq<Seq<char>>, gs: Seq<Seq<IEView>>, k: int)
    requires
        0 <= k <= gs.len(),
        excerpts_of(split, gs.take(k)) is None,
    ensures
        excerpts_of(split, gs) is None,
    decreases gs.len(),
{
    if k < gs.len() {
        assert(gs.drop_last().take(k) =~= gs.take(k));
        lemma_excerpts_none(split, gs.drop_last(), k);
    } else {
        assert(gs.take(k) =~= gs);
    }
}

/// The excerpt for a nonempty group of matches.
fn excerpt_for_group(split: &Vec<String>, g: &Vec<IntermediateExcerpt>) -> (r: Option<Excerpt>)
    requires
        g@.len() > 0,
    ensures
        match r {
            Some(e) => excerpt_of(views(split@), ie_views(g@)) == Some(e@),
            None => excerpt_of(views(split@), ie_views(g@)) is None,
        },
{
    let ghost gv = ie_views(g@);
    let (text, ranges) = match window_for_group(split, EXCERPT_BUFFER, g) {
        Some(w) => w,
        None => {
            return None;
        },
    };
    let mut total: usize = 0;
    let mut t: usize = 0;
    while t < g.len()
        invariant
            t <= g@.len(),
            gv == ie_views(g@),
            total as int == total_score(gv.take(t as int)),
        decreases g@.len() - t,
    {
        proof {
            assert(gv.take(t as int + 1).drop_last() =~= gv.take(t as int));
            assert(gv[t as int] == g@[t as int]@);
        }
        match total.checked_add(g[t].score as usize) {
            Some(x) => {
                total = x;
            },
            None => {
                proof {
                    crate::index_versions::v3::search::output_result::lemma_total_prefix(
                        gv,
                        t as int + 1,
                    );
                }
                return None;
            },
        }
        t = t + 1;
    }
    assert(gv.take(gv.len() as int) =~= gv);
    Some(
        Excerpt {
            text,
            highlight_ranges: ranges,
            score: total,
            internal_annotations: Vec::new(),
            fields: Fields::new(),
        },
    )
}

/// The excerpts for each group of matches, in the order of the groups.
fn excerpts_for_groups(split: &Vec<String>, gs: &Vec<Vec<IntermediateExcerpt>>) -> (r: Option<
    Vec<Excerpt>,
>)
    requires
        forall|i: int| 0 <= i < gs@.len() ==> (#[trigger] gs@[i])@.len() > 0,
    ensures
        match r {
            Some(es) => excerpts_of(views(split@), group_views(gs@)) == Some(excerpt_views(es@)),
            None => excerpts_of(views(split@), group_views(gs@)) is None,
        },
{
    let ghost gv = group_views(gs@);
    let mut out: Vec<Excerpt> = Vec::new();
    let mut i: usize = 0;
    while i < gs.len()
        invariant
            i <= gs@.len(),
            gv == group_views(gs@),
            forall|j: int| 0 <= j < gs@.len() ==> (#[trigger] gs@[j])@.len() > 0,
            excerpts_of(views(split@), gv.take(i as int)) == Some(excerpt_views(out@)),
        decreases gs@.len() - i,
    {
        proof {
            assert(gv.take(i as int + 1).drop_last() =~= gv.take(i as int));
            assert(gv.take(i as int + 1).last() == gv[i as int]);
            assert(gv[i as int] == ie_views(gs@[i as int]@));
        }
        match excerpt_for_group(split, &gs[i]) {
            Some(e) => {
                let ghost prev = out@;
                out.push(e);
                proof {
                    assert(excerpt_views(out@) =~= excerpt_views(prev).push(e@));
                }
            },
            None => {
                proof {
                    lemma_excerpts_none(views(split@), gv, i as int + 1);
                }
                return None;
            },
        }
        i = i + 1;
    }
    assert(gv.take(gv.len() as int) =~= gv);
    Some(out)
}

/// The sum of the scores of a prefix is no more than that of the whole.
pub proof fn lemma_excerpts_score_prefix(es: Seq<crate::searcher::ExcerptView>, k: int)
    requires
        0 <= k <= es.len(),
    ensures
        excerpts_score(es.take(k)) <= excerpts_score(es),
    decreases es.len(),
{
    if k < es.len() {
        assert(es.drop_last().take(k) =~= es.take(k));
        lemma_excerpts_score_prefix(es.drop_last(), k);
    } else {
        assert(es.take(k) =~= es);
    }
}

/// The sum over the whole is the sum over a prefix plus the sum over the rest.
pub proof fn lemma_excerpts_score_split(es: Seq<crate::searcher::ExcerptView>, k: int)
    requires
        0 <= k <= es.len(),
    ensures
        excerpts_score(es) == excerpts_score(es.take(k)) + excerpts_score(es.skip(k)),
    decreases es.len(),
{
    if k < es.len() {
        assert(es.drop_last().take(k) =~= es.take(k));
        assert(es.skip(k).drop_last() =~= es.drop_last().skip(k));
        assert(es.skip(k).last() == es.last());
        lemma_excerpts_score_split(es.drop_last(), k);
    } else {
        assert(es.take(k) =~= es);
        assert(es.skip(k) =~= Seq::<crate::searcher::ExcerptView>::empty());
    }
}

/// The sum of the scores of `es[from..to]`, computed.
fn sum_scores(es: &Vec<Excerpt>, from: usize, to: usize) -> (r: usize)
    requires
        from <= to <= es@.len(),
        excerpts_score(excerpt_views(es@)) <= usize::MAX,
    ensures
        r == excerpts_score(excerpt_views(es@).subrange(from as int, to as int)),
{
    let ghost ev = excerpt_views(es@);
    let mut sum: usize = 0;
    let mut i = from;
    while i < to
        invariant
            from <= i <= to <= es@.len(),
            ev == excerpt_views(es@),
            excerpts_score(ev) <= usize::MAX,
            sum == excerpts_score(ev.subrange(from as int, i as int)),
        decreases to - i,
    {
        proof {
            assert(ev.subrange(from as int, i as int + 1).drop_last() =~= ev.subrange(
                from as int,
                i as int,
            ));
            assert(ev[i as int] == es@[i as int]@);
            lemma_excerpts_score_split(ev, from as int);
            lemma_excerpts_score_prefix(ev.skip(from as int), i + 1 - from);
            assert(ev.skip(from as int).take(i + 1 - from) =~= ev.subrange(from as int, i as int + 1));
        }
        sum = sum + es[i].score;
        i = i + 1;
    }
    sum
}

/// The result for one document and the matches found in it.
#[verifier::loop_isolation(false)]
fn result_for_entry(entry: &Entry, ies: &Vec<IntermediateExcerpt>) -> (r: Option<OutputResult>)
    ensures
        match r {
            Some(o) => output_result(*entry, ie_views(ies@)) == Some(o@),
            None => output_result(*entry, ie_views(ies@)) is None,
        },
{
    let split = split_whitespace(entry.contents.as_str());
    let sorted = sort_by_word_index(ies);
    let deduped = dedup_by_place(&sorted);
    let groups = group_close(&deduped, EXCERPT_BUFFER);
    let es = match excerpts_for_groups(&split, &groups) {
        Some(es) => es,
        None => {
            return None;
        },
    };
    let kept = match rank_excerpts(&es, EXCERPTS_PER_RESULT) {
        Some(k) => k,
        None => {
            return None;
        },
    };
    let ghost kv = excerpt_views(kept@);
    let n = kept.len();
    let mut total: usize = 0;
    let mut i: usize = 0;
    while i < n
        invariant
            i <= n,
            n == kept@.len(),
            kv == excerpt_views(kept@),
            total == excerpts_score(kv.take(i as int)),
        decreases n - i,
    {
        proof {
            assert(kv.take(i as int + 1).drop_last() =~= kv.take(i as int));
            assert(kv[i as int] == kept@[i as int]@);
        }
        match total.checked_add(kept[i].score) {
            Some(t) => {
                total = t;
            },
            None => {
                proof {
                    lemma_excerpts_score_prefix(kv, i as int + 1);
                }
                return None;
            },
        }
        i = i + 1;
    }
    assert(kv.take(n as int) =~= kv);
    let score = if n > 3 {
        let first = sum_scores(&kept, 0, 3);
        let rest = sum_scores(&kept, 3, n);
        proof {
            assert(kv.subrange(0, 3) =~= kv.take(3));
            assert(kv.subrange(3, n as int) =~= kv.skip(3));
            lemma_excerpts_score_split(kv, 3);
        }
        first + rest / (n - 3)
    } else {
        total
    };
    let r = OutputResult {
        entry: OutputEntry {
            url: copy_string(&entry.url),
            title: copy_string(&entry.title),
            fields: entry.fields.copy(),
        },
        excerpts: kept,
        title_highlight_ranges: Vec::new(),
        score,
    };
    proof {
        assert(r@.excerpts =~= kv);
        assert(r@.title_highlight_ranges =~= Seq::<crate::searcher::HighlightRange>::empty());
    }
    Some(r)
}

/// Once the results of a prefix of the groups fail, those of all fail.
pub proof fn lemma_results_none(entries: Seq<Entry>, gs: Seq<(usize, Seq<IEView>)>, k: int)
    requires
        0 <= k <= gs.len(),
        results_for(entries, gs.take(k)) is None,
    ensures
        results_for(entries, gs) is None,
    decreases gs.len(),
{
    if k < gs.len() {
        assert(gs.drop_last().take(k) =~= gs.take(k));
        lemma_results_none(entries, gs.drop_last(), k);
    } else {
        assert(gs.take(k) =~= gs);
    }
}

/// The results for the first groups, at most `RESULTS_SHOWN` of them.
#[verifier::loop_isolation(false)]
fn results_for_groups(entries: &Vec<Entry>, gs: &Vec<(usize, Vec<IntermediateExcerpt>)>) -> (r:
    Option<Vec<OutputResult>>)
    ensures
        ({
            let gv = entry_group_views(gs@);
            let shown = gv.take(
                if gv.len() < RESULTS_SHOWN {
                    gv.len() as int
                } else {
                    RESULTS_SHOWN as int
                },
            );
            match r {
                Some(v) => results_for(entries@, shown) == Some(result_views(v@)),
                None => results_for(entries@, shown) is None,
            }
        }),
{
    let ghost gv = entry_group_views(gs@);
    let n = if gs.len() < RESULTS_SHOWN {
        gs.len()
    } else {
        RESULTS_SHOWN
    };
    let ghost shown = gv.take(n as int);
    let mut out: Vec<OutputResult> = Vec::new();
    let mut i: usize = 0;
    while i < n
        invariant
            i <= n <= gs@.len(),
            gv == entry_group_views(gs@),
            shown == gv.take(n as int),
            results_for(entries@, shown.take(i as int)) == Some(result_views(out@)),
        decreases n - i,
    {
        proof {
            assert(shown.take(i as int + 1).drop_last() =~= shown.take(i as int));
            assert(shown.take(i as int + 1).last() == gv[i as int]);
        }
        let k = gs[i].0;
        if k >= entries.len() {
            proof {
                lemma_results_none(entries@, shown, i as int + 1);
            }
            return None;
        }
        match result_for_entry(&entries[k], &gs[i].1) {
            Some(o) => {
                let ghost prev = out@;
                out.push(o);
                proof {
                    assert(result_views(out@) =~= result_views(prev).push(o@));
                }
            },
            None => {
                proof {
                    lemma_results_none(entries@, shown, i as int + 1);
                }
                return None;
            },
        }
        i = i + 1;
    }
    assert(shown.take(n as int) =~= shown);
    Some(out)
}

/// The results of `v` in the order of `perm`.
fn permute_results(v: &Vec<OutputResult>, perm: &Vec<usize>) -> (r: Vec<OutputResult>)
    requires
        forall|i: int| 0 <= i < perm@.len() ==> #[trigger] perm@[i] < v@.len(),
    ensures
        result_views(r@) == permute(result_views(v@), int_positions(perm@)),
{
    let mut r: Vec<OutputResult> = Vec::new();
    let mut i: usize = 0;
    while i < perm.len()
        invariant
            i <= perm@.len(),
            forall|j: int| 0 <= j < perm@.len() ==> #[trigger] perm@[j] < v@.len(),
            result_views(r@) == permute(result_views(v@), int_positions(perm@.take(i as int))),
        decreases perm@.len() - i,
    {
        let c = v[perm[i]].copy();
        let ghost prev = r@;
        r.push(c);
        proof {
            assert(result_views(r@) =~= result_views(prev).push(c@));
            assert(permute(result_views(v@), int_positions(perm@.take(i as int + 1))) =~= permute(
                result_views(v@),
                int_positions(perm@.take(i as int)),
            ).push(c@));
        }
        i = i + 1;
    }
    assert(perm@.take(perm@.len() as int) =~= perm@);
    r
}

/// Searches an index of the second format for a query, or gives `None` where
/// the index names a document it lacks or a number does not fit its type.
#[verifier::loop_isolation(false)]
pub fn try_search(index: &Index, query: &str) -> (r: Option<SearchOutput>)
    ensures
        match r {
            Some(o) => search_output(*index, query@) == Some(o@),
            None => search_output(*index, query@) is None,
        },
{
    let lower = to_lowercase(query);
    let words = split_pieces(lower.as_str(), ' ');
    let ies = collect_ies(index, &words);
    let gs = group_matches(&ies);
    let rs = match results_for_groups(&index.entries, &gs) {
        Some(rs) => rs,
        None => {
            return None;
        },
    };
    let ghost rv = result_views(rs@);
    let mut keys: Vec<i128> = Vec::new();
    let mut k: usize = 0;
    while k < rs.len()
        invariant
            k <= rs@.len(),
            rv == result_views(rs@),
            int_keys(keys@) == score_keys_desc(rv.take(k as int)),
            negatable_i64(rv.take(k as int)),
        decreases rs@.len() - k,
    {
        let s = score_as_i64(rs[k].score);
        proof {
            assert(rv[k as int] == rs@[k as int]@);
        }
        if s == -0x8000_0000_0000_0000 {
            proof {
                assert(!negatable_i64(rv));
            }
            return None;
        }
        let ghost prev = keys@;
        keys.push(-s);
        proof {
            assert(int_keys(keys@) =~= int_keys(prev).push(-as_i64(rv[k as int].score)));
            assert(score_keys_desc(rv.take(k as int + 1)) =~= score_keys_desc(rv.take(k as int)).push(
                -as_i64(rv[k as int].score),
            ));
            assert forall|j: int| 0 <= j < k + 1 implies as_i64(
                (#[trigger] rv.take(k as int + 1)[j]).score,
            ) != i64::MIN by {
                if j < k {
                    assert(rv.take(k as int + 1)[j] == rv.take(k as int)[j]);
                }
            }
        }
        k = k + 1;
    }
    assert(rv.take(rv.len() as int) =~= rv);
    let perm = stable_order_of(&keys);
    proof {
        lemma_stable_order_len(int_keys(keys@));
        assert forall|j: int| 0 <= j < perm@.len() implies #[trigger] perm@[j] < rs@.len() by {
            assert(int_positions(perm@)[j] == perm@[j] as int);
        }
    }
    let ranked = permute_results(&rs, &perm);
    let count = ranked.len();
    let out = SearchOutput { results: ranked, total_hit_count: count, url_prefix: String::new() };
    proof {
        assert(out@.results =~= result_views(ranked@));
        assert(out@.url_prefix =~= Seq::<char>::empty());
    }
    Some(out)
}

/// Searches an index of the second format for a query.
pub fn search(index: &Index, query: &str) -> (r: SearchOutput)
    requires
        search_output(*index, query@) is Some,
    ensures
        search_output(*index, query@) == Some(r@),
{
    match try_search(index, query) {
        Some(o) => o,
        None => {
            proof {
                assert(false);
            }
            SearchOutput { results: Vec::new(), total_hit_count: 0, url_prefix: String::new() }
        },
    }
}

/// Each group of matches becomes one result.
pub proof fn lemma_v2_results_for_len(entries: Seq<Entry>, gs: Seq<(usize, Seq<IEView>)>)
    ensures
        results_for(entries, gs) matches Some(rs) ==> rs.len() == gs.len(),
    decreases gs.len(),
{
    if gs.len() > 0 {
        lemma_v2_results_for_len(entries, gs.drop_last());
    }
}

/// A search of an index of the second format gives its results best first,
/// each scoring, read as an `i64`, at least as much as every later one, and
/// gives at most ten of them.
pub proof fn lemma_v2_results_ranked(index: Index, query: Seq<char>)
    requires
        search_output(index, query) is Some,
    ensures
        ({
            let o = search_output(index, query).unwrap();
            &&& forall|i: int, j: int|
                0 <= i < j < o.results.len() ==> as_i64(o.results[i].score) >= as_i64(
                    o.results[j].score,
                )
            &&& o.results.len() <= RESULTS_SHOWN
            &&& o.total_hit_count == o.results.len()
        }),
{
    let words = pieces(lowercase(query), |c: char| c == ' ');
    let ies = query_ies(index.queries@, words).map_values(|ie: IEView| stopword_scored(ie));
    let gs = group_by_entry(ies);
    let shown = gs.take(
        if gs.len() < RESULTS_SHOWN {
            gs.len() as int
        } else {
            RESULTS_SHOWN as int
        },
    );
    let rs = results_for(index.entries@, shown).unwrap();
    lemma_v2_results_for_len(index.entries@, shown);
    let keys = score_keys_desc(rs);
    lemma_sort_by_keys_sorted(rs, keys);
    let o = search_output(index, query).unwrap();
    assert forall|i: int, j: int| 0 <= i < j < o.results.len() implies as_i64(o.results[i].score)
        >= as_i64(o.results[j].score) by {
        let p = stable_order(keys);
        assert(o.results[i] == rs[p[i]]);
        assert(o.results[j] == rs[p[j]]);
        assert(keys[p[i]] <= keys[p[j]]);
        assert(keys[p[i]] == -as_i64(rs[p[i]].score));
        assert(keys[p[j]] == -as_i64(rs[p[j]].score));
    }
}

} // verus!
