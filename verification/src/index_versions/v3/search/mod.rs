//! Searching an index of the third format.
//!
//! A query is lowercased and split at spaces. Each word that the index holds
//! gives the places it occurs and, through its aliases, the places of the
//! longer words and stems it stands for. These places are grouped by
//! document; each document becomes a result with excerpts around its
//! matches, and the results are ranked by score.

pub mod intermediate_excerpt;
pub mod output_result;
pub mod results;

use intermediate_excerpt::{IEView, IntermediateExcerpt};
use super::scores::STOPWORD_SCORE;
use super::structs::{Container, Index, SearchResult};
use crate::stopwords::{is_stopword, stopword};
use crate::searcher::{SearchOutput, SearchOutputView};
use crate::common::copy_string;
use crate::text::{lowercase, pieces, split_pieces, to_lowercase};
use results::{as_i64, group_by_entry, group_matches, rank_results, ranked_results, results_for, results_for_groups, score_keys_desc, title_keys};
use crate::sort::{lemma_sort_by_keys_sorted, sort_by_keys, stable_order};
use vstd::prelude::*;

verus! {

/// The position of the first pair in `m` whose key is `k`.
pub open spec fn find_key<V>(m: Seq<(String, V)>, k: Seq<char>) -> Option<int>
    decreases m.len(),
{
    if m.len() == 0 {
        None
    } else {
        match find_key(m.drop_last(), k) {
            Some(i) => Some(i),
            None => if m.last().0@ == k {
                Some(m.len() - 1)
            } else {
                None
            },
        }
    }
}

pub proof fn lemma_find_key<V>(m: Seq<(String, V)>, k: Seq<char>)
    ensures
        match find_key(m, k) {
            Some(i) => 0 <= i < m.len() && m[i].0@ == k && forall|j: int|
                0 <= j < i ==> m[j].0@ != k,
            None => forall|j: int| 0 <= j < m.len() ==> m[j].0@ != k,
        },
    decreases m.len(),
{
    if m.len() > 0 {
        lemma_find_key(m.drop_last(), k);
        assert forall|j: int| 0 <= j < m.len() - 1 implies m.drop_last()[j] == m[j] by {}
    }
}

/// Finds the first pair whose key is `k`.
pub fn find_key_exec<V>(m: &Vec<(String, V)>, k: &String) -> (r: Option<usize>)
    ensures
        match r {
            Some(i) => find_key(m@, k@) == Some(i as int) && i < m@.len(),
            None => find_key(m@, k@) is None,
        },
{
    proof {
        lemma_find_key(m@, k@);
    }
    let mut i: usize = 0;
    while i < m.len()
        invariant
            i <= m@.len(),
            forall|j: int| 0 <= j < i ==> m@[j].0@ != k@,
        decreases m@.len() - i,
    {
        if m[i].0 == *k {
            proof {
                lemma_find_key(m@, k@);
            }
            return Some(i);
        }
        i = i + 1;
    }
    None
}

/// The places of `xs`, all for document `entry_index`, matched by `query`
/// with `score`.
pub open spec fn excerpt_ies(
    query: Seq<char>,
    entry_index: usize,
    score: u8,
    xs: Seq<super::structs::Excerpt>,
) -> Seq<IEView> {
    xs.map_values(
        |x: super::structs::Excerpt|
            IEView {
                query,
                entry_index,
                score,
                source: x.source,
                word_index: x.word_index,
                internal_annotations: x.internal_annotations@,
                fields: x.fields.pairs@,
            },
    )
}

/// The places of a container's results, matched by `query`, each with the
/// score of its result or with `score` where that is given.
pub open spec fn results_ies(
    query: Seq<char>,
    rs: Seq<(usize, SearchResult)>,
    score: Option<u8>,
) -> Seq<IEView>
    decreases rs.len(),
{
    if rs.len() == 0 {
        seq![]
    } else {
        let r = rs.last();
        results_ies(query, rs.drop_last(), score) + excerpt_ies(
            query,
            r.0,
            match score {
                Some(s) => s,
                None => r.1.score,
            },
            r.1.excerpts@,
        )
    }
}

/// The places of the words that the aliases `als` stand for, each matched
/// by its own word with the alias's score.
pub open spec fn alias_ies(cs: Seq<(String, Container)>, als: Seq<(String, u8)>) -> Seq<IEView>
    decreases als.len(),
{
    if als.len() == 0 {
        seq![]
    } else {
        let a = als.last();
        alias_ies(cs, als.drop_last()) + match find_key(cs, a.0@) {
            Some(p) => results_ies(a.0@, cs[p].1.results@, Some(a.1)),
            None => seq![],
        }
    }
}

/// What a container matches under the word `query`: its own results, then
/// those of its aliases.
pub open spec fn container_ies(cs: Seq<(String, Container)>, query: Seq<char>, c: Container) -> Seq<
    IEView,
> {
    results_ies(query, c.results@, None) + alias_ies(cs, c.aliases@)
}

/// What the words of a query match, word by word.
pub open spec fn query_ies(cs: Seq<(String, Container)>, words: Seq<Seq<char>>) -> Seq<IEView>
    decreases words.len(),
{
    if words.len() == 0 {
        seq![]
    } else {
        query_ies(cs, words.drop_last()) + match find_key(cs, words.last()) {
            Some(p) => container_ies(cs, cs[p].0@, cs[p].1),
            None => seq![],
        }
    }
}

/// A match on a stopword scores as a stopword.
pub open spec fn stopword_scored(ie: IEView) -> IEView {
    if is_stopword(ie.query) {
        IEView { score: STOPWORD_SCORE, ..ie }
    } else {
        ie
    }
}

/// Appends the places of a container's results to `out`.
fn push_results_ies(
    out: &mut Vec<IntermediateExcerpt>,
    query: &String,
    rs: &Vec<(usize, SearchResult)>,
    score: Option<u8>,
)
    ensures
        intermediate_excerpt::views(final(out)@) == intermediate_excerpt::views(old(out)@)
            + results_ies(query@, rs@, score),
{
    let mut i: usize = 0;
    while i < rs.len()
        invariant
            i <= rs@.len(),
            intermediate_excerpt::views(out@) == intermediate_excerpt::views(old(out)@)
                + results_ies(query@, rs@.take(i as int), score),
        decreases rs@.len() - i,
    {
        let (entry_index, result) = (rs[i].0, &rs[i].1);
        let s = match score {
            Some(s) => s,
            None => result.score,
        };
        let ghost before = intermediate_excerpt::views(out@);
        let mut j: usize = 0;
        while j < result.excerpts.len()
            invariant
                j <= result.excerpts@.len(),
                intermediate_excerpt::views(out@) == before + excerpt_ies(
                    query@,
                    entry_index,
                    s,
                    result.excerpts@.take(j as int),
                ),
            decreases result.excerpts@.len() - j,
        {
            let x = &result.excerpts[j];
            let ie = IntermediateExcerpt::from_excerpt(query, entry_index, s, x);
            let ghost prev = out@;
            out.push(ie);
            proof {
                intermediate_excerpt::lemma_views_push(prev, ie);
                assert(excerpt_ies(query@, entry_index, s, result.excerpts@.take(j as int + 1))
                    =~= excerpt_ies(query@, entry_index, s, result.excerpts@.take(j as int)).push(
                    ie@,
                ));
            }
            j = j + 1;
        }
        proof {
            assert(result.excerpts@.take(result.excerpts@.len() as int) =~= result.excerpts@);
            assert(rs@.take(i as int + 1).drop_last() =~= rs@.take(i as int));
        }
        i = i + 1;
    }
    assert(rs@.take(rs@.len() as int) =~= rs@);
}

/// The places a container matches under the word `query`.
pub fn get_intermediate_excerpts(index: &Index, query: &String, c: &Container) -> (r: Vec<
    IntermediateExcerpt,
>)
    ensures
        intermediate_excerpt::views(r@) == container_ies(index.containers@, query@, *c),
{
    let mut out: Vec<IntermediateExcerpt> = Vec::new();
    push_results_ies(&mut out, query, &c.results, None);
    let ghost own = intermediate_excerpt::views(out@);
    let mut i: usize = 0;
    while i < c.aliases.len()
        invariant
            i <= c.aliases@.len(),
            own == results_ies(query@, c.results@, None),
            intermediate_excerpt::views(out@) == own + alias_ies(
                index.containers@,
                c.aliases@.take(i as int),
            ),
        decreases c.aliases@.len() - i,
    {
        let target = &c.aliases[i].0;
        let alias_score = c.aliases[i].1;
        let ghost before = intermediate_excerpt::views(out@);
        match find_key_exec(&index.containers, target) {
            Some(p) => {
                push_results_ies(&mut out, target, &index.containers[p].1.results, Some(alias_score));
            },
            None => {},
        }
        proof {
            assert(c.aliases@.take(i as int + 1).drop_last() =~= c.aliases@.take(i as int));
            assert(intermediate_excerpt::views(out@) =~= own + alias_ies(
                index.containers@,
                c.aliases@.take(i as int + 1),
            ));
        }
        i = i + 1;
    }
    assert(c.aliases@.take(c.aliases@.len() as int) =~= c.aliases@);
    out
}

/// The places the words of a query match, with matches on stopwords scored
/// as stopwords.
pub fn collect_ies(index: &Index, words: &Vec<String>) -> (r: Vec<IntermediateExcerpt>)
    ensures
        intermediate_excerpt::views(r@) == query_ies(
            index.containers@,
            crate::text::views(words@),
        ).map_values(|ie: IEView| stopword_scored(ie)),
{
    let mut out: Vec<IntermediateExcerpt> = Vec::new();
    let mut i: usize = 0;
    while i < words.len()
        invariant
            i <= words@.len(),
            intermediate_excerpt::views(out@) == query_ies(
                index.containers@,
                crate::text::views(words@.take(i as int)),
            ),
        decreases words@.len() - i,
    {
        let ghost before = intermediate_excerpt::views(out@);
        match find_key_exec(&index.containers, &words[i]) {
            Some(p) => {
                let mut more = get_intermediate_excerpts(
                    index,
                    &index.containers[p].0,
                    &index.containers[p].1,
                );
                let ghost more_s = more@;
                let ghost out_v = out@;
                out.append(&mut more);
                proof {
                    intermediate_excerpt::lemma_views_concat(out_v, more_s);
                }
            },
            None => {},
        }
        proof {
            let ws = crate::text::views(words@.take(i as int + 1));
            assert(ws.drop_last() =~= crate::text::views(words@.take(i as int)));
            assert(ws.last() == words@[i as int]@);
        }
        i = i + 1;
    }
    assert(words@.take(words@.len() as int) =~= words@);
    let ghost collected = intermediate_excerpt::views(out@);
    let mut k: usize = 0;
    while k < out.len()
        invariant
            k <= out@.len(),
            collected.len() == out@.len(),
            forall|j: int| 0 <= j < k ==> out@[j]@ == stopword_scored(#[trigger] collected[j]),
            forall|j: int| k <= j < out@.len() ==> out@[j]@ == #[trigger] collected[j],
        decreases out@.len() - k,
    {
        if stopword(out[k].query.as_str()) {
            let mut ie = out.remove(k);
            ie.score = STOPWORD_SCORE;
            out.insert(k, ie);
        }
        k = k + 1;
    }
    assert(intermediate_excerpt::views(out@) =~= collected.map_values(
        |ie: IEView| stopword_scored(ie),
    ));
    out
}

/// What a query finds in an index: the query is lowercased and split at
/// spaces, the matches of its words are grouped by document, each document
/// becomes a result, and the results are ranked and cut to the number the
/// index asks to display. `None` where the index names a document it lacks
/// or a number does not fit its type.
pub open spec fn search_output(index: Index, query: Seq<char>) -> Option<SearchOutputView> {
    let words = pieces(lowercase(query), |c: char| c == ' ');
    let ies = query_ies(index.containers@, words).map_values(|ie: IEView| stopword_scored(ie));
    let gs = group_by_entry(ies);
    match results_for(index.entries@, index.config, gs) {
        None => None,
        Some(rs) => match ranked_results(rs, index.config.displayed_results_count as int) {
            None => None,
            Some(ranked) => Some(
                SearchOutputView {
                    results: ranked,
                    total_hit_count: gs.len(),
                    url_prefix: index.config.url_prefix@,
                },
            ),
        },
    }
}

/// Searches an index for a query, or gives `None` where the index names a
/// document it lacks or a number does not fit its type.
pub fn try_search(index: &Index, query: &str) -> (r: Option<SearchOutput>)
    ensures
        match r {
            Some(o) => search_output(*index, query@) == Some(o@),
            None => search_output(*index, query@) is None,
        },
{
    let lower = to_lowercase(query);
    let words = split_pieces(lower.as_str(), ' ');
    let ies = collect_ies(index, &words);
    let gs = group_matches(&ies);
    let rs = match results_for_groups(&index.entries, &index.config, &gs) {
        Some(rs) => rs,
        None => {
            return None;
        },
    };
    let ranked = match rank_results(&rs, index.config.displayed_results_count) {
        Some(v) => v,
        None => {
            return None;
        },
    };
    let out = SearchOutput {
        results: ranked,
        total_hit_count: gs.len(),
        url_prefix: copy_string(&index.config.url_prefix),
    };
    proof {
        assert(out@.results =~= results::result_views(ranked@));
    }
    Some(out)
}

/// Searches an index for a query.
pub fn search(index: &Index, query: &str) -> (r: SearchOutput)
    requires
        search_output(*index, query@) is Some,
    ensures
        search_output(*index, query@) == Some(r@),
{
    match try_search(index, query) {
        Some(o) => o,
        None => {
            proof {
                assert(false);
            }
            SearchOutput { results: Vec::new(), total_hit_count: 0, url_prefix: String::new() }
        },
    }
}

/// There is one result for each group of matches.
pub proof fn lemma_results_for_len(
    entries: Seq<super::structs::Entry>,
    cfg: super::structs::PassthroughConfig,
    gs: Seq<(usize, Seq<IEView>)>,
)
    ensures
        results_for(entries, cfg, gs) matches Some(rs) ==> rs.len() == gs.len(),
    decreases gs.len(),
{
    if gs.len() > 0 {
        lemma_results_for_len(entries, cfg, gs.drop_last());
    }
}

/// A search gives its results best first: each scores, read as an `i64`
/// the way the ranking reads it, at least as much as every later one. It
/// gives at most as many results as the index asks to display, and no more
/// than the number of documents that matched.
pub proof fn lemma_results_ranked(index: Index, query: Seq<char>)
    requires
        search_output(index, query) is Some,
    ensures
        ({
            let o = search_output(index, query).unwrap();
            &&& forall|i: int, j: int|
                0 <= i < j < o.results.len() ==> as_i64(o.results[i].score) >= as_i64(
                    o.results[j].score,
                )
            &&& o.results.len() <= index.config.displayed_results_count
            &&& o.results.len() <= o.total_hit_count
        }),
{
    let words = pieces(lowercase(query), |c: char| c == ' ');
    let ies = query_ies(index.containers@, words).map_values(|ie: IEView| stopword_scored(ie));
    let gs = group_by_entry(ies);
    let rs = results_for(index.entries@, index.config, gs).unwrap();
    lemma_results_for_len(index.entries@, index.config, gs);
    let by_title = sort_by_keys(rs, title_keys(rs));
    crate::sort::lemma_stable_order_len(title_keys(rs));
    let keys = score_keys_desc(by_title);
    lemma_sort_by_keys_sorted(by_title, keys);
    let by_score = sort_by_keys(by_title, keys);
    let n = index.config.displayed_results_count as int;
    let m = if n < by_score.len() {
        n
    } else {
        by_score.len() as int
    };
    let o = search_output(index, query).unwrap();
    assert(o.results == by_score.take(m));
    assert forall|i: int, j: int| 0 <= i < j < o.results.len() implies as_i64(o.results[i].score)
        >= as_i64(o.results[j].score) by {
        let p = stable_order(keys);
        assert(o.results[i] == by_score[i] && by_score[i] == by_title[p[i]]);
        assert(o.results[j] == by_score[j] && by_score[j] == by_title[p[j]]);
        assert(keys[p[i]] <= keys[p[j]]);
        assert(keys[p[i]] == -as_i64(by_title[p[i]].score));
        assert(keys[p[j]] == -as_i64(by_title[p[j]].score));
    }
}

/// A search gives as many results as the index asks to display, or one for
/// each document that matched where fewer did; and among results with
/// equal scores, their titles come in order.
pub proof fn lemma_results_count_and_order(index: Index, query: Seq<char>)
    requires
        search_output(index, query) is Some,
    ensures
        ({
            let o = search_output(index, query).unwrap();
            &&& o.results.len() == if index.config.displayed_results_count < o.total_hit_count {
                index.config.displayed_results_count as int
            } else {
                o.total_hit_count as int
            }
            &&& forall|i: int, j: int|
                0 <= i < j < o.results.len() && o.results[i].score == o.results[j].score ==> !crate::text::lex_lt(
                    o.results[j].entry.title,
                    o.results[i].entry.title,
                )
        }),
{
    let words = pieces(lowercase(query), |c: char| c == ' ');
    let ies = query_ies(index.containers@, words).map_values(|ie: IEView| stopword_scored(ie));
    let gs = group_by_entry(ies);
    let rs = results_for(index.entries@, index.config, gs).unwrap();
    lemma_results_for_len(index.entries@, index.config, gs);
    results::lemma_ranked_results(rs, index.config.displayed_results_count as int);
}

/// Each result of a search keeps at most as many excerpts as the index
/// asks for.
pub proof fn lemma_excerpts_bounded(index: Index, query: Seq<char>)
    requires
        search_output(index, query) is Some,
    ensures
        forall|i: int|
            0 <= i < search_output(index, query).unwrap().results.len() ==> (#[trigger] search_output(
                index,
                query,
            ).unwrap().results[i]).excerpts.len() <= index.config.excerpts_per_result,
{
    let words = pieces(lowercase(query), |c: char| c == ' ');
    let ies = query_ies(index.containers@, words).map_values(|ie: IEView| stopword_scored(ie));
    let gs = group_by_entry(ies);
    let rs = results_for(index.entries@, index.config, gs).unwrap();
    let by_title = sort_by_keys(rs, title_keys(rs));
    crate::sort::lemma_stable_order_len(title_keys(rs));
    let keys = score_keys_desc(by_title);
    lemma_sort_by_keys_sorted(by_title, keys);
    let by_score = sort_by_keys(by_title, keys);
    let o = search_output(index, query).unwrap();
    assert forall|i: int| 0 <= i < o.results.len() implies (#[trigger] o.results[i]).excerpts.len()
        <= index.config.excerpts_per_result by {
        let p = stable_order(keys);
        crate::sort::lemma_stable_order_len(keys);
        assert(o.results[i] == by_score[i] && by_score[i] == by_title[p[i]]);
        let q = stable_order(title_keys(rs))[p[i]];
        assert(by_title[p[i]] == rs[q]);
        lemma_results_for_excerpts(index.entries@, index.config, gs, q);
    }
}

/// Each result made for a group keeps at most as many excerpts as the
/// settings ask for.
pub proof fn lemma_results_for_excerpts(
    entries: Seq<super::structs::Entry>,
    cfg: super::structs::PassthroughConfig,
    gs: Seq<(usize, Seq<IEView>)>,
    q: int,
)
    requires
        results_for(entries, cfg, gs) is Some,
        0 <= q < results_for(entries, cfg, gs).unwrap().len(),
    ensures
        results_for(entries, cfg, gs).unwrap()[q].excerpts.len() <= cfg.excerpts_per_result,
    decreases gs.len(),
{
    lemma_results_for_len(entries, cfg, gs);
    lemma_results_for_len(entries, cfg, gs.drop_last());
    let rs = results_for(entries, cfg, gs).unwrap();
    if q < gs.len() - 1 {
        lemma_results_for_excerpts(entries, cfg, gs.drop_last(), q);
    } else {
        let (k, g) = gs.last();
        let r = output_result::output_result(entries[k as int], cfg, g).unwrap();
        assert(rs[q] == r);
    }
}

} // verus!
