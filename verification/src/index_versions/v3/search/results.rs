//! From the matches of a query to the ranked list of results: matches are
//! grouped by document, each document becomes a result, and the results are
//! ordered by title and then by score, best first.

use super::intermediate_excerpt::{views as ie_views, IEView, IntermediateExcerpt};
use super::output_result::{excerpt_views, output_result};
use super::super::structs::{Entry, PassthroughConfig};
use crate::searcher::{Excerpt, OutputEntry, OutputResult, OutputResultView};
use crate::common::copy_string;
use crate::sort::{
    int_keys, int_positions, lemma_sort_by_keys_sorted, lemma_stable_order_len, lemma_stable_order_sorted, permute,
    sort_by_keys, stable_order, stable_order_of,
};
use crate::text::{lemma_lex_lt_irreflexive, lemma_lex_lt_transitive, lex_less, lex_lt};
use vstd::prelude::*;

verus! {

/// The position in `gs` of the group of document `k`.
pub open spec fn group_position(gs: Seq<(usize, Seq<IEView>)>, k: usize) -> Option<int>
    decreases gs.len(),
{
    if gs.len() == 0 {
        None
    } else {
        match group_position(gs.drop_last(), k) {
            Some(i) => Some(i),
            None => if gs.last().0 == k {
                Some(gs.len() - 1)
            } else {
                None
            },
        }
    }
}

/// The matches grouped by document, the groups in the order in which their
/// documents first match, the matches of a group in their own order.
pub open spec fn group_by_entry(ies: Seq<IEView>) -> Seq<(usize, Seq<IEView>)>
    decreases ies.len(),
{
    if ies.len() == 0 {
        seq![]
    } else {
        let gs = group_by_entry(ies.drop_last());
        let ie = ies.last();
        match group_position(gs, ie.entry_index) {
            Some(p) => gs.update(p, (gs[p].0, gs[p].1.push(ie))),
            None => gs.push((ie.entry_index, seq![ie])),
        }
    }
}

/// The results for the groups, in the order of the groups; `None` where a
/// group names a document the index lacks, or a result cannot be made.
pub open spec fn results_for(
    entries: Seq<Entry>,
    cfg: PassthroughConfig,
    gs: Seq<(usize, Seq<IEView>)>,
) -> Option<Seq<OutputResultView>>
    decreases gs.len(),
{
    if gs.len() == 0 {
        Some(seq![])
    } else {
        match results_for(entries, cfg, gs.drop_last()) {
            None => None,
            Some(rs) => {
                let (k, g) = gs.last();
                if k >= entries.len() {
                    None
                } else {
                    match output_result(entries[k as int], cfg, g) {
                        None => None,
                        Some(r) => Some(rs.push(r)),
                    }
                }
            },
        }
    }
}

/// How many of the first `n` results have a title that sorts before `t`.
pub open spec fn titles_before(rs: Seq<OutputResultView>, t: Seq<char>, n: int) -> nat
    decreases n,
{
    if n <= 0 {
        0
    } else {
        titles_before(rs, t, n - 1) + if lex_lt(rs[n - 1].entry.title, t) {
            1nat
        } else {
            0nat
        }
    }
}

/// Sort keys that order results by title: the number of titles before each.
pub open spec fn title_keys(rs: Seq<OutputResultView>) -> Seq<int> {
    Seq::new(rs.len(), |i: int| titles_before(rs, rs[i].entry.title, rs.len() as int) as int)
}

/// `n` read as an `i64`, as `n as i64` gives it.
pub open spec fn as_i64(n: nat) -> int {
    let m = (n % 0x1_0000_0000_0000_0000) as int;
    if m < 0x8000_0000_0000_0000 {
        m
    } else {
        m - 0x1_0000_0000_0000_0000
    }
}

/// Sort keys that order results by score, best first: `-(score as i64)`.
pub open spec fn score_keys_desc(rs: Seq<OutputResultView>) -> Seq<int> {
    rs.map_values(|r: OutputResultView| -as_i64(r.score))
}

/// Whether every score, read as an `i64`, can be negated.
pub open spec fn negatable_i64(rs: Seq<OutputResultView>) -> bool {
    forall|i: int| 0 <= i < rs.len() ==> as_i64((#[trigger] rs[i]).score) != i64::MIN
}

/// The results ordered by title and then, stably, by score, best first, and
/// cut to at most `n`; `None` where a score cannot be negated.
pub open spec fn ranked_results(rs: Seq<OutputResultView>, n: int) -> Option<Seq<OutputResultView>> {
    let by_title = sort_by_keys(rs, title_keys(rs));
    if !negatable_i64(by_title) {
        None
    } else {
        let by_score = sort_by_keys(by_title, score_keys_desc(by_title));
        Some(
            by_score.take(
                if n < by_score.len() {
                    n
                } else {
                    by_score.len() as int
                },
            ),
        )
    }
}

/// The views of groups of matches by document.
pub open spec fn entry_group_views(gs: Seq<(usize, Vec<IntermediateExcerpt>)>) -> Seq<
    (usize, Seq<IEView>),
> {
    gs.map_values(|g: (usize, Vec<IntermediateExcerpt>)| (g.0, ie_views(g.1@)))
}

/// The views of a list of results.
pub open spec fn result_views(rs: Seq<OutputResult>) -> Seq<OutputResultView> {
    rs.map_values(|r: OutputResult| r@)
}

/// The position of the group of document `k`.
fn find_group(gs: &Vec<(usize, Vec<IntermediateExcerpt>)>, k: usize) -> (r: Option<usize>)
    ensures
        match r {
            Some(p) => group_position(entry_group_views(gs@), k) == Some(p as int),
            None => group_position(entry_group_views(gs@), k) is None,
        },
{
    let ghost gv = entry_group_views(gs@);
    let mut i: usize = 0;
    while i < gs.len()
        invariant
            i <= gs@.len(),
            gv == entry_group_views(gs@),
            group_position(gv.take(i as int), k) is None,
        decreases gs@.len() - i,
    {
        proof {
            assert(gv.take(i as int + 1).drop_last() =~= gv.take(i as int));
            assert(gv.take(i as int + 1).last() == gv[i as int]);
        }
        if gs[i].0 == k {
            proof {
                lemma_group_position_prefix(gv, k, i as int + 1);
            }
            return Some(i);
        }
        i = i + 1;
    }
    assert(gv.take(gv.len() as int) =~= gv);
    None
}

/// A group found within a prefix is found at the same place in the whole.
pub proof fn lemma_group_position_prefix(gs: Seq<(usize, Seq<IEView>)>, k: usize, n: int)
    requires
        0 <= n <= gs.len(),
        group_position(gs.take(n), k) is Some,
    ensures
        group_position(gs, k) == group_position(gs.take(n), k),
    decreases gs.len(),
{
    if n < gs.len() {
        assert(gs.drop_last().take(n) =~= gs.take(n));
        lemma_group_position_prefix(gs.drop_last(), k, n);
    } else {
        assert(gs.take(n) =~= gs);
    }
}

/// A group's position lies within the groups, and the group is for `k`.
pub proof fn lemma_group_position_bound(gs: Seq<(usize, Seq<IEView>)>, k: usize)
    ensures
        match group_position(gs, k) {
            Some(p) => 0 <= p < gs.len() && gs[p].0 == k,
            None => true,
        },
    decreases gs.len(),
{
    if gs.len() > 0 {
        lemma_group_position_bound(gs.drop_last(), k);
    }
}

/// Groups the matches by document, in the order of first appearance.
pub fn group_matches(ies: &Vec<IntermediateExcerpt>) -> (r: Vec<(usize, Vec<IntermediateExcerpt>)>)
    ensures
        entry_group_views(r@) == group_by_entry(ie_views(ies@)),
{
    let ghost iv = ie_views(ies@);
    let mut gs: Vec<(usize, Vec<IntermediateExcerpt>)> = Vec::new();
    let mut i: usize = 0;
    while i < ies.len()
        invariant
            i <= ies@.len(),
            iv == ie_views(ies@),
            entry_group_views(gs@) == group_by_entry(iv.take(i as int)),
        decreases ies@.len() - i,
    {
        proof {
            assert(iv.take(i as int + 1).drop_last() =~= iv.take(i as int));
            assert(iv.take(i as int + 1).last() == iv[i as int]);
            assert(iv[i as int] == ies@[i as int]@);
        }
        let c = ies[i].copy();
        let ghost old_gs = gs@;
        match find_group(&gs, c.entry_index) {
            Some(p) => {
                proof {
                    lemma_group_position_bound(entry_group_views(old_gs), c.entry_index);
                }
                let (k, mut v) = gs.remove(p);
                let ghost old_v = v@;
                v.push(c);
                gs.insert(p, (k, v));
                proof {
                    super::intermediate_excerpt::lemma_views_push(old_v, c);
                    assert(entry_group_views(old_gs)[p as int] == (k, ie_views(old_v)));
                    assert(entry_group_views(gs@) =~= entry_group_views(old_gs).update(
                        p as int,
                        (k, ie_views(old_v).push(c@)),
                    ));
                }
            },
            None => {
                let mut v: Vec<IntermediateExcerpt> = Vec::new();
                let k = c.entry_index;
                v.push(c);
                gs.push((k, v));
                proof {
                    assert(ie_views(v@) =~= seq![c@]);
                    assert(entry_group_views(gs@) =~= entry_group_views(old_gs).push((k, seq![c@])));
                }
            },
        }
        i = i + 1;
    }
    assert(iv.take(iv.len() as int) =~= iv);
    gs
}

/// Once the results of a prefix of the groups fail, those of all fail.
pub proof fn lemma_results_none(
    entries: Seq<Entry>,
    cfg: PassthroughConfig,
    gs: Seq<(usize, Seq<IEView>)>,
    k: int,
)
    requires
        0 <= k <= gs.len(),
        results_for(entries, cfg, gs.take(k)) is None,
    ensures
        results_for(entries, cfg, gs) is None,
    decreases gs.len(),
{
    if k < gs.len() {
        assert(gs.drop_last().take(k) =~= gs.take(k));
        lemma_results_none(entries, cfg, gs.drop_last(), k);
    } else {
        assert(gs.take(k) =~= gs);
    }
}

/// The result for each group, in the order of the groups.
pub fn results_for_groups(
    entries: &Vec<Entry>,
    cfg: &PassthroughConfig,
    gs: &Vec<(usize, Vec<IntermediateExcerpt>)>,
) -> (r: Option<Vec<OutputResult>>)
    ensures
        match r {
            Some(v) => results_for(entries@, *cfg, entry_group_views(gs@)) == Some(result_views(v@)),
            None => results_for(entries@, *cfg, entry_group_views(gs@)) is None,
        },
{
    let ghost gv = entry_group_views(gs@);
    let mut out: Vec<OutputResult> = Vec::new();
    let mut i: usize = 0;
    while i < gs.len()
        invariant
            i <= gs@.len(),
            gv == entry_group_views(gs@),
            results_for(entries@, *cfg, gv.take(i as int)) == Some(result_views(out@)),
        decreases gs@.len() - i,
    {
        proof {
            assert(gv.take(i as int + 1).drop_last() =~= gv.take(i as int));
            assert(gv.take(i as int + 1).last() == gv[i as int]);
        }
        let k = gs[i].0;
        if k >= entries.len() {
            proof {
                lemma_results_none(entries@, *cfg, gv, i as int + 1);
            }
            return None;
        }
        match OutputResult::from_matches(&entries[k], cfg, &gs[i].1) {
            Some(o) => {
                let ghost prev = out@;
                out.push(o);
                proof {
                    assert(result_views(out@) =~= result_views(prev).push(o@));
                }
            },
            None => {
                proof {
                    lemma_results_none(entries@, *cfg, gv, i as int + 1);
                }
                return None;
            },
        }
        i = i + 1;
    }
    assert(gv.take(gv.len() as int) =~= gv);
    Some(out)
}

impl OutputResult {
    /// A copy of this result.
    pub fn copy(&self) -> (r: OutputResult)
        ensures
            r@ == self@,
    {
        let mut excerpts: Vec<Excerpt> = Vec::new();
        let mut i: usize = 0;
        while i < self.excerpts.len()
            invariant
                i <= self.excerpts@.len(),
                excerpt_views(excerpts@) == excerpt_views(self.excerpts@.take(i as int)),
            decreases self.excerpts@.len() - i,
        {
            let e = self.excerpts[i].copy();
            let ghost prev = excerpts@;
            excerpts.push(e);
            proof {
                assert(excerpt_views(excerpts@) =~= excerpt_views(prev).push(e@));
                assert(excerpt_views(self.excerpts@.take(i as int + 1)) =~= excerpt_views(
                    self.excerpts@.take(i as int),
                ).push(self.excerpts@[i as int]@));
            }
            i = i + 1;
        }
        assert(self.excerpts@.take(self.excerpts@.len() as int) =~= self.excerpts@);
        let r = OutputResult {
            entry: OutputEntry {
                url: copy_string(&self.entry.url),
                title: copy_string(&self.entry.title),
                fields: self.entry.fields.copy(),
            },
            excerpts,
            title_highlight_ranges: self.title_highlight_ranges.clone(),
            score: self.score,
        };
        assert(r@.excerpts =~= self@.excerpts);
        r
    }
}

/// The results of `v` in the order of `perm`, at most `n` of them.
fn permute_results(v: &Vec<OutputResult>, perm: &Vec<usize>, n: usize) -> (r: Vec<OutputResult>)
    requires
        forall|i: int| 0 <= i < perm@.len() ==> #[trigger] perm@[i] < v@.len(),
    ensures
        result_views(r@) == permute(result_views(v@), int_positions(perm@)).take(
            if n < perm@.len() {
                n as int
            } else {
                perm@.len() as int
            },
        ),
{
    let mut r: Vec<OutputResult> = Vec::new();
    let mut i: usize = 0;
    while i < perm.len() && i < n
        invariant
            i <= perm@.len(),
            i <= n,
            forall|j: int| 0 <= j < perm@.len() ==> #[trigger] perm@[j] < v@.len(),
            result_views(r@) == permute(result_views(v@), int_positions(perm@.take(i as int))),
        decreases perm@.len() - i,
    {
        let c = v[perm[i]].copy();
        let ghost prev = r@;
        r.push(c);
        proof {
            assert(result_views(r@) =~= result_views(prev).push(c@));
            assert(permute(result_views(v@), int_positions(perm@.take(i as int + 1))) =~= permute(
                result_views(v@),
                int_positions(perm@.take(i as int)),
            ).push(c@));
        }
        i = i + 1;
    }
    assert(permute(result_views(v@), int_positions(perm@.take(i as int))) =~= permute(
        result_views(v@),
        int_positions(perm@),
    ).take(i as int));
    r
}

/// A score read as an `i64`, the way `score as i64` reads it.
pub fn score_as_i64(score: usize) -> (r: i128)
    ensures
        r == as_i64(score as nat),
{
    let m = (score as u128) % 0x1_0000_0000_0000_0000;
    if m < 0x8000_0000_0000_0000 {
        m as i128
    } else {
        m as i128 - 0x1_0000_0000_0000_0000
    }
}

/// The results ordered by title, then stably by score with the best first,
/// cut to at most `n`; `None` where a score read as an `i64` cannot be
/// negated.
pub fn rank_results(rs: &Vec<OutputResult>, n: u8) -> (r: Option<Vec<OutputResult>>)
    ensures
        match r {
            Some(v) => ranked_results(result_views(rs@), n as int) == Some(result_views(v@)),
            None => ranked_results(result_views(rs@), n as int) is None,
        },
{
    let ghost rv = result_views(rs@);
    let len = rs.len();
    let mut tkeys: Vec<i128> = Vec::new();
    let mut i: usize = 0;
    while i < len
        invariant
            i <= len,
            len == rs@.len(),
            rv == result_views(rs@),
            int_keys(tkeys@) == title_keys(rv).take(i as int),
        decreases len - i,
    {
        let mut count: usize = 0;
        let mut j: usize = 0;
        while j < len
            invariant
                j <= len,
                i < len,
                len == rs@.len(),
                rv == result_views(rs@),
                count == titles_before(rv, rv[i as int].entry.title, j as int),
                count <= j,
            decreases len - j,
        {
            proof {
                assert(rv[j as int] == rs@[j as int]@);
                assert(rv[i as int] == rs@[i as int]@);
            }
            if lex_less(&rs[j].entry.title, &rs[i].entry.title) {
                count = count + 1;
            }
            j = j + 1;
        }
        let ghost prev = tkeys@;
        tkeys.push(count as i128);
        proof {
            assert(int_keys(tkeys@) =~= int_keys(prev).push(count as int));
            assert(title_keys(rv).take(i as int + 1) =~= title_keys(rv).take(i as int).push(
                count as int,
            ));
        }
        i = i + 1;
    }
    assert(title_keys(rv).take(len as int) =~= title_keys(rv));
    let tperm = stable_order_of(&tkeys);
    proof {
        lemma_stable_order_len(int_keys(tkeys@));
        assert forall|j: int| 0 <= j < tperm@.len() implies #[trigger] tperm@[j] < rs@.len() by {
            assert(int_positions(tperm@)[j] == tperm@[j] as int);
        }
    }
    let by_title = permute_results(rs, &tperm, len);
    let ghost bt = result_views(by_title@);
    assert(bt == sort_by_keys(rv, title_keys(rv)));
    let mut skeys: Vec<i128> = Vec::new();
    let mut k: usize = 0;
    while k < by_title.len()
        invariant
            k <= by_title@.len(),
            bt == result_views(by_title@),
            rv == result_views(rs@),
            bt == sort_by_keys(rv, title_keys(rv)),
            int_keys(skeys@) == score_keys_desc(bt.take(k as int)),
            negatable_i64(bt.take(k as int)),
        decreases by_title@.len() - k,
    {
        let s = score_as_i64(by_title[k].score);
        proof {
            assert(bt[k as int] == by_title@[k as int]@);
        }
        if s == -0x8000_0000_0000_0000 {
            proof {
                assert(!negatable_i64(bt));
            }
            return None;
        }
        let ghost prev = skeys@;
        skeys.push(-s);
        proof {
            assert(int_keys(skeys@) =~= int_keys(prev).push(-as_i64(bt[k as int].score)));
            assert(score_keys_desc(bt.take(k as int + 1)) =~= score_keys_desc(bt.take(k as int)).push(
                -as_i64(bt[k as int].score),
            ));
            assert forall|j: int| 0 <= j < k + 1 implies as_i64(
                (#[trigger] bt.take(k as int + 1)[j]).score,
            ) != i64::MIN by {
                if j < k {
                    assert(bt.take(k as int + 1)[j] == bt.take(k as int)[j]);
                }
            }
        }
        k = k + 1;
    }
    assert(bt.take(bt.len() as int) =~= bt);
    let sperm = stable_order_of(&skeys);
    proof {
        lemma_stable_order_len(int_keys(skeys@));
        assert forall|j: int| 0 <= j < sperm@.len() implies #[trigger] sperm@[j] < by_title@.len() by {
            assert(int_positions(sperm@)[j] == sperm@[j] as int);
        }
    }
    Some(permute_results(&by_title, &sperm, n as usize))
}

/// A title that sorts before another has no more titles before it.
proof fn lemma_titles_before_mono(rs: Seq<OutputResultView>, a: Seq<char>, b: Seq<char>, n: int)
    requires
        lex_lt(b, a),
        n <= rs.len(),
    ensures
        titles_before(rs, b, n) <= titles_before(rs, a, n),
    decreases n,
{
    if n > 0 {
        lemma_titles_before_mono(rs, a, b, n - 1);
        if lex_lt(rs[n - 1].entry.title, b) {
            lemma_lex_lt_transitive(rs[n - 1].entry.title, b, a);
        }
    }
}

/// A title among the first `n` that sorts before another has fewer titles
/// before it.
proof fn lemma_titles_before_strict(rs: Seq<OutputResultView>, a: Seq<char>, n: int, j: int)
    requires
        0 <= j < n <= rs.len(),
        lex_lt(rs[j].entry.title, a),
    ensures
        titles_before(rs, rs[j].entry.title, n) < titles_before(rs, a, n),
    decreases n,
{
    let b = rs[j].entry.title;
    if j < n - 1 {
        lemma_titles_before_strict(rs, a, n - 1, j);
        if lex_lt(rs[n - 1].entry.title, b) {
            lemma_lex_lt_transitive(rs[n - 1].entry.title, b, a);
        }
    } else {
        lemma_titles_before_mono(rs, a, b, n - 1);
        lemma_lex_lt_irreflexive(b);
    }
}

/// Ranking keeps as many results as asked for, or all of them where there
/// are fewer; it keeps them best first; and among results with equal
/// scores, their titles come in order: no title sorts before that of a
/// result ranked above it with the same score.
pub proof fn lemma_ranked_results(rs: Seq<OutputResultView>, n: int)
    requires
        0 <= n,
    ensures
        ranked_results(rs, n) matches Some(r) ==> {
            &&& r.len() == if n < rs.len() {
                n
            } else {
                rs.len() as int
            }
            &&& forall|i: int, j: int|
                0 <= i < j < r.len() ==> as_i64(r[i].score) >= as_i64(r[j].score)
            &&& forall|i: int, j: int|
                0 <= i < j < r.len() && r[i].score == r[j].score ==> !lex_lt(
                    r[j].entry.title,
                    r[i].entry.title,
                )
        },
{
    let tk = title_keys(rs);
    let pt = stable_order(tk);
    let by_title = sort_by_keys(rs, tk);
    lemma_sort_by_keys_sorted(rs, tk);
    assert forall|x: int, y: int| 0 <= x < y < by_title.len() implies !lex_lt(
        by_title[y].entry.title,
        by_title[x].entry.title,
    ) by {
        assert(by_title[x] == rs[pt[x]] && by_title[y] == rs[pt[y]]);
        assert(tk[pt[x]] <= tk[pt[y]]);
        if lex_lt(rs[pt[y]].entry.title, rs[pt[x]].entry.title) {
            lemma_titles_before_strict(rs, rs[pt[x]].entry.title, rs.len() as int, pt[y]);
        }
    }
    if negatable_i64(by_title) {
        let sk = score_keys_desc(by_title);
        let ps = stable_order(sk);
        let by_score = sort_by_keys(by_title, sk);
        lemma_sort_by_keys_sorted(by_title, sk);
        lemma_stable_order_sorted(sk);
        let r = ranked_results(rs, n).unwrap();
        assert forall|i: int, j: int| 0 <= i < j < r.len() implies as_i64(r[i].score) >= as_i64(r[j].score)
            && (r[i].score == r[j].score ==> !lex_lt(r[j].entry.title, r[i].entry.title)) by {
            assert(r[i] == by_score[i] && by_score[i] == by_title[ps[i]]);
            assert(r[j] == by_score[j] && by_score[j] == by_title[ps[j]]);
            assert(sk[ps[i]] <= sk[ps[j]]);
            assert(sk[ps[i]] == -as_i64(by_title[ps[i]].score));
            assert(sk[ps[j]] == -as_i64(by_title[ps[j]].score));
            if r[i].score == r[j].score {
                assert(ps[i] < ps[j]);
            }
        }
    }
}

} // verus!
