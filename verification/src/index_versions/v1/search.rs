//! Searching an index of the first format.
//!
//! The first word of the query is looked up, its aliases followed to the
//! longer words they stand for; the excerpts found are kept only where they
//! hold every other word of the query; and the results are gathered by
//! document and ordered by document.

use crate::index_versions::v3::builder::fill_containers::{key_pos, lemma_key_pos};
use crate::index_versions::v3::search::find_key_exec;
use crate::index_versions::v1::builder::lemma_key_pos_results;
use crate::models::{
    excerpt_data, link_data, results_data, same_entry, ExcerptData, LinkData, ResultData,
    StorkEntry, StorkExcerpt, StorkIndex, StorkOutput, StorkResult, StorkResultOrAlias,
};
use crate::sort::{int_keys, int_positions, lemma_stable_order_len, permute, sort_by_keys, stable_order, stable_order_of};
use crate::text::{chars_of, lowercase, pieces, split_pieces, to_lowercase, views};
use vstd::prelude::*;

verus! {

/// What word `k` leads to.
pub open spec fn lookup(rs: Seq<(Seq<char>, Seq<LinkData>)>, k: Seq<char>) -> Option<Seq<LinkData>> {
    match key_pos(rs, k) {
        Some(p) => Some(rs[p].1),
        None => None,
    }
}

/// The length of the longest word.
pub open spec fn max_key_len(rs: Seq<(Seq<char>, Seq<LinkData>)>) -> nat
    decreases rs.len(),
{
    if rs.len() == 0 {
        0
    } else {
        let m = max_key_len(rs.drop_last());
        if rs.last().0.len() > m {
            rs.last().0.len()
        } else {
            m
        }
    }
}

/// Whether every alias leads to a longer word than the one it is under, as
/// it does in an index built from documents.
pub open spec fn aliases_lengthen(rs: Seq<(Seq<char>, Seq<LinkData>)>) -> bool {
    forall|p: int, i: int|
        0 <= p < rs.len() && 0 <= i < rs[p].1.len() ==> ((#[trigger] rs[p].1[i]) matches LinkData::Alias(a)
            ==> a.len() > rs[p].0.len())
}

/// Whether every result names a document the index has.
pub open spec fn results_in_range(rs: Seq<(Seq<char>, Seq<LinkData>)>, entries: nat) -> bool {
    forall|p: int, i: int|
        0 <= p < rs.len() && 0 <= i < rs[p].1.len() ==> ((#[trigger] rs[p].1[i]) matches LinkData::Result(r)
            ==> r.file_index < entries)
}

/// The results that `list` leads to, aliases followed to the results of the
/// words they stand for, given that the aliases lead to words longer than
/// `floor`.
pub open spec fn expand(rs: Seq<(Seq<char>, Seq<LinkData>)>, list: Seq<LinkData>, floor: int) -> Seq<ResultData>
    decreases max_key_len(rs) - floor, list.len(),
{
    if list.len() == 0 {
        seq![]
    } else {
        let first = match list[0] {
            LinkData::Result(r) => seq![r],
            LinkData::Alias(a) => if floor < a.len() && a.len() <= max_key_len(rs) {
                match lookup(rs, a) {
                    Some(l) => expand(rs, l, a.len() as int),
                    None => seq![],
                }
            } else {
                seq![]
            },
        };
        first + expand(rs, list.skip(1), floor)
    }
}

/// The results a word leads to in an index of the given version: none
/// unless the version is that of the first format.
pub open spec fn word_results(version: Seq<char>, rs: Seq<(Seq<char>, Seq<LinkData>)>, w: Seq<char>) -> Seq<
    ResultData,
> {
    if version == "stork-1.0.0"@ {
        match lookup(rs, w) {
            Some(l) => expand(rs, l, w.len() as int),
            None => seq![],
        }
    } else {
        seq![]
    }
}

/// Whether `t` occurs in `s`.
pub open spec fn contains_text(s: Seq<char>, t: Seq<char>) -> bool {
    exists|i: int| 0 <= i && i + t.len() <= s.len() && #[trigger] s.subrange(i, i + t.len()) == t
}

/// The excerpts of `xs` whose text holds `w`.
pub open spec fn excerpts_with(xs: Seq<ExcerptData>, w: Seq<char>) -> Seq<ExcerptData>
    decreases xs.len(),
{
    if xs.len() == 0 {
        seq![]
    } else if contains_text(xs.last().value, w) {
        excerpts_with(xs.drop_last(), w).push(xs.last())
    } else {
        excerpts_with(xs.drop_last(), w)
    }
}

/// The results that kept an excerpt.
pub open spec fn with_excerpts(rs: Seq<ResultData>) -> Seq<ResultData>
    decreases rs.len(),
{
    if rs.len() == 0 {
        seq![]
    } else if rs.last().excerpts.len() > 0 {
        with_excerpts(rs.drop_last()).push(rs.last())
    } else {
        with_excerpts(rs.drop_last())
    }
}

/// A result with only the excerpts that hold `w`.
pub open spec fn narrow_one(r: ResultData, w: Seq<char>) -> ResultData {
    ResultData { excerpts: excerpts_with(r.excerpts, w), ..r }
}

/// The results with only the excerpts that hold each of the words `ws`.
pub open spec fn narrow(rs: Seq<ResultData>, ws: Seq<Seq<char>>) -> Seq<ResultData>
    decreases ws.len(),
{
    if ws.len() == 0 {
        rs
    } else {
        let before = narrow(rs, ws.drop_last());
        before.map_values(|r: ResultData| narrow_one(r, ws.last()))
    }
}

/// The position of the output for document `fi`.
pub open spec fn output_position(os: Seq<ResultData>, fi: u32) -> Option<int>
    decreases os.len(),
{
    if os.len() == 0 {
        None
    } else {
        match output_position(os.drop_last(), fi) {
            Some(i) => Some(i),
            None => if os.last().file_index == fi {
                Some(os.len() - 1)
            } else {
                None
            },
        }
    }
}

/// The results gathered by document, in the order their documents first
/// appear: a later result for a document adds its excerpts to the first.
pub open spec fn gather(rs: Seq<ResultData>) -> Seq<ResultData>
    decreases rs.len(),
{
    if rs.len() == 0 {
        seq![]
    } else {
        let os = gather(rs.drop_last());
        let r = rs.last();
        match output_position(os, r.file_index) {
            Some(p) => os.update(p, ResultData { excerpts: os[p].excerpts + r.excerpts, ..os[p] }),
            None => os.push(r),
        }
    }
}

/// The documents of results, as sort keys.
pub open spec fn file_keys(os: Seq<ResultData>) -> Seq<int> {
    os.map_values(|r: ResultData| r.file_index as int)
}

/// What a search of an index of the first format finds: for each document,
/// its results gathered, ordered by document.
pub open spec fn search_results(version: Seq<char>, rs: Seq<(Seq<char>, Seq<LinkData>)>, query: Seq<char>) -> Seq<
    ResultData,
> {
    let words = pieces(lowercase(query), |c: char| c == ' ');
    let found = word_results(version, rs, words[0]);
    let narrowed = with_excerpts(narrow(found, words.skip(1)));
    let gathered = gather(narrowed);
    sort_by_keys(gathered, file_keys(gathered))
}

/// Results taken by their views.
pub open spec fn result_data(rs: Seq<StorkResult>) -> Seq<ResultData> {
    rs.map_values(|r: StorkResult| r@)
}

/// A key within the words is no longer than the longest word.
pub proof fn lemma_key_len(rs: Seq<(Seq<char>, Seq<LinkData>)>, k: Seq<char>)
    ensures
        key_pos(rs, k) is Some ==> k.len() <= max_key_len(rs),
    decreases rs.len(),
{
    if rs.len() > 0 {
        lemma_key_len(rs.drop_last(), k);
    }
}

/// What `list[from..]` leads to, aliases followed.
fn expand_aliases_to_results(
    full: &Vec<(String, Vec<StorkResultOrAlias>)>,
    list: &Vec<StorkResultOrAlias>,
    from: usize,
    floor: usize,
) -> (r: Vec<StorkResult>)
    requires
        from <= list@.len(),
        floor <= max_key_len(results_data(full@)),
    ensures
        result_data(r@) == expand(results_data(full@), link_data(list@).skip(from as int), floor as int),
    decreases max_key_len(results_data(full@)) - floor, list@.len() - from,
{
    let ghost fv = results_data(full@);
    let ghost lv = link_data(list@).skip(from as int);
    if from >= list.len() {
        proof {
            assert(lv =~= Seq::<LinkData>::empty());
        }
        return Vec::new();
    }
    proof {
        assert(lv[0] == list@[from as int]@);
        assert(lv.skip(1) =~= link_data(list@).skip(from as int + 1));
    }
    let mut first: Vec<StorkResult> = match &list[from] {
        StorkResultOrAlias::Result(r) => {
            let mut v: Vec<StorkResult> = Vec::new();
            v.push(r.copy());
            v
        },
        StorkResultOrAlias::Alias(a) => {
            let alen = chars_of(a.as_str()).len();
            proof {
                lemma_key_pos_results(full@, a@);
                lemma_key_pos(fv, a@);
                lemma_key_len(fv, a@);
            }
            if floor < alen {
                match find_key_exec(full, a) {
                    Some(p) => {
                        proof {
                            crate::index_versions::v3::search::lemma_find_key(full@, a@);
                            assert(fv[p as int].1 == link_data(full@[p as int].1@));
                            assert(link_data(full@[p as int].1@).skip(0) =~= link_data(full@[p as int].1@));
                        }
                        expand_aliases_to_results(full, &full[p].1, 0, alen)
                    },
                    None => Vec::new(),
                }
            } else {
                Vec::new()
            }
        },
    };
    let ghost first_v = result_data(first@);
    proof {
        match lv[0] {
            LinkData::Result(r) => {
                assert(first_v =~= seq![r]);
            },
            LinkData::Alias(a) => {},
        }
    }
    let mut rest = expand_aliases_to_results(full, list, from + 1, floor);
    let ghost rest_v = result_data(rest@);
    let ghost first_s = first@;
    let ghost rest_s = rest@;
    first.append(&mut rest);
    proof {
        assert(first@ =~= first_s + rest_s);
        assert(result_data(first@) =~= first_v + rest_v);
    }
    first
}

/// Whether every result of `rs` names a document below `n`.
pub open spec fn all_in_range(rs: Seq<ResultData>, n: nat) -> bool {
    forall|i: int| 0 <= i < rs.len() ==> (#[trigger] rs[i]).file_index < n
}

/// Whether every result in `list` names a document below `n`.
pub open spec fn list_in_range(list: Seq<LinkData>, n: nat) -> bool {
    forall|i: int| 0 <= i < list.len() ==> ((#[trigger] list[i]) matches LinkData::Result(r) ==> r.file_index < n)
}

/// Following aliases in an index whose results name documents below `n`
/// gives results that name documents below `n`.
pub proof fn lemma_expand_in_range(rs: Seq<(Seq<char>, Seq<LinkData>)>, list: Seq<LinkData>, floor: int, n: nat)
    requires
        results_in_range(rs, n),
        list_in_range(list, n),
    ensures
        all_in_range(expand(rs, list, floor), n),
    decreases max_key_len(rs) - floor, list.len(),
{
    if list.len() > 0 {
        assert(list_in_range(list.skip(1), n)) by {
            assert forall|i: int| 0 <= i < list.skip(1).len() implies ((#[trigger] list.skip(1)[i]) matches LinkData::Result(r) ==> r.file_index < n) by {
                assert(list.skip(1)[i] == list[i + 1]);
            }
        }
        lemma_expand_in_range(rs, list.skip(1), floor, n);
        match list[0] {
            LinkData::Result(r) => {},
            LinkData::Alias(a) => {
                if floor < a.len() && a.len() <= max_key_len(rs) {
                    match lookup(rs, a) {
                        Some(l) => {
                            lemma_key_pos(rs, a);
                            let p = key_pos(rs, a).unwrap();
                            assert(list_in_range(l, n)) by {
                                assert forall|i: int| 0 <= i < l.len() implies ((#[trigger] l[i]) matches LinkData::Result(r) ==> r.file_index < n) by {
                                    assert(l[i] == rs[p].1[i]);
                                }
                            }
                            lemma_expand_in_range(rs, l, a.len() as int, n);
                        },
                        None => {},
                    }
                }
            },
        }
        let first = match list[0] {
            LinkData::Result(r) => seq![r],
            LinkData::Alias(a) => if floor < a.len() && a.len() <= max_key_len(rs) {
                match lookup(rs, a) {
                    Some(l) => expand(rs, l, a.len() as int),
                    None => seq![],
                }
            } else {
                seq![]
            },
        };
        assert(expand(rs, list, floor) == first + expand(rs, list.skip(1), floor));
        assert forall|i: int| 0 <= i < expand(rs, list, floor).len() implies (#[trigger] expand(rs, list, floor)[i]).file_index < n by {
            if i < first.len() {
                assert(expand(rs, list, floor)[i] == first[i]);
            } else {
                assert(expand(rs, list, floor)[i] == expand(rs, list.skip(1), floor)[i - first.len()]);
            }
        }
    }
}

/// Keeping only some excerpts keeps the documents results name.
pub proof fn lemma_narrow_in_range(rs: Seq<ResultData>, ws: Seq<Seq<char>>, n: nat)
    requires
        all_in_range(rs, n),
    ensures
        all_in_range(narrow(rs, ws), n),
        narrow(rs, ws).len() == rs.len(),
    decreases ws.len(),
{
    if ws.len() > 0 {
        lemma_narrow_in_range(rs, ws.drop_last(), n);
    }
}

/// Leaving out results keeps the documents the others name.
pub proof fn lemma_with_excerpts_in_range(rs: Seq<ResultData>, n: nat)
    requires
        all_in_range(rs, n),
    ensures
        all_in_range(with_excerpts(rs), n),
    decreases rs.len(),
{
    if rs.len() > 0 {
        assert(all_in_range(rs.drop_last(), n)) by {
            assert forall|i: int| 0 <= i < rs.drop_last().len() implies (#[trigger] rs.drop_last()[i]).file_index < n by {
                assert(rs.drop_last()[i] == rs[i]);
            }
        }
        lemma_with_excerpts_in_range(rs.drop_last(), n);
        assert(rs.last() == rs[rs.len() - 1]);
    }
}

/// Gathering results keeps the documents they name.
pub proof fn lemma_gather_in_range(rs: Seq<ResultData>, n: nat)
    requires
        all_in_range(rs, n),
    ensures
        all_in_range(gather(rs), n),
    decreases rs.len(),
{
    if rs.len() > 0 {
        assert(all_in_range(rs.drop_last(), n)) by {
            assert forall|i: int| 0 <= i < rs.drop_last().len() implies (#[trigger] rs.drop_last()[i]).file_index < n by {
                assert(rs.drop_last()[i] == rs[i]);
            }
        }
        lemma_gather_in_range(rs.drop_last(), n);
        lemma_output_position(gather(rs.drop_last()), rs.last().file_index);
        assert(rs.last() == rs[rs.len() - 1]);
    }
}

/// The results word `query` leads to in an index of the given version.
pub fn perform_word_lookup(version: &String, index: &StorkIndex, query: &String) -> (r: Vec<StorkResult>)
    ensures
        result_data(r@) == word_results(version@, results_data(index.results@), query@),
{
    let ghost fv = results_data(index.results@);
    if !crate::text::string_eq_literal(version, "stork-1.0.0") {
        return Vec::new();
    }
    proof {
        lemma_key_pos_results(index.results@, query@);
        lemma_key_pos(fv, query@);
        lemma_key_len(fv, query@);
    }
    match find_key_exec(&index.results, query) {
        Some(p) => {
            proof {
                crate::index_versions::v3::search::lemma_find_key(index.results@, query@);
                assert(link_data(index.results@[p as int].1@).skip(0) =~= link_data(index.results@[p as int].1@));
            }
            let qlen = chars_of(query.as_str()).len();
            expand_aliases_to_results(&index.results, &index.results[p].1, 0, qlen)
        },
        None => Vec::new(),
    }
}

/// Whether `t` occurs in `s`.
pub fn contains_str(s: &String, t: &String) -> (r: bool)
    ensures
        r == contains_text(s@, t@),
{
    let cs = chars_of(s.as_str());
    let ts = chars_of(t.as_str());
    if ts.len() > cs.len() {
        return false;
    }
    let last = cs.len() - ts.len();
    let mut i: usize = 0;
    while i <= last
        invariant
            last == cs@.len() - ts@.len(),
            cs@ == s@,
            ts@ == t@,
            ts@.len() <= cs@.len(),
            i <= cs@.len() - ts@.len() + 1,
            forall|j: int| 0 <= j < i ==> #[trigger] s@.subrange(j, j + t@.len()) != t@,
        decreases cs@.len() - ts@.len() + 1 - i,
    {
        let mut k: usize = 0;
        let mut same = true;
        while k < ts.len()
            invariant
                k <= ts@.len(),
                i + ts@.len() <= cs@.len(),
                cs@.len() == cs.len(),
                cs@ == s@,
                ts@ == t@,
                same == forall|q: int| 0 <= q < k ==> s@[i + q] == t@[q],
            decreases ts@.len() - k,
        {
            assert(i + k < cs@.len());
            if cs[i + k] != ts[k] {
                same = false;
            }
            k = k + 1;
        }
        if same {
            assert(s@.subrange(i as int, i + t@.len()) =~= t@);
            return true;
        }
        proof {
            let q = choose|q: int| 0 <= q < ts@.len() && s@[i + q] != t@[q];
            assert(s@.subrange(i as int, i + t@.len())[q] != t@[q]);
        }
        i = i + 1;
    }
    proof {
        assert forall|j: int| 0 <= j && j + t@.len() <= s@.len() implies #[trigger] s@.subrange(j, j + t@.len()) != t@ by {
            assert(j < i);
        }
    }
    false
}

/// The excerpts of a result that hold `w`.
fn keep_excerpts_with(r: &StorkResult, w: &String) -> (o: StorkResult)
    ensures
        o@ == narrow_one(r@, w@),
{
    let mut xs: Vec<StorkExcerpt> = Vec::new();
    let mut i: usize = 0;
    while i < r.excerpts.len()
        invariant
            i <= r.excerpts@.len(),
            excerpt_data(xs@) == excerpts_with(excerpt_data(r.excerpts@.take(i as int)), w@),
        decreases r.excerpts@.len() - i,
    {
        proof {
            assert(excerpt_data(r.excerpts@.take(i as int + 1)).drop_last() =~= excerpt_data(r.excerpts@.take(i as int)));
            assert(excerpt_data(r.excerpts@.take(i as int + 1)).last() == r.excerpts@[i as int]@);
        }
        if contains_str(&r.excerpts[i].value, w) {
            let x = r.excerpts[i].copy();
            let ghost prev = xs@;
            xs.push(x);
            assert(excerpt_data(xs@) =~= excerpt_data(prev).push(x@));
        }
        i = i + 1;
    }
    assert(r.excerpts@.take(r.excerpts@.len() as int) =~= r.excerpts@);
    StorkResult { file_index: r.file_index, excerpts: xs, score: r.score }
}

/// The position of the output for document `fi`.
fn find_output(os: &Vec<StorkResult>, fi: u32) -> (r: Option<usize>)
    ensures
        match r {
            Some(p) => output_position(result_data(os@), fi) == Some(p as int),
            None => output_position(result_data(os@), fi) is None,
        },
{
    let ghost ov = result_data(os@);
    let mut i: usize = 0;
    while i < os.len()
        invariant
            i <= os@.len(),
            ov == result_data(os@),
            output_position(ov.take(i as int), fi) is None,
        decreases os@.len() - i,
    {
        proof {
            assert(ov.take(i as int + 1).drop_last() =~= ov.take(i as int));
            assert(ov.take(i as int + 1).last() == os@[i as int]@);
        }
        if os[i].file_index == fi {
            proof {
                lemma_output_position_prefix(ov, fi, i as int + 1);
            }
            return Some(i);
        }
        i = i + 1;
    }
    assert(ov.take(ov.len() as int) =~= ov);
    None
}

/// An output found within a prefix is found at the same place in the whole.
pub proof fn lemma_output_position_prefix(os: Seq<ResultData>, fi: u32, n: int)
    requires
        0 <= n <= os.len(),
        output_position(os.take(n), fi) is Some,
    ensures
        output_position(os, fi) == output_position(os.take(n), fi),
    decreases os.len(),
{
    if n < os.len() {
        assert(os.drop_last().take(n) =~= os.take(n));
        lemma_output_position_prefix(os.drop_last(), fi, n);
    } else {
        assert(os.take(n) =~= os);
    }
}

pub proof fn lemma_output_position(os: Seq<ResultData>, fi: u32)
    ensures
        match output_position(os, fi) {
            Some(p) => 0 <= p < os.len() && os[p].file_index == fi,
            None => forall|j: int| 0 <= j < os.len() ==> os[j].file_index != fi,
        },
    decreases os.len(),
{
    if os.len() > 0 {
        lemma_output_position(os.drop_last(), fi);
        assert forall|j: int| 0 <= j < os.len() - 1 implies os.drop_last()[j] == os[j] by {}
    }
}

/// Gathers results by document, in the order their documents first appear.
fn gather_results(rs: &Vec<StorkResult>) -> (r: Vec<StorkResult>)
    ensures
        result_data(r@) == gather(result_data(rs@)),
{
    let ghost rv = result_data(rs@);
    let mut os: Vec<StorkResult> = Vec::new();
    let mut i: usize = 0;
    while i < rs.len()
        invariant
            i <= rs@.len(),
            rv == result_data(rs@),
            result_data(os@) == gather(rv.take(i as int)),
        decreases rs@.len() - i,
    {
        proof {
            assert(rv.take(i as int + 1).drop_last() =~= rv.take(i as int));
            assert(rv.take(i as int + 1).last() == rs@[i as int]@);
        }
        let ghost before = result_data(os@);
        match find_output(&os, rs[i].file_index) {
            Some(p) => {
                proof {
                    lemma_output_position(before, rs@[i as int].file_index);
                }
                let mut o = os.remove(p);
                let ghost old_o = o@;
                let mut k: usize = 0;
                let ghost start_x = o.excerpts@;
                while k < rs[i].excerpts.len()
                    invariant
                        k <= rs@[i as int].excerpts@.len(),
                        i < rs@.len(),
                        o.file_index == old_o.file_index,
                        o.score == old_o.score,
                        excerpt_data(o.excerpts@) == old_o.excerpts + excerpt_data(rs@[i as int].excerpts@.take(k as int)),
                    decreases rs@[i as int].excerpts@.len() - k,
                {
                    let x = rs[i].excerpts[k].copy();
                    let ghost prev = o.excerpts@;
                    o.excerpts.push(x);
                    proof {
                        assert(excerpt_data(o.excerpts@) =~= excerpt_data(prev).push(x@));
                        assert(excerpt_data(rs@[i as int].excerpts@.take(k as int + 1)) =~= excerpt_data(rs@[i as int].excerpts@.take(k as int)).push(rs@[i as int].excerpts@[k as int]@));
                    }
                    k = k + 1;
                }
                proof {
                    assert(rs@[i as int].excerpts@.take(rs@[i as int].excerpts@.len() as int) =~= rs@[i as int].excerpts@);
                }
                os.insert(p, o);
                proof {
                    assert(result_data(os@) =~= before.update(p as int, ResultData { excerpts: before[p as int].excerpts + rv[i as int].excerpts, ..before[p as int] }));
                }
            },
            None => {
                let c = rs[i].copy();
                os.push(c);
                proof {
                    assert(result_data(os@) =~= before.push(c@));
                }
            },
        }
        i = i + 1;
    }
    assert(rv.take(rv.len() as int) =~= rv);
    os
}

/// Searches an index of the first format, read from a file whose version
/// string is `version`, for a query: the documents holding its first word,
/// or a longer word it is a prefix of, in excerpts that hold every other
/// word, ordered by document.
pub fn perform_search(version: &String, index: &StorkIndex, query: &str) -> (r: Vec<StorkOutput>)
    requires
        results_in_range(results_data(index.results@), index.entries@.len()),
        aliases_lengthen(results_data(index.results@)),
    ensures
        r@.len() == search_results(version@, results_data(index.results@), query@).len(),
        forall|i: int|
            0 <= i < r@.len() ==> {
                let m = search_results(version@, results_data(index.results@), query@)[i];
                &&& (#[trigger] r@[i]).result@ == m
                &&& m.file_index < index.entries@.len()
                &&& same_entry(r@[i].entry, index.entries@[m.file_index as int])
            },
{
    let ghost fv = results_data(index.results@);
    let n = index.entries.len();
    let lower = to_lowercase(query);
    let words = split_pieces(lower.as_str(), ' ');
    let ghost wv = views(words@);
    proof {
        crate::text::lemma_pieces_nonempty(lower@, |c: char| c == ' ');
        assert(wv.len() == words@.len());
    }
    let found = perform_word_lookup(version, index, &words[0]);
    proof {
        assert(wv[0] == words@[0]@);
        if version@ == "stork-1.0.0"@ {
            match lookup(fv, wv[0]) {
                Some(l) => {
                    lemma_key_pos(fv, wv[0]);
                    let p = key_pos(fv, wv[0]).unwrap();
                    assert(list_in_range(l, n as nat)) by {
                        assert forall|i: int| 0 <= i < l.len() implies ((#[trigger] l[i]) matches LinkData::Result(r) ==> r.file_index < n) by {
                            assert(l[i] == fv[p].1[i]);
                        }
                    }
                    lemma_expand_in_range(fv, l, wv[0].len() as int, n as nat);
                },
                None => {},
            }
        }
    }
    let mut cur = found;
    let mut k: usize = 1;
    while k < words.len()
        invariant
            1 <= k <= words@.len(),
            wv == views(words@),
            result_data(cur@) == narrow(result_data(found@), wv.skip(1).take(k - 1)),
        decreases words@.len() - k,
    {
        let mut next: Vec<StorkResult> = Vec::new();
        let mut j: usize = 0;
        while j < cur.len()
            invariant
                j <= cur@.len(),
                k < words@.len(),
                result_data(next@) == result_data(cur@).take(j as int).map_values(
                    |r: ResultData| narrow_one(r, wv[k as int]),
                ),
                wv == views(words@),
            decreases cur@.len() - j,
        {
            let o = keep_excerpts_with(&cur[j], &words[k]);
            let ghost prev = next@;
            next.push(o);
            proof {
                assert(wv[k as int] == words@[k as int]@);
                assert(result_data(cur@).take(j as int + 1) =~= result_data(cur@).take(j as int).push(cur@[j as int]@));
                assert(o@ == narrow_one(cur@[j as int]@, wv[k as int]));
                assert(result_data(next@) =~= result_data(prev).push(o@));
                assert(result_data(next@) =~= result_data(cur@).take(j as int + 1).map_values(
                    |r: ResultData| narrow_one(r, wv[k as int]),
                ));
            }
            j = j + 1;
        }
        proof {
            assert(result_data(cur@).take(cur@.len() as int) =~= result_data(cur@));
            assert(wv.skip(1).take(k as int).drop_last() =~= wv.skip(1).take(k - 1));
            assert(wv.skip(1).take(k as int).last() == wv[k as int]);
        }
        cur = next;
        k = k + 1;
    }
    proof {
        assert(wv.skip(1).take(words@.len() - 1) =~= wv.skip(1));
    }
    let mut kept: Vec<StorkResult> = Vec::new();
    let mut j: usize = 0;
    while j < cur.len()
        invariant
            j <= cur@.len(),
            result_data(kept@) == with_excerpts(result_data(cur@).take(j as int)),
        decreases cur@.len() - j,
    {
        proof {
            assert(result_data(cur@).take(j as int + 1).drop_last() =~= result_data(cur@).take(j as int));
            assert(result_data(cur@).take(j as int + 1).last() == cur@[j as int]@);
        }
        if cur[j].excerpts.len() > 0 {
            let c = cur[j].copy();
            let ghost prev = kept@;
            kept.push(c);
            assert(result_data(kept@) =~= result_data(prev).push(c@));
        }
        j = j + 1;
    }
    assert(result_data(cur@).take(cur@.len() as int) =~= result_data(cur@));
    let gathered = gather_results(&kept);
    let ghost gv = result_data(gathered@);
    let mut keys: Vec<i128> = Vec::new();
    let mut q: usize = 0;
    while q < gathered.len()
        invariant
            q <= gathered@.len(),
            gv == result_data(gathered@),
            int_keys(keys@) == file_keys(gv.take(q as int)),
        decreases gathered@.len() - q,
    {
        let ghost prev = keys@;
        keys.push(gathered[q].file_index as i128);
        proof {
            assert(int_keys(keys@) =~= int_keys(prev).push(gathered@[q as int].file_index as int));
            assert(file_keys(gv.take(q as int + 1)) =~= file_keys(gv.take(q as int)).push(gv[q as int].file_index as int));
        }
        q = q + 1;
    }
    assert(gv.take(gv.len() as int) =~= gv);
    let perm = stable_order_of(&keys);
    proof {
        lemma_stable_order_len(int_keys(keys@));
    }
    let ghost model = search_results(version@, fv, query@);
    proof {
        assert(model == permute(gv, int_positions(perm@)));
        let found_v = word_results(version@, fv, wv[0]);
        assert(all_in_range(found_v, n as nat));
        lemma_narrow_in_range(found_v, wv.skip(1), n as nat);
        lemma_with_excerpts_in_range(narrow(found_v, wv.skip(1)), n as nat);
        lemma_gather_in_range(with_excerpts(narrow(found_v, wv.skip(1))), n as nat);
        assert forall|i: int| 0 <= i < perm@.len() implies #[trigger] int_positions(perm@)[i] < gv.len() && 0 <= int_positions(perm@)[i] by {
            assert(int_positions(perm@)[i] == stable_order(int_keys(keys@))[i]);
        }
    }
    let mut out: Vec<StorkOutput> = Vec::new();
    let mut t: usize = 0;
    while t < perm.len()
        invariant
            t <= perm@.len(),
            perm@.len() == gv.len(),
            forall|i: int| 0 <= i < perm@.len() ==> #[trigger] int_positions(perm@)[i] < gv.len() && 0 <= int_positions(perm@)[i],
            model == permute(gv, int_positions(perm@)),
            gv == result_data(gathered@),
            n == index.entries@.len(),
            all_in_range(gv, n as nat),
            out@.len() == t,
            forall|i: int|
                0 <= i < t ==> {
                    &&& (#[trigger] out@[i]).result@ == model[i]
                    &&& model[i].file_index < n
                    &&& same_entry(out@[i].entry, index.entries@[model[i].file_index as int])
                },
        decreases perm@.len() - t,
    {
        proof {
            assert(int_positions(perm@)[t as int] == perm@[t as int] as int);
        }
        let g = &gathered[perm[t]];
        proof {
            assert(gv[perm@[t as int] as int] == g@);
        }
        let entry = index.entries[g.file_index as usize].copy();
        let result = g.copy();
        out.push(StorkOutput { entry, result });
        t = t + 1;
    }
    out
}

} // verus!
