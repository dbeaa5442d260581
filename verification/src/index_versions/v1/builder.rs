//! Building an index of the first format from the texts of its documents.
//!
//! Each word of a document's text is normalized: lowercased, with ASCII
//! punctuation taken off both ends. A normalized word of at least three
//! bytes gets an excerpt of the words around it, recorded under the word
//! for its document, and each of its byte prefixes of three bytes or more,
//! short of the word itself, gets an alias to it.

use crate::index_versions::v3::builder::fill_containers::{key_pos, lemma_key_pos};
use crate::index_versions::v3::builder::{normalize, normalize_word};
use crate::index_versions::v3::search::find_key_exec;
use crate::models::config::ConfigInput;
use crate::models::{
    excerpt_data, link_data, results_data, same_entry, ExcerptData, LinkData, ResultData,
    StorkEntry, StorkExcerpt, StorkIndex, StorkResult, StorkResultOrAlias,
};
use crate::common::copy_string;
use crate::text::{join, join_range, split_whitespace, split_ws, views};
use vstd::prelude::*;
use vstd::utf8::{decode_utf8, encode_utf8, is_char_boundary};

verus! {

/// The score of an occurrence.
pub const RESULT_SCORE: u8 = 10;

/// The number of words an excerpt shows on each side of its word, where the
/// configuration gives none.
pub const DEFAULT_WIDTH: u8 = 8;

/// The length of `s` in bytes, as `str::len` reports it.
pub open spec fn bytes_of(s: Seq<char>) -> nat {
    crate::text::byte_len(s)
}

/// The excerpt around word `i` of `words`: the words from `width` before it
/// up to `width` after it, but short of the last word, joined with spaces;
/// and the byte offset of the word in it, plus one, as a `u16`.
pub open spec fn excerpt_at(words: Seq<Seq<char>>, i: int, width: int) -> ExcerptData {
    let min = if i >= width {
        i - width
    } else {
        0
    };
    let max = if i + width < words.len() - 1 {
        i + width
    } else {
        words.len() - 1
    };
    ExcerptData {
        value: join(words.subrange(min, max), seq![' ']),
        query_offset: ((bytes_of(join(words.subrange(min, i), seq![' '])) + 1) % 65536) as u16,
    }
}

/// Whether `l` is a result for document `fi`.
pub open spec fn is_result_for(l: LinkData, fi: u32) -> bool {
    l matches LinkData::Result(r) && r.file_index == fi
}

/// Whether `list` has a result for document `fi`.
pub open spec fn has_result(list: Seq<LinkData>, fi: u32) -> bool {
    exists|i: int| 0 <= i < list.len() && is_result_for(#[trigger] list[i], fi)
}

/// `list` with the excerpt `x` added to each of its results for document
/// `fi`.
pub open spec fn with_excerpt(list: Seq<LinkData>, fi: u32, x: ExcerptData) -> Seq<LinkData> {
    list.map_values(
        |l: LinkData|
            match l {
                LinkData::Result(r) => if r.file_index == fi {
                    LinkData::Result(ResultData { excerpts: r.excerpts.push(x), ..r })
                } else {
                    l
                },
                LinkData::Alias(_) => l,
            },
    )
}

/// `list` with the occurrence `x` in document `fi` recorded: added to the
/// document's results, or as a new result where there is none.
pub open spec fn add_to_list(list: Seq<LinkData>, fi: u32, x: ExcerptData) -> Seq<LinkData> {
    if has_result(list, fi) {
        with_excerpt(list, fi, x)
    } else {
        list.push(LinkData::Result(ResultData { file_index: fi, excerpts: seq![x], score: RESULT_SCORE }))
    }
}

/// The words with the occurrence `x` of word `w` in document `fi` recorded.
pub open spec fn add_occurrence(rs: Seq<(Seq<char>, Seq<LinkData>)>, w: Seq<char>, fi: u32, x: ExcerptData) -> Seq<
    (Seq<char>, Seq<LinkData>),
> {
    match key_pos(rs, w) {
        Some(p) => rs.update(p, (w, add_to_list(rs[p].1, fi, x))),
        None => rs.push((w, add_to_list(seq![], fi, x))),
    }
}

/// `list` with an alias to `a`, unless it has one.
pub open spec fn add_alias_to_list(list: Seq<LinkData>, a: Seq<char>) -> Seq<LinkData> {
    if exists|i: int| 0 <= i < list.len() && (#[trigger] list[i]) == LinkData::Alias(a) {
        list
    } else {
        list.push(LinkData::Alias(a))
    }
}

/// The words with an alias from `key` to `a`; `key` is added where it is
/// not there.
pub open spec fn add_alias_entry(rs: Seq<(Seq<char>, Seq<LinkData>)>, key: Seq<char>, a: Seq<char>) -> Seq<
    (Seq<char>, Seq<LinkData>),
> {
    match key_pos(rs, key) {
        Some(p) => rs.update(p, (key, add_alias_to_list(rs[p].1, a))),
        None => rs.push((key, add_alias_to_list(seq![], a))),
    }
}

/// The word whose encoding is the first `n` bytes of that of `w`.
pub open spec fn byte_prefix(w: Seq<char>, n: int) -> Seq<char> {
    decode_utf8(encode_utf8(w).subrange(0, n))
}

/// The words with aliases to `w` from its byte prefixes of `n` bytes and
/// more, short of `w` itself.
pub open spec fn add_prefix_aliases(rs: Seq<(Seq<char>, Seq<LinkData>)>, w: Seq<char>, n: int) -> Seq<
    (Seq<char>, Seq<LinkData>),
>
    decreases bytes_of(w) - n,
{
    if n < 0 || n >= bytes_of(w) {
        rs
    } else {
        add_prefix_aliases(add_alias_entry(rs, byte_prefix(w, n), w), w, n + 1)
    }
}

/// The words after indexing words `i..` of a document's words, document
/// number `fi`, with excerpts `width` words wide on each side.
pub open spec fn index_words(
    rs: Seq<(Seq<char>, Seq<LinkData>)>,
    words: Seq<Seq<char>>,
    fi: u32,
    width: int,
    i: int,
) -> Seq<(Seq<char>, Seq<LinkData>)>
    decreases words.len() - i,
{
    if i < 0 || i >= words.len() {
        rs
    } else {
        let w = normalize(words[i]);
        if bytes_of(w) < 3 {
            index_words(rs, words, fi, width, i + 1)
        } else {
            let added = add_occurrence(rs, w, fi, excerpt_at(words, i, width));
            index_words(add_prefix_aliases(added, w, 3), words, fi, width, i + 1)
        }
    }
}

/// The words after indexing the texts `texts[k..]`, text `k` as document
/// number `k` read as a `u32`.
pub open spec fn index_texts(
    rs: Seq<(Seq<char>, Seq<LinkData>)>,
    texts: Seq<Seq<char>>,
    width: int,
    k: int,
) -> Seq<(Seq<char>, Seq<LinkData>)>
    decreases texts.len() - k,
{
    if k < 0 || k >= texts.len() {
        rs
    } else {
        index_texts(index_words(rs, split_ws(texts[k]), (k % 0x1_0000_0000) as u32, width, 0), texts, width, k + 1)
    }
}

/// Whether every byte prefix of `w` of three bytes or more ends where a
/// character ends, so that it can be cut there.
pub open spec fn prefixes_cut_cleanly(w: Seq<char>) -> bool {
    forall|n: int| 3 <= n < bytes_of(w) ==> is_char_boundary(encode_utf8(w), n)
}

/// Whether every normalized word of the texts can be cut at its byte
/// prefixes.
pub open spec fn texts_cut_cleanly(texts: Seq<Seq<char>>) -> bool {
    forall|k: int, i: int|
        0 <= k < texts.len() && 0 <= i < split_ws(texts[k]).len() ==> prefixes_cut_cleanly(
            normalize(#[trigger] split_ws(texts[k])[i]),
        )
}

/// Records the occurrence `x` of word `w` in document `fi`.
fn add_occurrence_exec(rs: &mut Vec<(String, Vec<StorkResultOrAlias>)>, w: &String, fi: u32, x: &StorkExcerpt)
    ensures
        results_data(final(rs)@) == add_occurrence(results_data(old(rs)@), w@, fi, x@),
{
    let ghost before = results_data(rs@);
    proof {
        lemma_key_pos_results(rs@, w@);
        crate::index_versions::v3::search::lemma_find_key(rs@, w@);
    }
    let p = match find_key_exec(rs, w) {
        Some(p) => p,
        None => {
            rs.push((copy_string(w), Vec::new()));
            proof {
                assert(link_data(Seq::<StorkResultOrAlias>::empty()) =~= Seq::<LinkData>::empty());
                assert(results_data(rs@) =~= before.push((w@, Seq::<LinkData>::empty())));
            }
            rs.len() - 1
        },
    };
    let ghost mid = results_data(rs@);
    let (k, mut list) = rs.remove(p);
    let ghost old_list = link_data(list@);
    let mut found = false;
    let mut j: usize = 0;
    while j < list.len()
        invariant
            j <= list@.len(),
            list@.len() == old_list.len(),
            link_data(list@) == with_excerpt(old_list, fi, x@).take(j as int) + old_list.skip(j as int),
            found == has_result(old_list.take(j as int), fi),
        decreases list@.len() - j,
    {
        let l = list.remove(j);
        let ghost lv = l@;
        proof {
            assert(lv == old_list[j as int]) by {
                assert(link_data(list@.insert(j as int, l))[j as int] == l@);
                assert((with_excerpt(old_list, fi, x@).take(j as int) + old_list.skip(j as int))[j as int] == old_list[j as int]);
            }
        }
        let updated = match l {
            StorkResultOrAlias::Result(mut r) => {
                if r.file_index == fi {
                    let ghost old_r = r@;
                    r.excerpts.push(x.copy());
                    found = true;
                    proof {
                        assert(excerpt_data(r.excerpts@) =~= old_r.excerpts.push(x@));
                    }
                }
                StorkResultOrAlias::Result(r)
            },
            StorkResultOrAlias::Alias(a) => StorkResultOrAlias::Alias(a),
        };
        let ghost prev_list = list@;
        list.insert(j, updated);
        proof {
            assert(updated@ == with_excerpt(old_list, fi, x@)[j as int]);
            assert(link_data(list@) =~= with_excerpt(old_list, fi, x@).take(j as int + 1)
                + old_list.skip(j as int + 1)) by {
                assert forall|q: int| 0 <= q < list@.len() implies link_data(list@)[q] == (
                with_excerpt(old_list, fi, x@).take(j as int + 1) + old_list.skip(j as int + 1))[q] by {
                    if q < j {
                        assert(list@[q] == prev_list[q]);
                        assert(link_data(prev_list)[q] == (with_excerpt(old_list, fi, x@).take(j as int) + old_list.skip(j as int))[q]);
                    } else if q > j {
                        assert(list@[q] == prev_list[q - 1]);
                        assert(link_data(prev_list)[q - 1] == (with_excerpt(old_list, fi, x@).take(j as int) + old_list.skip(j as int))[q]);
                    }
                }
            }
            let t = old_list.take(j as int + 1);
            if has_result(t, fi) && !has_result(old_list.take(j as int), fi) {
                let q = choose|q: int| 0 <= q < t.len() && is_result_for(#[trigger] t[q], fi);
                if q < j {
                    assert(old_list.take(j as int)[q] == t[q]);
                }
            }
            if has_result(old_list.take(j as int), fi) {
                let q = choose|q: int| 0 <= q < j && is_result_for(#[trigger] old_list.take(j as int)[q], fi);
                assert(t[q] == old_list.take(j as int)[q]);
            }
            if is_result_for(old_list[j as int], fi) {
                assert(t[j as int] == old_list[j as int]);
            }
        }
        j = j + 1;
    }
    proof {
        assert(old_list.take(old_list.len() as int) =~= old_list);
        assert(with_excerpt(old_list, fi, x@).take(old_list.len() as int) =~= with_excerpt(old_list, fi, x@));
        assert(old_list.skip(old_list.len() as int) =~= Seq::<LinkData>::empty());
        assert(link_data(list@) =~= with_excerpt(old_list, fi, x@));
    }
    if !found {
        let mut excerpts: Vec<StorkExcerpt> = Vec::new();
        excerpts.push(x.copy());
        let r = StorkResult { file_index: fi, excerpts, score: RESULT_SCORE };
        let ghost before_push = list@;
        list.push(StorkResultOrAlias::Result(r));
        proof {
            assert(excerpt_data(r.excerpts@) =~= seq![x@]);
            assert(with_excerpt(old_list, fi, x@) =~= old_list) by {
                assert forall|q: int| 0 <= q < old_list.len() implies with_excerpt(old_list, fi, x@)[q] == old_list[q] by {
                    if is_result_for(old_list[q], fi) {
                        assert(has_result(old_list, fi));
                    }
                }
            }
            assert(link_data(list@) =~= link_data(before_push).push(LinkData::Result(r@)));
        }
    }
    rs.insert(p, (k, list));
    proof {
        assert(mid[p as int].1 == old_list);
        assert(mid[p as int].0 == w@);
        assert(results_data(rs@) =~= mid.update(p as int, (w@, add_to_list(old_list, fi, x@))));
        lemma_key_pos(before, w@);
    }
}

/// A key's first position among the words is its first position among
/// their views.
pub proof fn lemma_key_pos_results(rs: Seq<(String, Vec<StorkResultOrAlias>)>, k: Seq<char>)
    ensures
        key_pos(results_data(rs), k) == crate::index_versions::v3::search::find_key(rs, k),
    decreases rs.len(),
{
    if rs.len() > 0 {
        assert(results_data(rs.drop_last()) =~= results_data(rs).drop_last());
        lemma_key_pos_results(rs.drop_last(), k);
    }
}

/// Adds an alias from `key` to `a`.
#[verifier::loop_isolation(false)]
fn add_alias_exec(rs: &mut Vec<(String, Vec<StorkResultOrAlias>)>, key: String, a: &String)
    ensures
        results_data(final(rs)@) == add_alias_entry(results_data(old(rs)@), key@, a@),
{
    let ghost before = results_data(rs@);
    proof {
        lemma_key_pos_results(rs@, key@);
        lemma_key_pos(before, key@);
        crate::index_versions::v3::search::lemma_find_key(rs@, key@);
    }
    let p = match find_key_exec(rs, &key) {
        Some(p) => p,
        None => {
            rs.push((key, Vec::new()));
            proof {
                assert(link_data(Seq::<StorkResultOrAlias>::empty()) =~= Seq::<LinkData>::empty());
                assert(results_data(rs@) =~= before.push((key@, Seq::<LinkData>::empty())));
            }
            rs.len() - 1
        },
    };
    let ghost mid = results_data(rs@);
    let (k, mut list) = rs.remove(p);
    let ghost old_list = link_data(list@);
    let ghost removed = rs@;
    let mut j: usize = 0;
    while j < list.len()
        invariant
            j <= list@.len(),
            rs@ == removed,
            old_list == link_data(list@),
            forall|q: int| 0 <= q < j ==> (#[trigger] old_list[q]) != LinkData::Alias(a@),
        decreases list@.len() - j,
    {
        assert(old_list[j as int] == list@[j as int]@);
        let is_same = match &list[j] {
            StorkResultOrAlias::Alias(b) => *b == *a,
            StorkResultOrAlias::Result(_) => false,
        };
        if is_same {
            rs.insert(p, (k, list));
            proof {
                assert(old_list[j as int] == LinkData::Alias(a@));
                assert(results_data(rs@) =~= mid);
            }
            return;
        }
        j = j + 1;
    }
    list.push(StorkResultOrAlias::Alias(copy_string(a)));
    rs.insert(p, (k, list));
    proof {
        assert(link_data(list@) =~= old_list.push(LinkData::Alias(a@)));
        assert(results_data(rs@) =~= mid.update(p as int, (mid[p as int].0, old_list.push(LinkData::Alias(a@)))));
    }
}

/// Adds aliases to `w` from each of its byte prefixes of three bytes or
/// more, short of `w` itself.
fn add_prefix_aliases_exec(rs: &mut Vec<(String, Vec<StorkResultOrAlias>)>, w: &String)
    requires
        prefixes_cut_cleanly(w@),
    ensures
        results_data(final(rs)@) == add_prefix_aliases(results_data(old(rs)@), w@, 3),
{
    let len = w.as_str().len();
    let mut n: usize = 3;
    while n < len
        invariant
            3 <= n,
            len == bytes_of(w@),
            prefixes_cut_cleanly(w@),
            add_prefix_aliases(results_data(old(rs)@), w@, 3) == add_prefix_aliases(
                results_data(rs@),
                w@,
                n as int,
            ),
        decreases len - n,
    {
        let (prefix, _rest) = w.as_str().split_at(n);
        proof {
            vstd::utf8::encode_utf8_decode_utf8(prefix@);
        }
        let key = prefix.to_owned();
        add_alias_exec(rs, key, w);
        n = n + 1;
    }
}

/// The excerpt around word `i` of `words`.
fn excerpt_for(words: &Vec<String>, i: usize, width: usize) -> (r: StorkExcerpt)
    requires
        i < words@.len(),
    ensures
        r@ == excerpt_at(views(words@), i as int, width as int),
{
    let n = words.len();
    let min = if i >= width {
        i - width
    } else {
        0
    };
    let max = match i.checked_add(width) {
        Some(reach) => if reach < n - 1 {
            reach
        } else {
            n - 1
        },
        None => n - 1,
    };
    let value = join_range(words, min, max, ' ');
    let before = join_range(words, min, i, ' ');
    let offset = (before.as_str().len() % 65536 + 1) % 65536;
    StorkExcerpt { value, query_offset: offset as u16 }
}

/// Builds an index of the first format from the configuration and the texts
/// of its documents, `texts[k]` being the text of `config.files[k]`.
pub fn build_index(config: &ConfigInput, texts: &Vec<String>) -> (r: StorkIndex)
    requires
        texts@.len() == config.files@.len(),
        texts_cut_cleanly(views(texts@)),
    ensures
        r.entries@.len() == config.files@.len(),
        forall|i: int| 0 <= i < r.entries@.len() ==> same_entry(#[trigger] r.entries@[i], config.files@[i]),
        results_data(r.results@) == index_texts(
            seq![],
            views(texts@),
            match config.surrounding_word_count {
                Some(w) => w as int,
                None => DEFAULT_WIDTH as int,
            },
            0,
        ),
{
    let width: usize = match config.surrounding_word_count {
        Some(w) => w as usize,
        None => DEFAULT_WIDTH as usize,
    };
    let ghost tv = views(texts@);
    let mut entries: Vec<StorkEntry> = Vec::new();
    let mut results: Vec<(String, Vec<StorkResultOrAlias>)> = Vec::new();
    assert(results_data(results@) =~= Seq::<(Seq<char>, Seq<LinkData>)>::empty());
    let mut k: usize = 0;
    while k < texts.len()
        invariant
            k <= texts@.len(),
            texts@.len() == config.files@.len(),
            tv == views(texts@),
            texts_cut_cleanly(tv),
            entries@.len() == k,
            forall|i: int| 0 <= i < k ==> same_entry(#[trigger] entries@[i], config.files@[i]),
            index_texts(seq![], tv, width as int, 0) == index_texts(results_data(results@), tv, width as int, k as int),
        decreases texts@.len() - k,
    {
        entries.push(config.files[k].copy());
        let words = split_whitespace(texts[k].as_str());
        let fi = ((k as u64) % 0x1_0000_0000) as u32;
        proof {
            assert(tv[k as int] == texts@[k as int]@);
        }
        let ghost start = results_data(results@);
        let mut i: usize = 0;
        while i < words.len()
            invariant
                i <= words@.len(),
                k < texts@.len(),
                tv == views(texts@),
                texts_cut_cleanly(tv),
                views(words@) == split_ws(tv[k as int]),
                index_words(start, views(words@), fi, width as int, 0) == index_words(
                    results_data(results@),
                    views(words@),
                    fi,
                    width as int,
                    i as int,
                ),
            decreases words@.len() - i,
        {
            let w = normalize_word(words[i].as_str());
            proof {
                assert(views(words@)[i as int] == words@[i as int]@);
            }
            if w.as_str().len() >= 3 {
                let x = excerpt_for(&words, i, width);
                add_occurrence_exec(&mut results, &w, fi, &x);
                proof {
                    assert(prefixes_cut_cleanly(normalize(split_ws(tv[k as int])[i as int])));
                }
                add_prefix_aliases_exec(&mut results, &w);
            }
            i = i + 1;
        }
        k = k + 1;
    }
    StorkIndex { entries, results }
}

} // verus!
