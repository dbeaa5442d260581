//! What an index of the first format finds: a word of three bytes or more
//! that was indexed in a document leads back to a result for that document.

use crate::index_versions::v1::builder::{
    add_alias_entry, add_alias_to_list, add_occurrence, add_prefix_aliases, add_to_list, bytes_of,
    excerpt_at, has_result, index_texts, index_words, is_result_for, with_excerpt,
};
use crate::index_versions::v1::search::{expand, lookup, word_results};
use crate::index_versions::v3::builder::fill_containers::{key_pos, lemma_key_pos};
use crate::index_versions::v3::builder::normalize;
use crate::index_versions::v3::recall::{lemma_key_pos_push, lemma_key_pos_same_keys};
use crate::models::{ExcerptData, LinkData, ResultData};
use crate::text::split_ws;
use vstd::prelude::*;

verus! {

/// Whether word `w` leads directly to a result for document `fi`.
pub open spec fn word_has_result(rs: Seq<(Seq<char>, Seq<LinkData>)>, w: Seq<char>, fi: u32) -> bool {
    match lookup(rs, w) {
        Some(l) => has_result(l, fi),
        None => false,
    }
}

proof fn lemma_add_to_list(l: Seq<LinkData>, fi2: u32, x: ExcerptData, fi: u32)
    ensures
        has_result(l, fi) ==> has_result(add_to_list(l, fi2, x), fi),
        has_result(add_to_list(l, fi, x), fi),
{
    if has_result(l, fi) {
        let i = choose|i: int| 0 <= i < l.len() && is_result_for(#[trigger] l[i], fi);
        if has_result(l, fi2) {
            assert(is_result_for(with_excerpt(l, fi2, x)[i], fi));
        } else {
            let pushed = l.push(LinkData::Result(ResultData { file_index: fi2, excerpts: seq![x], score: super::builder::RESULT_SCORE }));
            assert(pushed[i] == l[i]);
        }
    }
    if has_result(l, fi) {
        let i = choose|i: int| 0 <= i < l.len() && is_result_for(#[trigger] l[i], fi);
        assert(is_result_for(with_excerpt(l, fi, x)[i], fi));
    } else {
        let pushed = l.push(LinkData::Result(ResultData { file_index: fi, excerpts: seq![x], score: super::builder::RESULT_SCORE }));
        assert(is_result_for(pushed[l.len() as int], fi));
    }
}

proof fn lemma_add_alias_to_list(l: Seq<LinkData>, a: Seq<char>, fi: u32)
    ensures
        has_result(l, fi) ==> has_result(add_alias_to_list(l, a), fi),
{
    if has_result(l, fi) {
        let i = choose|i: int| 0 <= i < l.len() && is_result_for(#[trigger] l[i], fi);
        if !(exists|j: int| 0 <= j < l.len() && (#[trigger] l[j]) == LinkData::Alias(a)) {
            assert(l.push(LinkData::Alias(a))[i] == l[i]);
        }
    }
}

proof fn lemma_add_occurrence(
    rs: Seq<(Seq<char>, Seq<LinkData>)>,
    w2: Seq<char>,
    fi2: u32,
    x: ExcerptData,
    w: Seq<char>,
    fi: u32,
)
    ensures
        word_has_result(rs, w, fi) ==> word_has_result(add_occurrence(rs, w2, fi2, x), w, fi),
        word_has_result(add_occurrence(rs, w, fi, x), w, fi),
{
    lemma_key_pos(rs, w2);
    lemma_key_pos(rs, w);
    match key_pos(rs, w2) {
        Some(p2) => {
            let after = add_occurrence(rs, w2, fi2, x);
            lemma_key_pos_same_keys(rs, after, w);
            match key_pos(rs, w) {
                Some(p) => {
                    lemma_add_to_list(rs[p].1, fi2, x, fi);
                },
                None => {},
            }
        },
        None => {
            let y = (w2, add_to_list(seq![], fi2, x));
            lemma_key_pos_push(rs, y, w);
        },
    }
    match key_pos(rs, w) {
        Some(p) => {
            let after = add_occurrence(rs, w, fi, x);
            lemma_key_pos_same_keys(rs, after, w);
            lemma_add_to_list(rs[p].1, fi, x, fi);
        },
        None => {
            let y = (w, add_to_list(seq![], fi, x));
            lemma_key_pos_push(rs, y, w);
            lemma_add_to_list(seq![], fi, x, fi);
        },
    }
}

proof fn lemma_add_alias_entry(rs: Seq<(Seq<char>, Seq<LinkData>)>, key: Seq<char>, a: Seq<char>, w: Seq<char>, fi: u32)
    ensures
        word_has_result(rs, w, fi) ==> word_has_result(add_alias_entry(rs, key, a), w, fi),
{
    lemma_key_pos(rs, key);
    lemma_key_pos(rs, w);
    match key_pos(rs, key) {
        Some(pk) => {
            let after = add_alias_entry(rs, key, a);
            lemma_key_pos_same_keys(rs, after, w);
            match key_pos(rs, w) {
                Some(p) => lemma_add_alias_to_list(rs[p].1, a, fi),
                None => {},
            }
        },
        None => {
            lemma_key_pos_push(rs, (key, add_alias_to_list(seq![], a)), w);
        },
    }
}

proof fn lemma_add_prefix_aliases(rs: Seq<(Seq<char>, Seq<LinkData>)>, v: Seq<char>, n: int, w: Seq<char>, fi: u32)
    ensures
        word_has_result(rs, w, fi) ==> word_has_result(add_prefix_aliases(rs, v, n), w, fi),
    decreases bytes_of(v) - n,
{
    if !(n < 0 || n >= bytes_of(v)) {
        let next = add_alias_entry(rs, super::builder::byte_prefix(v, n), v);
        lemma_add_alias_entry(rs, super::builder::byte_prefix(v, n), v, w, fi);
        lemma_add_prefix_aliases(next, v, n + 1, w, fi);
    }
}

proof fn lemma_index_words_keeps(
    rs: Seq<(Seq<char>, Seq<LinkData>)>,
    words: Seq<Seq<char>>,
    fi2: u32,
    width: int,
    i: int,
    w: Seq<char>,
    fi: u32,
)
    ensures
        word_has_result(rs, w, fi) ==> word_has_result(index_words(rs, words, fi2, width, i), w, fi),
    decreases words.len() - i,
{
    if !(i < 0 || i >= words.len()) {
        let v = normalize(words[i]);
        if bytes_of(v) < 3 {
            lemma_index_words_keeps(rs, words, fi2, width, i + 1, w, fi);
        } else {
            let added = add_occurrence(rs, v, fi2, excerpt_at(words, i, width));
            lemma_add_occurrence(rs, v, fi2, excerpt_at(words, i, width), w, fi);
            lemma_add_prefix_aliases(added, v, 3, w, fi);
            lemma_index_words_keeps(add_prefix_aliases(added, v, 3), words, fi2, width, i + 1, w, fi);
        }
    }
}

proof fn lemma_index_words_makes(
    rs: Seq<(Seq<char>, Seq<LinkData>)>,
    words: Seq<Seq<char>>,
    fi: u32,
    width: int,
    i: int,
    j: int,
)
    requires
        0 <= i <= j < words.len(),
        bytes_of(normalize(words[j])) >= 3,
    ensures
        word_has_result(index_words(rs, words, fi, width, i), normalize(words[j]), fi),
    decreases j - i,
{
    let v = normalize(words[i]);
    if i == j {
        let added = add_occurrence(rs, v, fi, excerpt_at(words, i, width));
        lemma_add_occurrence(rs, v, fi, excerpt_at(words, i, width), v, fi);
        lemma_add_prefix_aliases(added, v, 3, v, fi);
        lemma_index_words_keeps(add_prefix_aliases(added, v, 3), words, fi, width, i + 1, v, fi);
    } else if bytes_of(v) < 3 {
        lemma_index_words_makes(rs, words, fi, width, i + 1, j);
    } else {
        let added = add_occurrence(rs, v, fi, excerpt_at(words, i, width));
        lemma_index_words_makes(add_prefix_aliases(added, v, 3), words, fi, width, i + 1, j);
    }
}

proof fn lemma_index_texts_keeps(
    rs: Seq<(Seq<char>, Seq<LinkData>)>,
    texts: Seq<Seq<char>>,
    width: int,
    k: int,
    w: Seq<char>,
    fi: u32,
)
    ensures
        word_has_result(rs, w, fi) ==> word_has_result(index_texts(rs, texts, width, k), w, fi),
    decreases texts.len() - k,
{
    if !(k < 0 || k >= texts.len()) {
        let fk = (k % 0x1_0000_0000) as u32;
        lemma_index_words_keeps(rs, split_ws(texts[k]), fk, width, 0, w, fi);
        lemma_index_texts_keeps(index_words(rs, split_ws(texts[k]), fk, width, 0), texts, width, k + 1, w, fi);
    }
}

proof fn lemma_index_texts_makes(
    rs: Seq<(Seq<char>, Seq<LinkData>)>,
    texts: Seq<Seq<char>>,
    width: int,
    k: int,
    d: int,
    j: int,
)
    requires
        0 <= k <= d < texts.len(),
        d < 0x1_0000_0000,
        0 <= j < split_ws(texts[d]).len(),
        bytes_of(normalize(split_ws(texts[d])[j])) >= 3,
    ensures
        word_has_result(index_texts(rs, texts, width, k), normalize(split_ws(texts[d])[j]), d as u32),
    decreases d - k,
{
    let fk = (k % 0x1_0000_0000) as u32;
    let next = index_words(rs, split_ws(texts[k]), fk, width, 0);
    if k == d {
        assert(fk == d as u32);
        lemma_index_words_makes(rs, split_ws(texts[d]), fk, width, 0, j);
        lemma_index_texts_keeps(next, texts, width, k + 1, normalize(split_ws(texts[d])[j]), d as u32);
    } else {
        lemma_index_texts_makes(next, texts, width, k + 1, d, j);
    }
}

/// Following a list keeps each result in it.
proof fn lemma_expand_keeps(rs: Seq<(Seq<char>, Seq<LinkData>)>, l: Seq<LinkData>, floor: int, i: int)
    requires
        0 <= i < l.len(),
        l[i] is Result,
    ensures
        exists|j: int|
            0 <= j < expand(rs, l, floor).len() && #[trigger] expand(rs, l, floor)[j] == l[i]->Result_0,
    decreases l.len(),
{
    let first = match l[0] {
        LinkData::Result(r) => seq![r],
        LinkData::Alias(a) => if floor < a.len() && a.len() <= super::search::max_key_len(rs) {
            match lookup(rs, a) {
                Some(m) => expand(rs, m, a.len() as int),
                None => seq![],
            }
        } else {
            seq![]
        },
    };
    let rest = expand(rs, l.skip(1), floor);
    assert(expand(rs, l, floor) == first + rest);
    if i == 0 {
        assert((first + rest)[0] == l[0]->Result_0);
    } else {
        assert(l.skip(1)[i - 1] == l[i]);
        lemma_expand_keeps(rs, l.skip(1), floor, i - 1);
        let j = choose|j: int| 0 <= j < rest.len() && #[trigger] rest[j] == l[i]->Result_0;
        assert((first + rest)[first.len() + j] == rest[j]);
    }
}

/// A word indexed in a document is found again: where the words of an
/// index of the first format are those that building from the texts
/// `texts` makes, looking up the normalized word `j` of text `d`, if it has
/// three bytes or more, gives a result for document `d`.
pub proof fn lemma_v1_indexed_word_is_found(texts: Seq<Seq<char>>, width: int, d: int, j: int)
    requires
        0 <= d < texts.len(),
        d < 0x1_0000_0000,
        0 <= j < split_ws(texts[d]).len(),
        bytes_of(normalize(split_ws(texts[d])[j])) >= 3,
    ensures
        ({
            let found = word_results(
                "stork-1.0.0"@,
                index_texts(seq![], texts, width, 0),
                normalize(split_ws(texts[d])[j]),
            );
            exists|q: int| 0 <= q < found.len() && (#[trigger] found[q]).file_index == d
        }),
{
    let w = normalize(split_ws(texts[d])[j]);
    let rs = index_texts(seq![], texts, width, 0);
    lemma_index_texts_makes(seq![], texts, width, 0, d, j);
    let l = lookup(rs, w).unwrap();
    let i = choose|i: int| 0 <= i < l.len() && is_result_for(#[trigger] l[i], d as u32);
    lemma_expand_keeps(rs, l, w.len() as int, i);
    let found = word_results("stork-1.0.0"@, rs, w);
    let q = choose|q: int| 0 <= q < expand(rs, l, w.len() as int).len() && #[trigger] expand(rs, l, w.len() as int)[q]
        == l[i]->Result_0;
    assert(found[q].file_index == d);
}

} // verus!
