//! Splitting text into annotated words: at ASCII whitespace and hyphens,
//! each piece trimmed, empty pieces left out.

use super::super::structs::AnnotatedWord;
use crate::common::{Fields, InternalWordAnnotation};
use crate::text::{is_ascii_white_space, is_ascii_whitespace, pieces, trim, trim_str, string_from_chars, chars_of, pieces_state};
use vstd::prelude::*;

verus! {

/// Whether a character separates words: ASCII whitespace or a hyphen.
pub open spec fn is_word_break(c: char) -> bool {
    is_ascii_white_space(c) || c == '-'
}

/// The non-empty trimmed pieces of `ps`, in order.
pub open spec fn nonempty_trimmed(ps: Seq<Seq<char>>) -> Seq<Seq<char>>
    decreases ps.len(),
{
    if ps.len() == 0 {
        seq![]
    } else {
        let rest = nonempty_trimmed(ps.drop_last());
        let t = trim(ps.last());
        if t.len() == 0 {
            rest
        } else {
            rest.push(t)
        }
    }
}

/// The words of `s`: its pieces between ASCII whitespace and hyphens,
/// trimmed, the empty ones left out.
pub open spec fn annotated_word_texts(s: Seq<char>) -> Seq<Seq<char>> {
    nonempty_trimmed(pieces(s, |c: char| is_word_break(c)))
}

/// Splits `s` at ASCII whitespace and hyphens.
fn split_word_breaks(s: &str) -> (r: Vec<String>)
    ensures
        crate::text::views(r@) == pieces(s@, |c: char| is_word_break(c)),
{
    let cs = chars_of(s);
    let mut ps: Vec<String> = Vec::new();
    let mut cur: Vec<char> = Vec::new();
    let mut i: usize = 0;
    while i < cs.len()
        invariant
            i <= cs@.len(),
            cs@ == s@,
            pieces_state(s@.take(i as int), |c: char| is_word_break(c)) == (
                crate::text::views(ps@),
                cur@,
            ),
        decreases cs@.len() - i,
    {
        let c = cs[i];
        assert(s@.take(i as int + 1).drop_last() =~= s@.take(i as int));
        if is_ascii_whitespace(c) || c == '-' {
            let w = string_from_chars(cur.as_slice());
            ps.push(w);
            assert(crate::text::views(ps@) =~= crate::text::views(ps@.drop_last()).push(w@));
            cur = Vec::new();
        } else {
            cur.push(c);
        }
        i = i + 1;
    }
    assert(s@.take(cs@.len() as int) =~= s@);
    let w = string_from_chars(cur.as_slice());
    ps.push(w);
    assert(crate::text::views(ps@) =~= crate::text::views(ps@.drop_last()).push(w@));
    ps
}

/// The words of a list, taken by their views.
pub open spec fn texts_of(ws: Seq<AnnotatedWord>) -> Seq<Seq<char>> {
    ws.map_values(|w: AnnotatedWord| w.word@)
}

/// The words of `s`, each annotated with what `annotate` gives for it, and
/// with no fields.
pub fn make_annotated_words_with_annotations<F: Fn(&String) -> Vec<InternalWordAnnotation>>(
    s: &str,
    annotate: F,
) -> (r: Vec<AnnotatedWord>)
    requires
        forall|w: &String| #[trigger] annotate.requires((w,)),
    ensures
        texts_of(r@) == annotated_word_texts(s@),
        forall|i: int|
            0 <= i < r@.len() ==> (#[trigger] r@[i]).fields.pairs@.len() == 0 && annotate.ensures(
                (&r@[i].word,),
                r@[i].internal_annotations,
            ),
{
    let ps = split_word_breaks(s);
    let ghost pv = crate::text::views(ps@);
    let mut out: Vec<AnnotatedWord> = Vec::new();
    let mut i: usize = 0;
    while i < ps.len()
        invariant
            i <= ps@.len(),
            pv == crate::text::views(ps@),
            forall|w: &String| #[trigger] annotate.requires((w,)),
            texts_of(out@) == nonempty_trimmed(pv.take(i as int)),
            forall|j: int|
                0 <= j < out@.len() ==> (#[trigger] out@[j]).fields.pairs@.len() == 0 && annotate.ensures(
                    (&out@[j].word,),
                    out@[j].internal_annotations,
                ),
        decreases ps@.len() - i,
    {
        proof {
            assert(pv.take(i as int + 1).drop_last() =~= pv.take(i as int));
            assert(pv.take(i as int + 1).last() == ps@[i as int]@);
        }
        let t = trim_str(ps[i].as_str());
        if !t.as_str().is_empty() {
            let ann = annotate(&t);
            let w = AnnotatedWord { word: t, internal_annotations: ann, fields: Fields::new() };
            let ghost prev = out@;
            out.push(w);
            proof {
                assert(annotate.ensures((&t,), ann));
                assert(out@[prev.len() as int] == w);
                assert(texts_of(out@) =~= texts_of(prev).push(w.word@));
                assert forall|j: int| 0 <= j < out@.len() implies (#[trigger] out@[j]).fields.pairs@.len()
                    == 0 && annotate.ensures((&out@[j].word,), out@[j].internal_annotations) by {
                    if j < prev.len() {
                        assert(out@[j] == prev[j]);
                    }
                }
            }
        }
        i = i + 1;
    }
    assert(pv.take(pv.len() as int) =~= pv);
    out
}

/// The words of `s`, with no annotations and no fields.
pub fn make_annotated_words(s: &str) -> (r: Vec<AnnotatedWord>)
    ensures
        texts_of(r@) == annotated_word_texts(s@),
        forall|i: int|
            0 <= i < r@.len() ==> (#[trigger] r@[i]).fields.pairs@.len() == 0
                && r@[i].internal_annotations@.len() == 0,
{
    let none = |w: &String| -> (a: Vec<InternalWordAnnotation>)
        ensures
            a@.len() == 0,
        { Vec::new() };
    let r = make_annotated_words_with_annotations(s, none);
    assert forall|i: int| 0 <= i < r@.len() implies (#[trigger] r@[i]).fields.pairs@.len() == 0
        && r@[i].internal_annotations@.len() == 0 by {
        assert(r@[i].fields.pairs@.len() == 0);
        assert(none.ensures((&r@[i].word,), r@[i].internal_annotations));
    }
    r
}

} // verus!
