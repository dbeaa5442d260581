//! Characters, strings and words.

use vstd::prelude::*;
use vstd::utf8::{decode_utf8, valid_utf8};

verus! {

/// Decodes UTF-8 bytes into a `String`, or hands the bytes back when they are
/// not valid UTF-8.
///
/// Calls `String::from_utf8`, which its documentation says succeeds exactly on
/// valid UTF-8 and then holds the decoded characters; on failure
/// `FromUtf8Error::into_bytes` gives back the bytes that were passed in.
#[verifier::external_body]
pub(crate) fn utf8_decode(bytes: &[u8]) -> (r: Result<String, Vec<u8>>)
    ensures
        match r {
            Ok(s) => valid_utf8(bytes@) && s@ == decode_utf8(bytes@),
            Err(b) => !valid_utf8(bytes@) && b@ == bytes@,
        },
{
    String::from_utf8(bytes.to_vec()).map_err(|e| e.into_bytes())
}

/// Whether two strings hold the same characters.
pub fn str_eq(a: &str, b: &str) -> (r: bool)
    ensures
        r == (a@ == b@),
{
    let n = a.unicode_len();
    let m = b.unicode_len();
    if n != m {
        return false;
    }
    let mut i: usize = 0;
    while i < n
        invariant
            i <= n,
            n == a@.len(),
            m == b@.len(),
            n == m,
            forall|j: int| 0 <= j < i ==> a@[j] == b@[j],
        decreases n - i,
    {
        if a.get_char(i) != b.get_char(i) {
            return false;
        }
        i = i + 1;
    }
    assert(a@ =~= b@);
    true
}

/// Whether a string holds the characters of a literal.
pub fn string_eq_literal(a: &String, lit: &str) -> (r: bool)
    ensures
        r == (a@ == lit@),
{
    str_eq(a.as_str(), lit)
}

} // verus!

verus! {

/// Whether `c` has the Unicode `White_Space` property, which is what
/// `char::is_whitespace` tests.
pub open spec fn is_white_space(c: char) -> bool {
    let u = c as u32;
    ||| 0x09 <= u <= 0x0d
    ||| u == 0x20
    ||| u == 0x85
    ||| u == 0xa0
    ||| u == 0x1680
    ||| 0x2000 <= u <= 0x200a
    ||| u == 0x2028
    ||| u == 0x2029
    ||| u == 0x202f
    ||| u == 0x205f
    ||| u == 0x3000
}

/// Whether `c` is an ASCII whitespace character in the sense of
/// `char::is_ascii_whitespace`: tab, line feed, form feed, carriage return or
/// space.
pub open spec fn is_ascii_white_space(c: char) -> bool {
    let u = c as u32;
    u == 0x09 || u == 0x0a || u == 0x0c || u == 0x0d || u == 0x20
}

/// Whether `c` is ASCII punctuation in the sense of
/// `char::is_ascii_punctuation`.
pub open spec fn is_ascii_punct(c: char) -> bool {
    let u = c as u32;
    ||| 0x21 <= u <= 0x2f
    ||| 0x3a <= u <= 0x40
    ||| 0x5b <= u <= 0x60
    ||| 0x7b <= u <= 0x7e
}

/// Tests the Unicode `White_Space` property.
pub fn is_whitespace(c: char) -> (r: bool)
    ensures
        r == is_white_space(c),
{
    let u = c as u32;
    (0x09 <= u && u <= 0x0d) || u == 0x20 || u == 0x85 || u == 0xa0 || u == 0x1680 || (0x2000 <= u
        && u <= 0x200a) || u == 0x2028 || u == 0x2029 || u == 0x202f || u == 0x205f || u == 0x3000
}

/// Tests for ASCII whitespace.
pub fn is_ascii_whitespace(c: char) -> (r: bool)
    ensures
        r == is_ascii_white_space(c),
{
    let u = c as u32;
    u == 0x09 || u == 0x0a || u == 0x0c || u == 0x0d || u == 0x20
}

/// Tests for ASCII punctuation.
pub fn is_ascii_punctuation(c: char) -> (r: bool)
    ensures
        r == is_ascii_punct(c),
{
    let u = c as u32;
    (0x21 <= u && u <= 0x2f) || (0x3a <= u && u <= 0x40) || (0x5b <= u && u <= 0x60) || (0x7b <= u
        && u <= 0x7e)
}

/// The views of a sequence of strings.
pub open spec fn views(ss: Seq<String>) -> Seq<Seq<char>> {
    ss.map_values(|s: String| s@)
}

/// The views after pushing a string are the views before, with its view
/// pushed.
pub proof fn lemma_views_push(ss: Seq<String>, s: String)
    ensures
        views(ss.push(s)) == views(ss).push(s@),
{
    assert(views(ss.push(s)) =~= views(ss).push(s@));
}

/// Scanning `s` for words separated by runs of characters that satisfy `sep`:
/// the words completed so far and the word being read.
pub open spec fn words_state(s: Seq<char>, sep: spec_fn(char) -> bool) -> (
    Seq<Seq<char>>,
    Seq<char>,
)
    decreases s.len(),
{
    if s.len() == 0 {
        (seq![], seq![])
    } else {
        let (ws, cur) = words_state(s.drop_last(), sep);
        if sep(s.last()) {
            if cur.len() > 0 {
                (ws.push(cur), seq![])
            } else {
                (ws, seq![])
            }
        } else {
            (ws, cur.push(s.last()))
        }
    }
}

/// The non-empty runs of characters of `s` that do not satisfy `sep`, in
/// order.
pub open spec fn words(s: Seq<char>, sep: spec_fn(char) -> bool) -> Seq<Seq<char>> {
    let (ws, cur) = words_state(s, sep);
    if cur.len() > 0 {
        ws.push(cur)
    } else {
        ws
    }
}

/// The words of `s`, split at Unicode whitespace, as `str::split_whitespace`
/// gives them.
pub open spec fn split_ws(s: Seq<char>) -> Seq<Seq<char>> {
    words(s, |c: char| is_white_space(c))
}

/// Scanning `s` for the pieces between separators: the pieces completed so
/// far and the piece being read.
pub open spec fn pieces_state(s: Seq<char>, sep: spec_fn(char) -> bool) -> (
    Seq<Seq<char>>,
    Seq<char>,
)
    decreases s.len(),
{
    if s.len() == 0 {
        (seq![], seq![])
    } else {
        let (ps, cur) = pieces_state(s.drop_last(), sep);
        if sep(s.last()) {
            (ps.push(cur), seq![])
        } else {
            (ps, cur.push(s.last()))
        }
    }
}

/// The pieces of `s` between characters that satisfy `sep`, empty pieces
/// included, as `str::split` gives them.
pub open spec fn pieces(s: Seq<char>, sep: spec_fn(char) -> bool) -> Seq<Seq<char>> {
    let (ps, cur) = pieces_state(s, sep);
    ps.push(cur)
}

/// `s` without the characters at its start that satisfy `p`.
pub open spec fn strip_start(s: Seq<char>, p: spec_fn(char) -> bool) -> Seq<char>
    decreases s.len(),
{
    if s.len() > 0 && p(s[0]) {
        strip_start(s.drop_first(), p)
    } else {
        s
    }
}

/// `s` without the characters at its end that satisfy `p`.
pub open spec fn strip_end(s: Seq<char>, p: spec_fn(char) -> bool) -> Seq<char>
    decreases s.len(),
{
    if s.len() > 0 && p(s.last()) {
        strip_end(s.drop_last(), p)
    } else {
        s
    }
}

/// `s` without whitespace at either end, as `str::trim` gives it.
pub open spec fn trim(s: Seq<char>) -> Seq<char> {
    strip_end(strip_start(s, |c: char| is_white_space(c)), |c: char| is_white_space(c))
}

/// The strings of `ws` with `sep` between each two.
pub open spec fn join(ws: Seq<Seq<char>>, sep: Seq<char>) -> Seq<char>
    decreases ws.len(),
{
    if ws.len() == 0 {
        seq![]
    } else if ws.len() == 1 {
        ws[0]
    } else {
        join(ws.drop_last(), sep) + sep + ws.last()
    }
}

/// Appends a character to a string.
///
/// Calls `String::push`, which its documentation says appends the character
/// to the end of the string.
#[verifier::external_body]
pub(crate) fn push_char(s: &mut String, c: char)
    ensures
        final(s)@ == old(s)@.push(c),
{
    s.push(c);
}

/// A string holding the characters of `cs`.
pub fn string_from_chars(cs: &[char]) -> (r: String)
    ensures
        r@ == cs@,
{
    let mut r = String::new();
    let mut i: usize = 0;
    while i < cs.len()
        invariant
            i <= cs@.len(),
            r@ == cs@.take(i as int),
        decreases cs@.len() - i,
    {
        push_char(&mut r, cs[i]);
        assert(cs@.take(i as int + 1) =~= cs@.take(i as int).push(cs@[i as int]));
        i = i + 1;
    }
    assert(cs@.take(cs@.len() as int) =~= cs@);
    r
}

/// Appends the characters of `t` to `s`.
pub fn push_str(s: &mut String, t: &str)
    ensures
        final(s)@ == old(s)@ + t@,
{
    let ghost start = s@;
    for c in it: t.chars()
        invariant
            s@ == start + it.seq().take(it.index() as int),
            it.seq() == t@,
    {
        push_char(s, c);
        assert(it.seq().take(it.index() as int + 1) =~= it.seq().take(it.index() as int).push(c));
    }
    assert(t@.take(t@.len() as int) =~= t@);
}

/// The words of `s`, split at runs of Unicode whitespace.
pub fn split_whitespace(s: &str) -> (r: Vec<String>)
    ensures
        views(r@) == split_ws(s@),
{
    let cs = chars_of(s);
    let mut ws: Vec<String> = Vec::new();
    let mut cur: Vec<char> = Vec::new();
    let mut i: usize = 0;
    while i < cs.len()
        invariant
            i <= cs@.len(),
            cs@ == s@,
            words_state(s@.take(i as int), |c: char| is_white_space(c)) == (views(ws@), cur@),
        decreases cs@.len() - i,
    {
        let c = cs[i];
        assert(s@.take(i as int + 1).drop_last() =~= s@.take(i as int));
        if is_whitespace(c) {
            if cur.len() > 0 {
                let w = string_from_chars(cur.as_slice());
                ws.push(w);
                assert(views(ws@) =~= views(ws@.drop_last()).push(w@));
                cur = Vec::new();
            }
        } else {
            cur.push(c);
        }
        i = i + 1;
    }
    assert(s@.take(cs@.len() as int) =~= s@);
    if cur.len() > 0 {
        let w = string_from_chars(cur.as_slice());
        ws.push(w);
        assert(views(ws@) =~= views(ws@.drop_last()).push(w@));
    }
    ws
}

/// The pieces of `s` between occurrences of `sep`, empty pieces included.
pub fn split_pieces(s: &str, sep: char) -> (r: Vec<String>)
    ensures
        views(r@) == pieces(s@, |c: char| c == sep),
{
    let cs = chars_of(s);
    let mut ps: Vec<String> = Vec::new();
    let mut cur: Vec<char> = Vec::new();
    let mut i: usize = 0;
    while i < cs.len()
        invariant
            i <= cs@.len(),
            cs@ == s@,
            pieces_state(s@.take(i as int), |c: char| c == sep) == (views(ps@), cur@),
        decreases cs@.len() - i,
    {
        let c = cs[i];
        assert(s@.take(i as int + 1).drop_last() =~= s@.take(i as int));
        if c == sep {
            let w = string_from_chars(cur.as_slice());
            ps.push(w);
            assert(views(ps@) =~= views(ps@.drop_last()).push(w@));
            cur = Vec::new();
        } else {
            cur.push(c);
        }
        i = i + 1;
    }
    assert(s@.take(cs@.len() as int) =~= s@);
    let w = string_from_chars(cur.as_slice());
    ps.push(w);
    assert(views(ps@) =~= views(ps@.drop_last()).push(w@));
    ps
}

/// The strings of `ws` joined, with `sep` between each two.
pub fn join_strings(ws: &[String], sep: char) -> (r: String)
    ensures
        r@ == join(views(ws@), seq![sep]),
{
    let mut r = String::new();
    let mut i: usize = 0;
    while i < ws.len()
        invariant
            i <= ws@.len(),
            r@ == join(views(ws@.take(i as int)), seq![sep]),
        decreases ws@.len() - i,
    {
        assert(views(ws@.take(i as int + 1)).drop_last() =~= views(ws@.take(i as int)));
        if i > 0 {
            push_char(&mut r, sep);
        }
        push_str(&mut r, ws[i].as_str());
        proof {
            let v = views(ws@.take(i as int + 1));
            assert(v.last() == ws@[i as int]@);
            if i > 0 {
                assert(r@ =~= join(v.drop_last(), seq![sep]) + seq![sep] + v.last());
            } else {
                assert(v.len() == 1);
                assert(r@ =~= v[0]);
            }
        }
        i = i + 1;
    }
    assert(ws@.take(ws@.len() as int) =~= ws@);
    r
}

/// The length in bytes of the UTF-8 encoding of `s`, as `str::len` reports
/// it.
pub open spec fn byte_len(s: Seq<char>) -> nat {
    (vstd::utf8::encode_utf8(s).len() as usize) as nat
}

/// The length in bytes of a string.
pub fn string_byte_len(s: &String) -> (r: usize)
    ensures
        r == byte_len(s@),
{
    s.as_str().len()
}

/// The lowercase form of `s` under Unicode's case mapping.
pub uninterp spec fn lowercase(s: Seq<char>) -> Seq<char>;

/// Maps a string to lowercase.
///
/// Calls `str::to_lowercase`, which maps each character by the Unicode
/// `Lowercase` mapping; the result depends on the characters alone and is
/// named by `lowercase`. What that mapping does to each character is not
/// written out here.
#[verifier::external_body]
pub(crate) fn to_lowercase(s: &str) -> (r: String)
    ensures
        r@ == lowercase(s@),
{
    s.to_lowercase()
}

/// Whether `a` comes before `b` in the lexicographic order of their
/// characters, which is the order `String` sorts in.
pub open spec fn lex_lt(a: Seq<char>, b: Seq<char>) -> bool
    decreases a.len(),
{
    if a.len() == 0 {
        b.len() > 0
    } else if b.len() == 0 {
        false
    } else if (a[0] as u32) < (b[0] as u32) {
        true
    } else if a[0] == b[0] {
        lex_lt(a.drop_first(), b.drop_first())
    } else {
        false
    }
}

/// No text sorts before itself.
pub proof fn lemma_lex_lt_irreflexive(a: Seq<char>)
    ensures
        !lex_lt(a, a),
    decreases a.len(),
{
    if a.len() > 0 {
        lemma_lex_lt_irreflexive(a.drop_first());
    }
}

/// Sorting before is transitive.
pub proof fn lemma_lex_lt_transitive(a: Seq<char>, b: Seq<char>, c: Seq<char>)
    requires
        lex_lt(a, b),
        lex_lt(b, c),
    ensures
        lex_lt(a, c),
    decreases a.len(),
{
    if a.len() > 0 && b.len() > 0 && c.len() > 0 && a[0] == b[0] && b[0] == c[0] {
        lemma_lex_lt_transitive(a.drop_first(), b.drop_first(), c.drop_first());
    }
}

/// Whether `a` sorts before `b`.
pub fn lex_less(a: &String, b: &String) -> (r: bool)
    ensures
        r == lex_lt(a@, b@),
{
    let x = chars_of(a.as_str());
    let y = chars_of(b.as_str());
    let mut i: usize = 0;
    assert(a@.skip(0) =~= a@);
    assert(b@.skip(0) =~= b@);
    while i < x.len() && i < y.len()
        invariant
            i <= x@.len(),
            i <= y@.len(),
            x@ == a@,
            y@ == b@,
            lex_lt(a@, b@) == lex_lt(a@.skip(i as int), b@.skip(i as int)),
        decreases x@.len() - i,
    {
        if (x[i] as u32) < (y[i] as u32) {
            return true;
        }
        if x[i] != y[i] {
            proof {
                assert(a@.skip(i as int)[0] == x@[i as int]);
                assert(b@.skip(i as int)[0] == y@[i as int]);
                vstd::utf8::char_u32_cast(x@[i as int], x@[i as int] as u32);
                vstd::utf8::char_u32_cast(y@[i as int], y@[i as int] as u32);
            }
            return false;
        }
        assert(a@.skip(i as int).drop_first() =~= a@.skip(i as int + 1));
        assert(b@.skip(i as int).drop_first() =~= b@.skip(i as int + 1));
        i = i + 1;
    }
    i < y.len()
}

/// The words `ws[from..to]` joined with `sep` between each two.
pub fn join_range(ws: &Vec<String>, from: usize, to: usize, sep: char) -> (r: String)
    requires
        from <= to <= ws@.len(),
    ensures
        r@ == join(views(ws@).subrange(from as int, to as int), seq![sep]),
{
    let part = &ws.as_slice()[from..to];
    assert(views(part@) =~= views(ws@).subrange(from as int, to as int));
    join_strings(part, sep)
}

/// The characters of a string, in order.
pub fn chars_of(s: &str) -> (r: Vec<char>)
    ensures
        r@ == s@,
{
    let mut r: Vec<char> = Vec::new();
    for c in it: s.chars()
        invariant
            r@ == it.seq().take(it.index() as int),
            it.seq() == s@,
    {
        r.push(c);
    }
    r
}

/// The decimal digits of `n`, most significant first, with no leading zeros.
pub open spec fn decimal(n: nat) -> Seq<char>
    decreases n,
{
    if n < 10 {
        seq![digit_char(n)]
    } else {
        decimal(n / 10).push(digit_char(n % 10))
    }
}

/// The character of a decimal digit.
pub open spec fn digit_char(d: nat) -> char {
    if d == 0 {
        '0'
    } else if d == 1 {
        '1'
    } else if d == 2 {
        '2'
    } else if d == 3 {
        '3'
    } else if d == 4 {
        '4'
    } else if d == 5 {
        '5'
    } else if d == 6 {
        '6'
    } else if d == 7 {
        '7'
    } else if d == 8 {
        '8'
    } else {
        '9'
    }
}

/// An integer written in decimal, with a minus sign when negative.
pub open spec fn int_text(i: int) -> Seq<char> {
    if i < 0 {
        seq!['-'] + decimal((-i) as nat)
    } else {
        decimal(i as nat)
    }
}

/// The decimal digits of `n`.
pub fn decimal_string(n: u64) -> (r: String)
    ensures
        r@ == decimal(n as nat),
    decreases n,
{
    if n < 10 {
        let mut s = String::new();
        push_char(&mut s, char_of_digit(n));
        assert(s@ =~= seq![digit_char(n as nat)]);
        s
    } else {
        let mut s = decimal_string(n / 10);
        push_char(&mut s, char_of_digit(n % 10));
        s
    }
}

/// The character of a decimal digit.
fn char_of_digit(d: u64) -> (c: char)
    requires
        d < 10,
    ensures
        c == digit_char(d as nat),
{
    let c = match d {
        0 => '0',
        1 => '1',
        2 => '2',
        3 => '3',
        4 => '4',
        5 => '5',
        6 => '6',
        7 => '7',
        8 => '8',
        _ => '9',
    };
    c
}

/// An integer written in decimal.
pub fn int_string(i: i64) -> (r: String)
    ensures
        r@ == int_text(i as int),
{
    if i < 0 {
        let m: u64 = if i == i64::MIN {
            0x8000_0000_0000_0000
        } else {
            (-i) as u64
        };
        let digits = decimal_string(m);
        let mut s = String::new();
        push_char(&mut s, '-');
        push_str(&mut s, digits.as_str());
        assert(s@ =~= seq!['-'] + decimal((-(i as int)) as nat));
        s
    } else {
        decimal_string(i as u64)
    }
}

/// `s` without Unicode whitespace at either end.
pub fn trim_str(s: &str) -> (r: String)
    ensures
        r@ == trim(s@),
{
    let chars = chars_of(s);
    let n = chars.len();
    let mut start: usize = 0;
    assert(s@.skip(0) =~= s@);
    while start < n && is_whitespace(chars[start])
        invariant
            start <= n,
            n == s@.len(),
            chars@ == s@,
            strip_start(s@, |c: char| is_white_space(c)) == strip_start(
                s@.skip(start as int),
                |c: char| is_white_space(c),
            ),
        decreases n - start,
    {
        assert(s@.skip(start as int).drop_first() =~= s@.skip(start as int + 1));
        start = start + 1;
    }
    proof {
        if start < n {
            assert(s@.skip(start as int)[0] == s@[start as int]);
        } else {
            assert(s@.skip(start as int) =~= Seq::<char>::empty());
        }
    }
    let ghost front = s@.skip(start as int);
    let mut end: usize = n;
    while end > start && is_whitespace(chars[end - 1])
        invariant
            start <= end <= n,
            n == s@.len(),
            chars@ == s@,
            front == s@.skip(start as int),
            strip_end(front, |c: char| is_white_space(c)) == strip_end(
                s@.subrange(start as int, end as int),
                |c: char| is_white_space(c),
            ),
        decreases end - start,
    {
        assert(s@.subrange(start as int, end as int).drop_last() =~= s@.subrange(
            start as int,
            end as int - 1,
        ));
        end = end - 1;
    }
    proof {
        assert(front =~= s@.subrange(start as int, n as int));
        if end > start {
            assert(s@.subrange(start as int, end as int).last() == s@[end - 1]);
        } else {
            assert(s@.subrange(start as int, end as int) =~= Seq::<char>::empty());
        }
    }
    let r = string_from_chars(&chars.as_slice()[start..end]);
    assert(r@ =~= s@.subrange(start as int, end as int));
    r
}

/// `s` with each occurrence of `pat` replaced by `rep`, the occurrences
/// taken from the left without overlapping, as `str::replace` takes them.
pub open spec fn replace_all(s: Seq<char>, pat: Seq<char>, rep: Seq<char>) -> Seq<char>
    decreases s.len(),
{
    if s.len() == 0 || pat.len() == 0 {
        s
    } else if pat.len() <= s.len() && s.take(pat.len() as int) == pat {
        rep + replace_all(s.skip(pat.len() as int), pat, rep)
    } else {
        seq![s[0]] + replace_all(s.skip(1), pat, rep)
    }
}

/// Whether `pat` occurs in `s` at position `i`.
fn occurs_at(s: &Vec<char>, pat: &Vec<char>, i: usize) -> (r: bool)
    requires
        i <= s@.len(),
    ensures
        r == (pat@.len() <= s@.len() - i && s@.skip(i as int).take(pat@.len() as int) == pat@),
{
    if pat.len() > s.len() - i {
        return false;
    }
    let n = s.len();
    let mut k: usize = 0;
    while k < pat.len()
        invariant
            k <= pat@.len(),
            n == s@.len(),
            i <= s@.len(),
            pat@.len() <= s@.len() - i,
            forall|j: int| 0 <= j < k ==> s@[i + j] == pat@[j],
        decreases pat@.len() - k,
    {
        if s[i + k] != pat[k] {
            assert(s@.skip(i as int).take(pat@.len() as int)[k as int] != pat@[k as int]);
            return false;
        }
        k = k + 1;
    }
    assert(s@.skip(i as int).take(pat@.len() as int) =~= pat@);
    true
}

/// Replaces each occurrence of `pat` in `s` by `rep`.
pub fn replace_str(s: &str, pat: &str, rep: &str) -> (r: String)
    ensures
        r@ == replace_all(s@, pat@, rep@),
{
    let cs = chars_of(s);
    let ps = chars_of(pat);
    let mut out = String::new();
    if ps.len() == 0 {
        push_str(&mut out, s);
        assert(out@ =~= s@);
        return out;
    }
    let mut i: usize = 0;
    assert(s@.skip(0) =~= s@);
    assert(out@ + replace_all(s@, pat@, rep@) =~= replace_all(s@, pat@, rep@));
    while i < cs.len()
        invariant
            i <= cs@.len(),
            cs@ == s@,
            ps@ == pat@,
            ps@.len() > 0,
            out@ + replace_all(s@.skip(i as int), pat@, rep@) == replace_all(s@, pat@, rep@),
        decreases cs@.len() - i,
    {
        let ghost rest = s@.skip(i as int);
        if occurs_at(&cs, &ps, i) {
            push_str(&mut out, rep);
            proof {
                assert(rest.skip(pat@.len() as int) =~= s@.skip(i + pat@.len()));
                assert(out@ + replace_all(s@.skip(i + pat@.len()), pat@, rep@) =~= replace_all(
                    s@,
                    pat@,
                    rep@,
                ));
            }
            i = i + ps.len();
        } else {
            push_char(&mut out, cs[i]);
            proof {
                assert(rest[0] == s@[i as int]);
                assert(rest.skip(1) =~= s@.skip(i + 1));
                assert(out@ + replace_all(s@.skip(i + 1), pat@, rep@) =~= replace_all(s@, pat@, rep@));
            }
            i = i + 1;
        }
    }
    assert(s@.skip(i as int) =~= Seq::<char>::empty());
    assert(out@ + Seq::<char>::empty() =~= out@);
    out
}

/// `s` with its ASCII uppercase letters made lowercase.
pub open spec fn ascii_lowercase(s: Seq<char>) -> Seq<char> {
    s.map_values(|c: char| if 'A' <= c <= 'Z' { ((c as u32) + 32) as char } else { c })
}

/// Makes the ASCII uppercase letters of `s` lowercase.
pub fn to_ascii_lowercase(s: &str) -> (r: String)
    ensures
        r@ == ascii_lowercase(s@),
{
    let cs = chars_of(s);
    let mut out: Vec<char> = Vec::new();
    let mut i: usize = 0;
    while i < cs.len()
        invariant
            i <= cs@.len(),
            cs@ == s@,
            out@ == ascii_lowercase(s@.take(i as int)),
        decreases cs@.len() - i,
    {
        let c = cs[i];
        let l = if 'A' <= c && c <= 'Z' {
            char_from_u32_lower(c)
        } else {
            c
        };
        out.push(l);
        assert(out@ =~= ascii_lowercase(s@.take(i as int + 1)));
        i = i + 1;
    }
    assert(s@.take(cs@.len() as int) =~= s@);
    string_from_chars(out.as_slice())
}

/// The lowercase form of an ASCII uppercase letter.
fn char_from_u32_lower(c: char) -> (r: char)
    requires
        'A' <= c <= 'Z',
    ensures
        r == ((c as u32) + 32) as char,
{
    let b = (c as u32) as u8;
    ((b + 32) as char)
}

/// The grapheme clusters of `s`, as Unicode's extended grapheme cluster
/// rules split it.
pub uninterp spec fn grapheme_clusters(s: Seq<char>) -> Seq<Seq<char>>;

/// Splits a string into its extended grapheme clusters.
///
/// Calls `UnicodeSegmentation::graphemes` with `is_extended` set, which
/// splits the string by the rules of Unicode Standard Annex #29. The
/// clusters depend on the string alone and are named by
/// `grapheme_clusters`; the segmentation rules are not written out here.
/// Its source hands out consecutive non-empty slices of the string from
/// its start to its end, so the clusters run together give the string back.
#[verifier::external_body]
pub(crate) fn graphemes(s: &str) -> (r: Vec<String>)
    ensures
        views(r@) == grapheme_clusters(s@),
        concat(views(r@)) == s@,
        forall|i: int| 0 <= i < r@.len() ==> (#[trigger] r@[i])@.len() > 0,
{
    unicode_segmentation::UnicodeSegmentation::graphemes(s, true).map(|g| g.to_string()).collect()
}

/// The strings of `ws` run together.
pub open spec fn concat(ws: Seq<Seq<char>>) -> Seq<char>
    decreases ws.len(),
{
    if ws.len() == 0 {
        seq![]
    } else {
        concat(ws.drop_last()) + ws.last()
    }
}

/// The first `n` strings of `ws` run together.
pub fn concat_first(ws: &Vec<String>, n: usize) -> (r: String)
    ensures
        r@ == concat(views(ws@).take(if n < ws@.len() { n as int } else { ws@.len() as int })),
{
    let m = if n < ws.len() {
        n
    } else {
        ws.len()
    };
    let mut out = String::new();
    let mut i: usize = 0;
    while i < m
        invariant
            i <= m <= ws@.len(),
            out@ == concat(views(ws@).take(i as int)),
        decreases m - i,
    {
        push_str(&mut out, ws[i].as_str());
        proof {
            assert(views(ws@).take(i as int + 1).drop_last() =~= views(ws@).take(i as int));
            assert(views(ws@)[i as int] == ws@[i as int]@);
        }
        i = i + 1;
    }
    out
}

/// Splitting gives at least one piece.
pub proof fn lemma_pieces_nonempty(s: Seq<char>, sep: spec_fn(char) -> bool)
    ensures
        pieces(s, sep).len() >= 1,
{
}

} // verus!
