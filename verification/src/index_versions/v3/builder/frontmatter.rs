//! A YAML frontmatter block at the start of a document: a line `---`, the
//! YAML, and another line `---`. Depending on the settings the block is
//! kept as text, left out, or left out and read as fields.

use crate::common::{copy_string, Fields};
use crate::config::FrontmatterConfig;
use crate::text::{int_string, int_text, trim, trim_str};
use frontmatter::Yaml;
use vstd::prelude::*;

verus! {

/// A YAML value as the frontmatter reads it: a string, an integer, a real
/// number as written, or anything else.
#[derive(Debug)]
pub enum YamlScalar {
    Text(String),
    Integer(i64),
    Real(String),
    Other,
}

/// A YAML document as the frontmatter reads it: a mapping, or anything else.
#[derive(Debug)]
pub enum YamlDocument {
    Hash(Vec<(YamlScalar, YamlScalar)>),
    Other,
}

/// A YAML value with its string taken by its view.
pub enum ScalarView {
    Text(Seq<char>),
    Integer(i64),
    Real(Seq<char>),
    Other,
}

/// A YAML document with its values taken by their views.
pub enum DocumentView {
    Hash(Seq<(ScalarView, ScalarView)>),
    Other,
}

impl View for YamlScalar {
    type V = ScalarView;

    open spec fn view(&self) -> ScalarView {
        match self {
            YamlScalar::Text(s) => ScalarView::Text(s@),
            YamlScalar::Integer(i) => ScalarView::Integer(*i),
            YamlScalar::Real(s) => ScalarView::Real(s@),
            YamlScalar::Other => ScalarView::Other,
        }
    }
}

impl View for YamlDocument {
    type V = DocumentView;

    open spec fn view(&self) -> DocumentView {
        match self {
            YamlDocument::Hash(m) => DocumentView::Hash(
                m@.map_values(|p: (YamlScalar, YamlScalar)| (p.0@, p.1@)),
            ),
            YamlDocument::Other => DocumentView::Other,
        }
    }
}

/// The line that opens and closes a frontmatter block.
pub open spec fn marker() -> Seq<char> {
    seq!['-', '-', '-', '\n']
}

/// The position of the first marker in `s` at or after `i`.
pub open spec fn first_marker_from(s: Seq<char>, i: int) -> Option<int>
    decreases s.len() - i,
{
    if i < 0 || i + 4 > s.len() {
        None
    } else if s.subrange(i, i + 4) == marker() {
        Some(i)
    } else {
        first_marker_from(s, i + 1)
    }
}

/// The YAML of a frontmatter block at the start of `text`, and the text
/// after the block; `None` where `text` does not start with a marker or
/// the block is not closed.
pub open spec fn frontmatter_split(text: Seq<char>) -> Option<(Seq<char>, Seq<char>)> {
    if text.len() >= 4 && text.take(4) == marker() {
        match first_marker_from(text, 4) {
            Some(j) => Some((text.subrange(4, j), text.skip(j + 4))),
            None => None,
        }
    } else {
        None
    }
}

/// What loading `yaml` gives: the last document it holds, if any, or an
/// error where it does not scan.
pub uninterp spec fn yaml_load(yaml: Seq<char>) -> Result<Option<DocumentView>, ()>;

/// A read document taken by its view.
pub open spec fn document_view(d: Option<YamlDocument>) -> Option<DocumentView> {
    match d {
        Some(doc) => Some(doc@),
        None => None,
    }
}

/// Finds a frontmatter block and reads its YAML.
///
/// Calls `frontmatter::parse_and_find_content`. Its source shows that it
/// looks for a block only where the text starts with `---\n` and closes at
/// the next `---\n`, giving back the whole text otherwise; that it loads the
/// block with `yaml_rust::YamlLoader::load_from_str`, failing where that
/// fails; and that the text it gives back starts just after the closing
/// line. What loading the YAML gives depends on the YAML alone and is named
/// by `yaml_load`; the YAML grammar is not written out here. Strings,
/// integers and reals (as written) are handed back as they are, other
/// values as `Other`.
#[verifier::external_body]
fn find_frontmatter(text: &str) -> (r: Result<(Option<YamlDocument>, String), ()>)
    ensures
        match frontmatter_split(text@) {
            None => r matches Ok((d, t)) && d is None && t@ == text@,
            Some((yaml, rest)) => match yaml_load(yaml) {
                Err(_) => r is Err,
                Ok(doc) => r matches Ok((d, t)) && document_view(d) == doc && t@ == rest,
            },
        },
{
    let scalar = |y: Yaml| match y {
        Yaml::String(s) => YamlScalar::Text(s),
        Yaml::Integer(i) => YamlScalar::Integer(i),
        Yaml::Real(s) => YamlScalar::Real(s),
        _ => YamlScalar::Other,
    };
    match frontmatter::parse_and_find_content(text) {
        Ok((doc, rest)) => Ok((doc.map(|d| match d {
            Yaml::Hash(m) => YamlDocument::Hash(m.into_iter().map(|(k, v)| (scalar(k), scalar(v))).collect()),
            _ => YamlDocument::Other,
        }), rest.to_string())),
        Err(_) => Err(()),
    }
}

/// The text of a key: a string as it is, anything else as nothing.
pub open spec fn key_text(k: ScalarView) -> Seq<char> {
    match k {
        ScalarView::Text(s) => s,
        _ => seq![],
    }
}

/// The text of a value: a string or a real number as written, an integer
/// in decimal, anything else as `default`.
pub open spec fn value_text(v: ScalarView) -> Seq<char> {
    match v {
        ScalarView::Text(s) => s,
        ScalarView::Real(s) => s,
        ScalarView::Integer(i) => int_text(i as int),
        ScalarView::Other => seq!['d', 'e', 'f', 'a', 'u', 'l', 't'],
    }
}

/// The first position of key `k` among key-value pairs.
pub open spec fn pair_position(ps: Seq<(Seq<char>, Seq<char>)>, k: Seq<char>) -> Option<int>
    decreases ps.len(),
{
    if ps.len() == 0 {
        None
    } else {
        match pair_position(ps.drop_last(), k) {
            Some(i) => Some(i),
            None => if ps.last().0 == k {
                Some(ps.len() - 1)
            } else {
                None
            },
        }
    }
}

/// The pairs after setting key `k` to `v`.
pub open spec fn set_pair(ps: Seq<(Seq<char>, Seq<char>)>, k: Seq<char>, v: Seq<char>) -> Seq<
    (Seq<char>, Seq<char>),
> {
    match pair_position(ps, k) {
        Some(i) => ps.update(i, (k, v)),
        None => ps.push((k, v)),
    }
}

/// The fields read from the pairs of a YAML mapping, a later pair setting a
/// key again replacing the value.
pub open spec fn fields_from(m: Seq<(ScalarView, ScalarView)>) -> Seq<(Seq<char>, Seq<char>)>
    decreases m.len(),
{
    if m.len() == 0 {
        seq![]
    } else {
        set_pair(fields_from(m.drop_last()), key_text(m.last().0), value_text(m.last().1))
    }
}

/// The pairs of fields, taken by their views.
pub open spec fn pair_views(ps: Seq<(String, String)>) -> Seq<(Seq<char>, Seq<char>)> {
    ps.map_values(|p: (String, String)| (p.0@, p.1@))
}

/// The fields and the text that a document gives under a frontmatter
/// setting.
pub open spec fn frontmatter_result(handling: FrontmatterConfig, buffer: Seq<char>) -> (
    Seq<(Seq<char>, Seq<char>)>,
    Seq<char>,
) {
    match handling {
        FrontmatterConfig::Ignore => (seq![], buffer),
        FrontmatterConfig::Omit => match frontmatter_split(buffer) {
            None => (seq![], trim(buffer)),
            Some((yaml, rest)) => match yaml_load(yaml) {
                Err(_) => (seq![], buffer),
                Ok(_) => (seq![], trim(rest)),
            },
        },
        FrontmatterConfig::Parse => match frontmatter_split(buffer) {
            None => (seq![], buffer),
            Some((yaml, rest)) => match yaml_load(yaml) {
                Ok(Some(DocumentView::Hash(m))) => (fields_from(m), trim(rest)),
                _ => (seq![], buffer),
            },
        },
    }
}

/// Sets key `k` to `v` in `fields`, keeping the position of a key set
/// before.
fn set_field(fields: &mut Fields, k: String, v: String)
    ensures
        pair_views(final(fields).pairs@) == set_pair(pair_views(old(fields).pairs@), k@, v@),
{
    let ghost pv = pair_views(fields.pairs@);
    let mut i: usize = 0;
    while i < fields.pairs.len()
        invariant
            i <= fields.pairs@.len(),
            pv == pair_views(fields.pairs@),
            *fields == *old(fields),
            forall|j: int| 0 <= j < i ==> pv[j].0 != k@,
        decreases fields.pairs@.len() - i,
    {
        assert(pv[i as int] == (fields.pairs@[i as int].0@, fields.pairs@[i as int].1@));
        if fields.pairs[i].0 == k {
            proof {
                lemma_pair_position(pv, k@);
                if pair_position(pv, k@) != Some(i as int) {
                    match pair_position(pv, k@) {
                        Some(j) => {
                            assert(j > i || j < i);
                        },
                        None => {},
                    }
                }
            }
            fields.pairs.set(i, (k, v));
            proof {
                assert(pair_views(fields.pairs@) =~= pv.update(i as int, (k@, v@)));
            }
            return;
        }
        i = i + 1;
    }
    proof {
        lemma_pair_position(pv, k@);
    }
    fields.pairs.push((k, v));
    proof {
        assert(pair_views(fields.pairs@) =~= pv.push((k@, v@)));
    }
}

pub proof fn lemma_pair_position(ps: Seq<(Seq<char>, Seq<char>)>, k: Seq<char>)
    ensures
        match pair_position(ps, k) {
            Some(i) => 0 <= i < ps.len() && ps[i].0 == k && forall|j: int|
                0 <= j < i ==> ps[j].0 != k,
            None => forall|j: int| 0 <= j < ps.len() ==> ps[j].0 != k,
        },
    decreases ps.len(),
{
    if ps.len() > 0 {
        lemma_pair_position(ps.drop_last(), k);
        assert forall|j: int| 0 <= j < ps.len() - 1 implies ps.drop_last()[j] == ps[j] by {}
    }
}

/// The text of a key.
fn key_string(k: &YamlScalar) -> (r: String)
    ensures
        r@ == key_text(k@),
{
    match k {
        YamlScalar::Text(s) => copy_string(s),
        _ => String::new(),
    }
}

/// The text of a value.
fn value_string(v: &YamlScalar) -> (r: String)
    ensures
        r@ == value_text(v@),
{
    match v {
        YamlScalar::Text(s) => copy_string(s),
        YamlScalar::Real(s) => copy_string(s),
        YamlScalar::Integer(i) => int_string(*i),
        YamlScalar::Other => {
            let d = "default".to_owned();
            proof {
                reveal_strlit("default");
            }
            assert(d@ =~= seq!['d', 'e', 'f', 'a', 'u', 'l', 't']);
            d
        },
    }
}

/// Reads the frontmatter of a document as its settings ask: the fields it
/// gives and the text that remains.
pub fn parse_frontmatter(handling: &FrontmatterConfig, buffer: &str) -> (r: (Fields, String))
    ensures
        (pair_views(r.0.pairs@), r.1@) == frontmatter_result(*handling, buffer@),
{
    let mut fields = Fields::new();
    assert(pair_views(fields.pairs@) =~= Seq::<(Seq<char>, Seq<char>)>::empty());
    match handling {
        FrontmatterConfig::Ignore => (fields, buffer.to_owned()),
        FrontmatterConfig::Omit => match find_frontmatter(buffer) {
            Ok((_doc, text)) => (fields, trim_str(text.as_str())),
            Err(_) => (fields, buffer.to_owned()),
        },
        FrontmatterConfig::Parse => match find_frontmatter(buffer) {
            Ok((Some(YamlDocument::Hash(m)), text)) => {
                let ghost mv = m@.map_values(|p: (YamlScalar, YamlScalar)| (p.0@, p.1@));
                let mut i: usize = 0;
                while i < m.len()
                    invariant
                        i <= m@.len(),
                        mv == m@.map_values(|p: (YamlScalar, YamlScalar)| (p.0@, p.1@)),
                        pair_views(fields.pairs@) == fields_from(mv.take(i as int)),
                    decreases m@.len() - i,
                {
                    proof {
                        assert(mv.take(i as int + 1).drop_last() =~= mv.take(i as int));
                        assert(mv.take(i as int + 1).last() == (m@[i as int].0@, m@[i as int].1@));
                    }
                    let k = key_string(&m[i].0);
                    let v = value_string(&m[i].1);
                    set_field(&mut fields, k, v);
                    i = i + 1;
                }
                assert(mv.take(mv.len() as int) =~= mv);
                (fields, trim_str(text.as_str()))
            },
            _ => (fields, buffer.to_owned()),
        },
    }
}

} // verus!
