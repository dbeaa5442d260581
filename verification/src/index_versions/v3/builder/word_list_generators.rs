//! Turning the text of a read document into its words, by file type.

use super::annotated_words_from_string::{
    annotated_word_texts, make_annotated_words, make_annotated_words_with_annotations, texts_of,
};
use super::errors::WordListGenerationError;
use super::frontmatter::{frontmatter_result, pair_views, parse_frontmatter};
use super::super::structs::{AnnotatedWord, AnnotatedWordList};
use crate::common::{copy_string, Fields, InternalWordAnnotation};
use crate::config::stemming_config::Algorithm;
use crate::config::{File, Filetype, FrontmatterConfig, InputConfig, SRTConfig, SRTTimestampFormat, StemmingConfig};
use crate::text::{decimal, decimal_string, push_str, replace_all, replace_str, split_whitespace, split_ws, trim, trim_str, views};
use kuchiki::traits::TendrilSink;
use kuchiki::NodeRef;
use vstd::prelude::*;

verus! {

/// What reading a document gives: its text, and its file type where the
/// reading could tell it.
#[derive(Debug)]
pub struct ReadResult {
    pub buffer: String,
    pub filetype: Option<Filetype>,
    pub frontmatter_fields: Option<Fields>,
}

/// The settings that apply to one document: the global input settings and
/// the document's own.
pub struct ReaderConfig<'a> {
    pub global: &'a InputConfig,
    pub file: &'a File,
}

impl<'a> ReaderConfig<'a> {
    /// The stemming that applies: the document's own setting, or else the
    /// global one.
    pub open spec fn stemming(&self) -> StemmingConfig {
        match self.file.stemming_override {
            Some(s) => s,
            None => self.global.stemming,
        }
    }

    /// The stemming algorithm for the document's words, if any.
    pub fn get_stem_algorithm(&self) -> (r: Option<Algorithm>)
        ensures
            r == match self.stemming() {
                StemmingConfig::Language(a) => Some(a),
                StemmingConfig::Disabled => None::<Algorithm>,
            },
    {
        let current = match self.file.stemming_override {
            Some(s) => s,
            None => self.global.stemming,
        };
        match current {
            StemmingConfig::Language(a) => Some(a),
            StemmingConfig::Disabled => None,
        }
    }

    /// The frontmatter setting that applies: the document's own, or else
    /// the global one.
    pub open spec fn frontmatter_handling(&self) -> FrontmatterConfig {
        match self.file.frontmatter_handling_override {
            Some(h) => h,
            None => self.global.frontmatter_handling,
        }
    }
}

impl ReadResult {
    /// The read document with its frontmatter handled as the settings ask:
    /// the remaining text, the same file type, and the fields read.
    pub fn extract_frontmatter(&self, config: &ReaderConfig) -> (r: ReadResult)
        ensures
            (pair_views(r.frontmatter_fields.unwrap().pairs@), r.buffer@) == frontmatter_result(
                config.frontmatter_handling(),
                self.buffer@,
            ),
            r.frontmatter_fields is Some,
            r.filetype == self.filetype,
    {
        let handling = match config.file.frontmatter_handling_override {
            Some(h) => h,
            None => config.global.frontmatter_handling,
        };
        let (fields, buffer) = parse_frontmatter(&handling, self.buffer.as_str());
        ReadResult { buffer, filetype: self.filetype, frontmatter_fields: Some(fields) }
    }
}

/// The words of plain text: its pieces between ASCII whitespace and hyphens.
pub fn generate_plain_text(read_result: &ReadResult) -> (r: Result<AnnotatedWordList, WordListGenerationError>)
    ensures
        r is Ok,
        r matches Ok(list) ==> texts_of(list.word_list@) == annotated_word_texts(read_result.buffer@)
            && forall|i: int| 0 <= i < list.word_list@.len() ==> (#[trigger] list.word_list@[i]).internal_annotations@.len() == 0
                && list.word_list@[i].fields.pairs@.len() == 0,
{
    Ok(AnnotatedWordList { word_list: make_annotated_words(read_result.buffer.as_str()) })
}

/// One subtitle: when it starts and its text.
#[derive(Debug)]
pub struct SrtItem {
    pub hours: u64,
    pub minutes: u64,
    pub seconds: u64,
    pub text: String,
}

/// A subtitle with its text taken by its view.
pub struct SrtItemView {
    pub hours: u64,
    pub minutes: u64,
    pub seconds: u64,
    pub text: Seq<char>,
}

/// Subtitles taken by their views.
pub open spec fn srt_views(items: Seq<SrtItem>) -> Seq<SrtItemView> {
    items.map_values(
        |it: SrtItem| SrtItemView { hours: it.hours, minutes: it.minutes, seconds: it.seconds, text: it.text@ },
    )
}

/// The subtitles of a file of them, or `None` where it does not parse.
pub uninterp spec fn srt_items_of(buffer: Seq<char>) -> Option<Seq<SrtItemView>>;

/// Reads the subtitles of an SRT file.
///
/// Calls `srtparse::from_str`, which parses the file's numbered blocks of a
/// time range and text. What it gives depends on the text alone and is
/// named by `srt_items_of`; the SRT grammar is not written out here. Of each
/// block the hours, minutes and seconds of its start and its text are
/// handed back.
#[verifier::external_body]
fn parse_srt(buffer: &str) -> (r: Option<Vec<SrtItem>>)
    ensures
        match r {
            Some(items) => srt_items_of(buffer@) == Some(srt_views(items@)),
            None => srt_items_of(buffer@) is None,
        },
{
    match srtparse::from_str(buffer) {
        Ok(items) => Some(items.into_iter().map(|it| SrtItem {
            hours: it.start_time.hours,
            minutes: it.start_time.minutes,
            seconds: it.start_time.seconds,
            text: it.text,
        }).collect()),
        Err(_) => None,
    }
}

/// The number of seconds from the start of a recording to a time.
pub open spec fn start_seconds(it: SrtItemView) -> int {
    it.hours * 3600 + it.minutes * 60 + it.seconds
}

/// The URL suffix that leads to a subtitle: the template with `{ts}`
/// replaced by the time written as the settings ask.
pub open spec fn srt_suffix(it: SrtItemView, cfg: SRTConfig) -> Seq<char> {
    let ts = match cfg.timestamp_format {
        SRTTimestampFormat::NumberOfSeconds => decimal(start_seconds(it) as nat),
    };
    replace_all(cfg.timestamp_template_string@, "{ts}"@, ts)
}

/// The URL suffix that leads to the subtitle starting at the given time.
pub fn build_srt_url_time_suffix(hours: u64, minutes: u64, seconds: u64, srt_config: &SRTConfig) -> (r:
    String)
    requires
        hours * 3600 + minutes * 60 + seconds <= usize::MAX,
    ensures
        r@ == srt_suffix(
            SrtItemView { hours, minutes, seconds, text: seq![] },
            *srt_config,
        ),
{
    let time_string = match srt_config.timestamp_format {
        SRTTimestampFormat::NumberOfSeconds => {
            let total = (hours as usize) * 3600 + (minutes as usize) * 60 + (seconds as usize);
            decimal_string(total as u64)
        },
    };
    replace_str(srt_config.timestamp_template_string.as_str(), "{ts}", time_string.as_str())
}

/// Whether the start of every subtitle, in seconds, fits in `usize`.
pub open spec fn srt_times_fit(items: Seq<SrtItemView>) -> bool {
    forall|i: int| 0 <= i < items.len() ==> start_seconds(#[trigger] items[i]) <= usize::MAX
}

/// Whether `anns` is what a word of a subtitle is annotated with: the
/// single annotation of the URL suffix `t` where timestamps are linked,
/// nothing where they are not.
pub open spec fn is_suffix_annotation(anns: Seq<InternalWordAnnotation>, t: Seq<char>, linking: bool) -> bool {
    if linking {
        &&& anns.len() == 1
        &&& anns[0] matches InternalWordAnnotation::UrlSuffix(s) && s@ == t
    } else {
        anns.len() == 0
    }
}

/// The words of subtitles, each with the URL suffix of its subtitle.
pub open spec fn srt_words(items: Seq<SrtItemView>, cfg: SRTConfig) -> Seq<(Seq<char>, Seq<char>)>
    decreases items.len(),
{
    if items.len() == 0 {
        seq![]
    } else {
        let it = items.last();
        srt_words(items.drop_last(), cfg) + annotated_word_texts(it.text).map_values(
            |w: Seq<char>| (w, srt_suffix(it, cfg)),
        )
    }
}

/// Whether the words `ws` are `expected`, word by word, each annotated with
/// the URL suffix given there where timestamps are linked, and without
/// fields.
pub open spec fn words_with_suffixes(ws: Seq<AnnotatedWord>, expected: Seq<(Seq<char>, Seq<char>)>, linking: bool) -> bool {
    &&& ws.len() == expected.len()
    &&& forall|i: int|
        0 <= i < ws.len() ==> (#[trigger] ws[i]).word@ == expected[i].0 && is_suffix_annotation(
            ws[i].internal_annotations@,
            expected[i].1,
            linking,
        ) && ws[i].fields.pairs@.len() == 0
}

/// The words of an SRT file: the words of each subtitle, each annotated
/// with the URL suffix of its subtitle's start where the settings link
/// timestamps. `InvalidSRT` where the file
/// does not parse, or a start in seconds does not fit in `usize`.
#[verifier::loop_isolation(false)]
pub fn generate_srt(config: &InputConfig, read_result: &ReadResult) -> (r: Result<AnnotatedWordList, WordListGenerationError>)
    ensures
        match srt_items_of(read_result.buffer@) {
            None => r == Err::<AnnotatedWordList, WordListGenerationError>(WordListGenerationError::InvalidSRT),
            Some(items) => if srt_times_fit(items) {
                &&& r is Ok
                &&& r matches Ok(list) ==> words_with_suffixes(
                    list.word_list@,
                    srt_words(items, config.srt_config),
                    config.srt_config.timestamp_linking,
                )
            } else {
                r == Err::<AnnotatedWordList, WordListGenerationError>(WordListGenerationError::InvalidSRT)
            },
        },
{
    let items = match parse_srt(read_result.buffer.as_str()) {
        Some(items) => items,
        None => {
            return Err(WordListGenerationError::InvalidSRT);
        },
    };
    let ghost iv = srt_views(items@);
    let mut k: usize = 0;
    while k < items.len()
        invariant
            k <= items@.len(),
            iv == srt_views(items@),
            srt_times_fit(iv.take(k as int)),
        decreases items@.len() - k,
    {
        let it = &items[k];
        proof {
            assert(iv[k as int].hours == it.hours && iv[k as int].minutes == it.minutes && iv[k as int].seconds == it.seconds);
        }
        let fits = match (it.hours as u128).checked_mul(3600) {
            Some(h) => match (it.minutes as u128).checked_mul(60) {
                Some(m) => h + m + (it.seconds as u128) <= usize::MAX as u128,
                None => false,
            },
            None => false,
        };
        if !fits {
            proof {
                assert(!srt_times_fit(iv)) by {
                    assert(start_seconds(iv[k as int]) > usize::MAX);
                }
            }
            return Err(WordListGenerationError::InvalidSRT);
        }
        proof {
            assert forall|i: int| 0 <= i < k + 1 implies start_seconds(#[trigger] iv.take(k as int + 1)[i])
                <= usize::MAX by {
                if i < k {
                    assert(iv.take(k as int + 1)[i] == iv.take(k as int)[i]);
                }
            }
        }
        k = k + 1;
    }
    assert(iv.take(iv.len() as int) =~= iv);
    let mut word_list: Vec<AnnotatedWord> = Vec::new();
    let mut i: usize = 0;
    while i < items.len()
        invariant
            i <= items@.len(),
            iv == srt_views(items@),
            srt_times_fit(iv),
            words_with_suffixes(
                word_list@,
                srt_words(iv.take(i as int), config.srt_config),
                config.srt_config.timestamp_linking,
            ),
        decreases items@.len() - i,
    {
        let it = &items[i];
        proof {
            assert(iv[i as int] == SrtItemView { hours: it.hours, minutes: it.minutes, seconds: it.seconds, text: it.text@ });
            assert(start_seconds(iv[i as int]) <= usize::MAX);
            assert(iv.take(i as int + 1).drop_last() =~= iv.take(i as int));
            assert(iv.take(i as int + 1).last() == iv[i as int]);
        }
        let suffix = build_srt_url_time_suffix(it.hours, it.minutes, it.seconds, &config.srt_config);
        let sref = &suffix;
        let linking = config.srt_config.timestamp_linking;
        let annotate = |_w: &String| -> (a: Vec<InternalWordAnnotation>)
            ensures
                is_suffix_annotation(a@, sref@, linking),
            {
                let mut a: Vec<InternalWordAnnotation> = Vec::new();
                if linking {
                    a.push(InternalWordAnnotation::UrlSuffix(copy_string(sref)));
                }
                a
            };
        let words = make_annotated_words_with_annotations(it.text.as_str(), annotate);
        let ghost prev = word_list@;
        let ghost exp = srt_words(iv.take(i as int), config.srt_config);
        let ghost more = annotated_word_texts(it.text@).map_values(
            |w: Seq<char>| (w, srt_suffix(iv[i as int], config.srt_config)),
        );
        proof {
            assert(srt_suffix(iv[i as int], config.srt_config) == suffix@);
        }
        let mut j: usize = 0;
        while j < words.len()
            invariant
                j <= words@.len(),
                texts_of(words@) == annotated_word_texts(it.text@),
                forall|q: int|
                    0 <= q < words@.len() ==> (#[trigger] words@[q]).fields.pairs@.len() == 0
                        && annotate.ensures((&words@[q].word,), words@[q].internal_annotations),
                more == annotated_word_texts(it.text@).map_values(|w: Seq<char>| (w, suffix@)),
                word_list@.len() == prev.len() + j,
                words_with_suffixes(word_list@, exp + more.take(j as int), linking),
                linking == config.srt_config.timestamp_linking,
                exp == srt_words(iv.take(i as int), config.srt_config),
                prev.len() == exp.len(),
            decreases words@.len() - j,
        {
            let w = AnnotatedWord {
                word: copy_string(&words[j].word),
                internal_annotations: crate::common::copy_annotations(&words[j].internal_annotations),
                fields: Fields::new(),
            };
            let ghost before = word_list@;
            word_list.push(w);
            proof {
                assert(annotate.ensures((&words@[j as int].word,), words@[j as int].internal_annotations));
                assert(texts_of(words@)[j as int] == words@[j as int].word@);
                let target = exp + more.take(j as int + 1);
                assert(target =~= (exp + more.take(j as int)).push(more[j as int]));
                assert forall|q: int| 0 <= q < word_list@.len() implies (#[trigger] word_list@[q]).word@
                    == target[q].0 && is_suffix_annotation(word_list@[q].internal_annotations@, target[q].1, linking)
                    && word_list@[q].fields.pairs@.len() == 0 by {
                    if q < before.len() {
                        assert(word_list@[q] == before[q]);
                        assert(target[q] == (exp + more.take(j as int))[q]);
                    } else {
                        assert(word_list@[q] == w);
                        assert(target[q] == more[j as int]);
                        assert(more[j as int] == (annotated_word_texts(it.text@)[j as int], suffix@));
                        assert(is_suffix_annotation(words@[j as int].internal_annotations@, sref@, linking));
                        assert(w.internal_annotations@ == words@[j as int].internal_annotations@);
                    }
                }
            }
            j = j + 1;
        }
        proof {
            assert(more.take(words@.len() as int) =~= more);
            assert(srt_words(iv.take(i as int + 1), config.srt_config) =~= exp + more);
        }
        i = i + 1;
    }
    assert(iv.take(iv.len() as int) =~= iv);
    Ok(AnnotatedWordList { word_list })
}

#[verifier::external_type_specification]
#[verifier::external_body]
pub struct ExNodeRef(kuchiki::NodeRef);

/// The value of an attribute of an element node; `None` for other nodes.
///
/// Calls `NodeRef::as_element` and `Attributes::get`; nothing is claimed of
/// the value.
#[verifier::external_body]
fn element_attribute(node: &NodeRef, name: &str) -> Option<String> {
    node.as_element().and_then(|e| e.attributes.borrow().get(name).map(|v| v.to_string()))
}

/// The text of a text node; `None` for other nodes.
///
/// Calls `NodeRef::as_text`; nothing is claimed of the text.
#[verifier::external_body]
fn node_text(node: &NodeRef) -> Option<String> {
    node.as_text().map(|t| t.borrow().clone())
}

/// What a node of an HTML document holds that its words are read from.
#[derive(Debug)]
pub struct HtmlNode {
    pub id: Option<String>,
    pub title: Option<String>,
    pub alt: Option<String>,
    pub text: Option<String>,
}

/// A node's data, its strings taken by their views.
pub struct HtmlNodeView {
    pub id: Option<Seq<char>>,
    pub title: Option<Seq<char>>,
    pub alt: Option<Seq<char>>,
    pub text: Option<Seq<char>>,
}

/// A string that may be missing, taken by its view.
pub open spec fn opt_view(s: Option<String>) -> Option<Seq<char>> {
    match s {
        Some(t) => Some(t@),
        None => None,
    }
}

/// A string that may be missing, as text.
pub open spec fn opt_text(s: Option<Seq<char>>) -> Seq<char> {
    match s {
        Some(t) => t,
        None => seq![],
    }
}

/// Nodes taken by their views.
pub open spec fn node_views(ns: Seq<HtmlNode>) -> Seq<HtmlNodeView> {
    ns.map_values(
        |n: HtmlNode|
            HtmlNodeView {
                id: opt_view(n.id),
                title: opt_view(n.title),
                alt: opt_view(n.alt),
                text: opt_view(n.text),
            },
    )
}

/// The text a node gives: an element's `title` and `alt` attributes, a text
/// node's text, trimmed.
pub open spec fn node_contents(n: HtmlNodeView) -> Seq<char> {
    trim(opt_text(n.title) + opt_text(n.alt) + opt_text(n.text))
}

/// The words of the nodes `ns[i..]`, each with the id of the nearest element
/// with an id started before it, given `latest` as that id so far.
pub open spec fn node_words(ns: Seq<HtmlNodeView>, i: int, latest: Option<Seq<char>>) -> Seq<
    (Seq<char>, Option<Seq<char>>),
>
    decreases ns.len() - i,
{
    if i < 0 || i >= ns.len() {
        seq![]
    } else {
        let n = ns[i];
        let l = match n.id {
            Some(id) => Some(id),
            None => latest,
        };
        let c = node_contents(n);
        let here = if c.len() == 0 {
            Seq::<(Seq<char>, Option<Seq<char>>)>::empty()
        } else {
            split_ws(c).map_values(|w: Seq<char>| (w, l))
        };
        here + node_words(ns, i + 1, l)
    }
}

/// Whether `anns` records the nearest id `id`: none where there is none,
/// else the single annotation of that id.
pub open spec fn is_id_annotation(anns: Seq<InternalWordAnnotation>, id: Option<Seq<char>>) -> bool {
    match id {
        None => anns.len() == 0,
        Some(t) => {
            &&& anns.len() == 1
            &&& anns[0] matches InternalWordAnnotation::NearestHtmlId(s) && s@ == t
        },
    }
}

/// Whether the words `ws` are `expected`, word by word, each annotated with
/// the id given there and without fields.
pub open spec fn words_with_ids(ws: Seq<AnnotatedWord>, expected: Seq<(Seq<char>, Option<Seq<char>>)>) -> bool {
    &&& ws.len() == expected.len()
    &&& forall|i: int|
        0 <= i < ws.len() ==> (#[trigger] ws[i]).word@ == expected[i].0 && is_id_annotation(
            ws[i].internal_annotations@,
            expected[i].1,
        ) && ws[i].fields.pairs@.len() == 0
}

/// Appends `s`, if any, to `out`.
fn push_opt(out: &mut String, s: &Option<String>)
    ensures
        final(out)@ == old(out)@ + opt_text(opt_view(*s)),
{
    match s {
        Some(t) => push_str(out, t.as_str()),
        None => {
            assert(old(out)@ + Seq::<char>::empty() =~= old(out)@);
        },
    }
}

/// The words of HTML nodes, each annotated with the id of the nearest
/// element with an id started before it.
pub fn words_from_nodes(nodes: &Vec<HtmlNode>) -> (r: Vec<AnnotatedWord>)
    ensures
        words_with_ids(r@, node_words(node_views(nodes@), 0, None)),
{
    let ghost nv = node_views(nodes@);
    let mut out: Vec<AnnotatedWord> = Vec::new();
    let mut latest: Option<String> = None;
    let ghost mut done: Seq<(Seq<char>, Option<Seq<char>>)> = seq![];
    let mut i: usize = 0;
    assert(done + node_words(nv, 0, None) =~= node_words(nv, 0, None));
    while i < nodes.len()
        invariant
            i <= nodes@.len(),
            nv == node_views(nodes@),
            words_with_ids(out@, done),
            done + node_words(nv, i as int, opt_view(latest)) == node_words(nv, 0, None),
        decreases nodes@.len() - i,
    {
        let n = &nodes[i];
        proof {
            assert(nv[i as int] == HtmlNodeView {
                id: opt_view(n.id),
                title: opt_view(n.title),
                alt: opt_view(n.alt),
                text: opt_view(n.text),
            });
        }
        let ghost old_latest = opt_view(latest);
        match &n.id {
            Some(id) => {
                latest = Some(copy_string(id));
            },
            None => {},
        }
        let mut joined = String::new();
        push_opt(&mut joined, &n.title);
        push_opt(&mut joined, &n.alt);
        push_opt(&mut joined, &n.text);
        assert(joined@ =~= opt_text(nv[i as int].title) + opt_text(nv[i as int].alt) + opt_text(
            nv[i as int].text,
        ));
        let contents = trim_str(joined.as_str());
        let ghost here = if contents@.len() == 0 {
            Seq::<(Seq<char>, Option<Seq<char>>)>::empty()
        } else {
            split_ws(contents@).map_values(|w: Seq<char>| (w, opt_view(latest)))
        };
        proof {
            assert(node_words(nv, i as int, old_latest) == here + node_words(
                nv,
                i + 1,
                opt_view(latest),
            ));
        }
        if !contents.as_str().is_empty() {
            let words = split_whitespace(contents.as_str());
            let mut j: usize = 0;
            assert(done + here.take(0) =~= done);
            while j < words.len()
                invariant
                    j <= words@.len(),
                    views(words@) == split_ws(contents@),
                    contents@.len() > 0,
                    here == split_ws(contents@).map_values(|w: Seq<char>| (w, opt_view(latest))),
                    words_with_ids(out@, done + here.take(j as int)),
                decreases words@.len() - j,
            {
                let mut anns: Vec<InternalWordAnnotation> = Vec::new();
                match &latest {
                    Some(id) => {
                        anns.push(InternalWordAnnotation::NearestHtmlId(copy_string(id)));
                    },
                    None => {},
                }
                let w = AnnotatedWord {
                    word: copy_string(&words[j]),
                    internal_annotations: anns,
                    fields: Fields::new(),
                };
                let ghost prev = out@;
                out.push(w);
                proof {
                    let target = done + here.take(j as int + 1);
                    assert(target =~= (done + here.take(j as int)).push(here[j as int]));
                    assert(views(words@)[j as int] == words@[j as int]@);
                    assert forall|q: int| 0 <= q < out@.len() implies (#[trigger] out@[q]).word@
                        == target[q].0 && is_id_annotation(out@[q].internal_annotations@, target[q].1)
                        && out@[q].fields.pairs@.len() == 0 by {
                        if q < prev.len() {
                            assert(out@[q] == prev[q]);
                            assert(target[q] == (done + here.take(j as int))[q]);
                        } else {
                            assert(out@[q] == w);
                            assert(target[q] == here[j as int]);
                        }
                    }
                }
                j = j + 1;
            }
            assert(here.take(words@.len() as int) =~= here);
        } else {
            assert(done + here =~= done);
        }
        proof {
            assert(done + here + node_words(nv, i + 1, opt_view(latest)) =~= done + (here
                + node_words(nv, i + 1, opt_view(latest))));
            done = done + here;
        }
        i = i + 1;
    }
    assert(done + Seq::<(Seq<char>, Option<Seq<char>>)>::empty() =~= done);
    out
}

/// The CSS selector of the parts of an HTML document to index: the
/// document's own, else the global one, else `main`.
pub open spec fn html_selector(config: ReaderConfig) -> Seq<char> {
    match config.file.html_selector_override {
        Some(s) => s@,
        None => match config.global.html_selector {
            Some(s) => s@,
            None => "main"@,
        },
    }
}

/// The data a node holds that its words are read from.
fn node_data(n: &NodeRef) -> (r: HtmlNode) {
    HtmlNode {
        id: element_attribute(n, "id"),
        title: element_attribute(n, "title"),
        alt: element_attribute(n, "alt"),
        text: node_text(n),
    }
}

/// Whether every word has no fields and at most the annotation of one id.
pub open spec fn html_words_well_formed(ws: Seq<AnnotatedWord>) -> bool {
    forall|i: int|
        0 <= i < ws.len() ==> (#[trigger] ws[i]).fields.pairs@.len() == 0 && (ws[i].internal_annotations@.len()
            == 0 || (ws[i].internal_annotations@.len() == 1
            && ws[i].internal_annotations@[0] is NearestHtmlId))
}

/// What reading the words of an HTML document gives, once its selector
/// picked what it picked: `None` where the selector did not parse, else the
/// number of parts it picked and the nodes of those parts in the order a
/// walk through each part starts them. `SelectorNotPresent` where nothing
/// was picked, `EmptyWordList` where the nodes hold no words, else the
/// words of the nodes, each annotated with the nearest id before it.
pub open spec fn html_outcome(
    r: Result<Seq<AnnotatedWord>, WordListGenerationError>,
    selector: Seq<char>,
    picked: Option<(int, Seq<HtmlNodeView>)>,
) -> bool {
    match picked {
        Some((parts, nodes)) if parts > 0 => {
            let expected = node_words(nodes, 0, None);
            if expected.len() == 0 {
                r == Err::<Seq<AnnotatedWord>, WordListGenerationError>(WordListGenerationError::EmptyWordList)
            } else {
                r matches Ok(ws) && words_with_ids(ws, expected)
            }
        },
        _ => r matches Err(WordListGenerationError::SelectorNotPresent(s)) && s@ == selector,
    }
}

/// A word list outcome, the list taken by its words.
pub open spec fn list_view(r: Result<AnnotatedWordList, WordListGenerationError>) -> Result<
    Seq<AnnotatedWord>,
    WordListGenerationError,
> {
    match r {
        Ok(l) => Ok(l.word_list@),
        Err(e) => Err(e),
    }
}

/// What reading the words of a document of file type `ft` whose text is
/// `text` gives under `config`: the words split at whitespace and hyphens
/// for plain text; the words of each subtitle with its time suffix for SRT
/// (`InvalidSRT` where the file does not parse or a time does not fit);
/// the words of the picked parts for HTML, and for Markdown those of its
/// rendering; `CannotDetermineFiletype` where the type is not known.
pub open spec fn word_list_outcome(
    r: Result<Seq<AnnotatedWord>, WordListGenerationError>,
    config: ReaderConfig,
    ft: Option<Filetype>,
    text: Seq<char>,
) -> bool {
    match ft {
        None => r == Err::<Seq<AnnotatedWord>, WordListGenerationError>(
            WordListGenerationError::CannotDetermineFiletype,
        ),
        Some(Filetype::PlainText) => r matches Ok(ws) && texts_of(ws) == annotated_word_texts(text)
            && forall|i: int|
            0 <= i < ws.len() ==> (#[trigger] ws[i]).internal_annotations@.len() == 0 && ws[i].fields.pairs@.len()
                == 0,
        Some(Filetype::SRTSubtitle) => match srt_items_of(text) {
            None => r == Err::<Seq<AnnotatedWord>, WordListGenerationError>(WordListGenerationError::InvalidSRT),
            Some(items) => if srt_times_fit(items) {
                r matches Ok(ws) && words_with_suffixes(
                    ws,
                    srt_words(items, config.global.srt_config),
                    config.global.srt_config.timestamp_linking,
                )
            } else {
                r == Err::<Seq<AnnotatedWord>, WordListGenerationError>(WordListGenerationError::InvalidSRT)
            },
        },
        Some(Filetype::HTML) => html_outcome(
            r,
            html_selector(config),
            html_selection(text, html_selector(config), exclude_selector(config)),
        ),
        Some(Filetype::Markdown) => html_outcome(
            r,
            html_selector(config),
            html_selection(markdown_document(text), html_selector(config), exclude_selector(config)),
        ),
    }
}

/// A selection taken by its view.
pub open spec fn picked_view(picked: Option<(usize, Vec<HtmlNode>)>) -> Option<(int, Seq<HtmlNodeView>)> {
    match picked {
        Some((parts, nodes)) => Some((parts as int, node_views(nodes@))),
        None => None,
    }
}

/// The words of an HTML document, given what its selector picked (see
/// `html_outcome`).
pub fn html_words_from_selection(selector: String, picked: Option<(usize, Vec<HtmlNode>)>) -> (r: Result<
    AnnotatedWordList,
    WordListGenerationError,
>)
    ensures
        html_outcome(list_view(r), selector@, picked_view(picked)),
{
    let nodes = match picked {
        Some((parts, nodes)) => {
            if parts == 0 {
                return Err(WordListGenerationError::SelectorNotPresent(selector));
            }
            nodes
        },
        None => {
            return Err(WordListGenerationError::SelectorNotPresent(selector));
        },
    };
    let word_list = words_from_nodes(&nodes);
    if word_list.len() == 0 {
        Err(WordListGenerationError::EmptyWordList)
    } else {
        Ok(AnnotatedWordList { word_list })
    }
}

/// The CSS selector of the parts of an HTML document to leave out: the
/// document's own, else the global one, if any.
pub open spec fn exclude_selector(config: ReaderConfig) -> Option<Seq<char>> {
    match config.file.exclude_html_selector_override {
        Some(s) => Some(s@),
        None => match config.global.exclude_html_selector {
            Some(s) => Some(s@),
            None => None,
        },
    }
}

/// What the parts of the HTML document `html` that `selector` picks hold,
/// once the parts `exclude` picks within them are taken out: `None` where
/// the selector does not parse, else the number of parts picked and their
/// nodes, part by part, in document order.
pub uninterp spec fn html_selection(html: Seq<char>, selector: Seq<char>, exclude: Option<Seq<char>>) -> Option<
    (int, Seq<HtmlNodeView>),
>;

/// A string that may be missing, taken by its view.
pub open spec fn opt_str_view(s: Option<&str>) -> Option<Seq<char>> {
    match s {
        Some(t) => Some(t@),
        None => None,
    }
}

/// Picks the parts of an HTML document and reads their nodes.
///
/// Calls `kuchiki::parse_html().one` on the text, `NodeRef::select` with
/// the selector on the document, and for each part picked `NodeRef::select`
/// with the exclusion selector, `NodeRef::detach` on what that yields, and
/// `NodeRef::inclusive_descendants`, reading each node's `id`, `title` and
/// `alt` attributes and text. The source shows that parsing and selecting
/// depend on the text and the selectors alone; what they give is named by
/// `html_selection`, and the HTML and CSS rules are not written out here.
#[verifier::external_body]
fn select_html_nodes(html: &str, selector: &str, exclude: Option<&str>) -> (r: Option<(usize, Vec<HtmlNode>)>)
    ensures
        picked_view(r) == html_selection(html@, selector@, opt_str_view(exclude)),
{
    let document = kuchiki::parse_html().one(html);
    let matches: Vec<NodeRef> = match document.select(selector) {
        Ok(found) => found.map(|m| m.as_node().clone()).collect(),
        Err(_) => return None,
    };
    let mut nodes = Vec::new();
    for m in matches.iter() {
        if let Some(Ok(excluded)) = exclude.map(|e| m.select(e)) {
            excluded.for_each(|x| x.as_node().detach());
        }
        nodes.extend(m.inclusive_descendants().map(|n| node_data(&n)));
    }
    Some((matches.len(), nodes))
}

/// The words of an HTML document: those of the parts the selector picks,
/// without the parts the exclusion selector picks, each annotated with the
/// id of the nearest element with an id before it. `SelectorNotPresent`
/// where the selector parses to nothing or picks nothing, `EmptyWordList`
/// where the parts hold no words.
pub fn generate_html(config: &ReaderConfig, read_result: &ReadResult) -> (r: Result<AnnotatedWordList, WordListGenerationError>)
    ensures
        html_outcome(
            list_view(r),
            html_selector(*config),
            html_selection(read_result.buffer@, html_selector(*config), exclude_selector(*config)),
        ),
        match r {
            Ok(list) => list.word_list@.len() > 0 && html_words_well_formed(list.word_list@),
            Err(WordListGenerationError::SelectorNotPresent(s)) => s@ == html_selector(*config),
            Err(e) => e == WordListGenerationError::EmptyWordList,
        },
{
    let selector: String = match &config.file.html_selector_override {
        Some(s) => copy_string(s),
        None => match &config.global.html_selector {
            Some(s) => copy_string(s),
            None => "main".to_owned(),
        },
    };
    proof {
        reveal_strlit("main");
    }
    assert(selector@ == html_selector(*config));
    let exclude: Option<&str> = match &config.file.exclude_html_selector_override {
        Some(s) => Some(s.as_str()),
        None => match &config.global.exclude_html_selector {
            Some(s) => Some(s.as_str()),
            None => None,
        },
    };
    assert(opt_str_view(exclude) == exclude_selector(*config));
    let picked = select_html_nodes(read_result.buffer.as_str(), selector.as_str(), exclude);
    let ghost pv = picked_view(picked);
    let r = html_words_from_selection(selector, picked);
    proof {
        if r is Ok {
            let list = r->Ok_0;
            let expected = node_words(pv->Some_0.1, 0, None);
            assert forall|i: int| 0 <= i < list.word_list@.len() implies (#[trigger] list.word_list@[i]).fields.pairs@.len()
                == 0 && (list.word_list@[i].internal_annotations@.len() == 0 || (
                list.word_list@[i].internal_annotations@.len() == 1
                    && list.word_list@[i].internal_annotations@[0] is NearestHtmlId)) by {
                assert(is_id_annotation(list.word_list@[i].internal_annotations@, expected[i].1));
            }
        }
    }
    r
}

/// The HTML that a Markdown text renders to.
pub uninterp spec fn markdown_html(text: Seq<char>) -> Seq<char>;

/// Renders Markdown as HTML.
///
/// Calls `markdown::to_html`, which renders the text by the rules of that
/// crate's Markdown parser. The HTML depends on the text alone and is named
/// by `markdown_html`; the rendering rules are not written out here.
#[verifier::external_body]
fn markdown_to_html(text: &str) -> (r: String)
    ensures
        r@ == markdown_html(text@),
{
    markdown::to_html(text)
}

/// The HTML document a Markdown text is indexed as: its rendering inside a
/// `main` element.
pub open spec fn markdown_document(text: Seq<char>) -> Seq<char> {
    "<html><body><main>"@ + markdown_html(text) + "</main></body></html>"@
}

/// The words of a Markdown document: those of its rendering, read as HTML.
pub fn generate_markdown(config: &ReaderConfig, read_result: &ReadResult) -> (r: Result<AnnotatedWordList, WordListGenerationError>)
    ensures
        html_outcome(
            list_view(r),
            html_selector(*config),
            html_selection(markdown_document(read_result.buffer@), html_selector(*config), exclude_selector(*config)),
        ),
        match r {
            Ok(list) => list.word_list@.len() > 0 && html_words_well_formed(list.word_list@),
            Err(WordListGenerationError::SelectorNotPresent(s)) => s@ == html_selector(*config),
            Err(e) => e == WordListGenerationError::EmptyWordList,
        },
{
    let mut html = "<html><body><main>".to_owned();
    let rendered = markdown_to_html(read_result.buffer.as_str());
    push_str(&mut html, rendered.as_str());
    push_str(&mut html, "</main></body></html>");
    let html_read_result = ReadResult { buffer: html, filetype: read_result.filetype, frontmatter_fields: None };
    proof {
        assert(html_read_result.buffer@ =~= markdown_document(read_result.buffer@));
    }
    generate_html(config, &html_read_result)
}

/// The words of a read document, by its file type; `CannotDetermineFiletype`
/// where its type is not known.
pub fn create_word_list(config: &ReaderConfig, read_result: &ReadResult) -> (r: Result<AnnotatedWordList, WordListGenerationError>)
    ensures
        word_list_outcome(list_view(r), *config, read_result.filetype, read_result.buffer@),
        (read_result.filetype == Some(Filetype::HTML) || read_result.filetype == Some(Filetype::Markdown))
            ==> match r {
            Ok(list) => list.word_list@.len() > 0 && html_words_well_formed(list.word_list@),
            Err(WordListGenerationError::SelectorNotPresent(s)) => s@ == html_selector(*config),
            Err(e) => e == WordListGenerationError::EmptyWordList,
        },
{
    match read_result.filetype {
        Some(Filetype::PlainText) => generate_plain_text(read_result),
        Some(Filetype::SRTSubtitle) => generate_srt(config.global, read_result),
        Some(Filetype::HTML) => generate_html(config, read_result),
        Some(Filetype::Markdown) => generate_markdown(config, read_result),
        None => Err(WordListGenerationError::CannotDetermineFiletype),
    }
}

} // verus!
