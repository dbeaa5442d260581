//! Building an index of the third format from documents.
//!
//! Each document's words are normalized: lowercased, with ASCII punctuation
//! taken off both ends. Every word gets a container holding the places it
//! occurs; the containers of its prefixes and of the other words with the
//! same stem get an alias pointing back to it.

pub mod annotated_words_from_string;
pub mod data_source_readers;
pub mod errors;
pub mod fill_containers;
pub mod fill_intermediate_entries;
pub mod fill_stems;
pub mod frontmatter;
pub mod intermediate_entry;
pub mod nudger;
pub mod word_list_generators;

use errors::{DocumentError, IndexGenerationError, WordListGenerationError};
use fill_intermediate_entries::{
    entry_outcomes, errors_for, failed_count, failures, fill_intermediate_entries, lemma_read_or_failed,
    read_entries, recorded,
};
use word_list_generators::ReadResult;
use fill_containers::{fill_entries, stems_view};
use fill_stems::stem_entries;
use intermediate_entry::{word_views, IntermediateEntry};

use super::soundness::{lemma_containers_map_like, map_like};
use super::structs::{containers_view, word_texts, Entry, Index, PassthroughConfig, Container};
use crate::common::copy_string;
use crate::config::Config;
use crate::text::{join, is_ascii_punct, is_ascii_punctuation, lowercase, strip_end, strip_start, string_from_chars, chars_of, to_lowercase};
use vstd::prelude::*;

verus! {

/// `s` without the ASCII punctuation at either end.
pub open spec fn without_surrounding_punctuation(s: Seq<char>) -> Seq<char> {
    strip_end(strip_start(s, |c: char| is_ascii_punct(c)), |c: char| is_ascii_punct(c))
}

/// A word as the index keys it: lowercased, without surrounding ASCII
/// punctuation.
pub open spec fn normalize(word: Seq<char>) -> Seq<char> {
    without_surrounding_punctuation(lowercase(word))
}

/// Removes the ASCII punctuation at the start and at the end of `input`.
pub fn remove_surrounding_punctuation(input: &str) -> (r: String)
    ensures
        r@ == without_surrounding_punctuation(input@),
{
    let chars = chars_of(input);
    let n = chars.len();
    let mut start: usize = 0;
    assert(input@.skip(0) =~= input@);
    while start < n && is_ascii_punctuation(chars[start])
        invariant
            start <= n,
            n == input@.len(),
            chars@ == input@,
            strip_start(input@, |c: char| is_ascii_punct(c)) == strip_start(
                input@.skip(start as int),
                |c: char| is_ascii_punct(c),
            ),
        decreases n - start,
    {
        assert(input@.skip(start as int).drop_first() =~= input@.skip(start as int + 1));
        start = start + 1;
    }
    proof {
        if start < n {
            assert(input@.skip(start as int)[0] == input@[start as int]);
        } else {
            assert(input@.skip(start as int) =~= Seq::<char>::empty());
        }
    }
    let ghost front = input@.skip(start as int);
    let mut end: usize = n;
    while end > start && is_ascii_punctuation(chars[end - 1])
        invariant
            start <= end <= n,
            n == input@.len(),
            chars@ == input@,
            front == input@.skip(start as int),
            strip_end(front, |c: char| is_ascii_punct(c)) == strip_end(
                input@.subrange(start as int, end as int),
                |c: char| is_ascii_punct(c),
            ),
        decreases end - start,
    {
        assert(input@.subrange(start as int, end as int).drop_last() =~= input@.subrange(
            start as int,
            end as int - 1,
        ));
        end = end - 1;
    }
    proof {
        assert(front =~= input@.subrange(start as int, n as int));
        if end > start {
            assert(input@.subrange(start as int, end as int).last() == input@[end - 1]);
        } else {
            assert(input@.subrange(start as int, end as int) =~= Seq::<char>::empty());
        }
    }
    let r = string_from_chars(&chars.as_slice()[start..end]);
    assert(r@ =~= input@.subrange(start as int, end as int));
    r
}

/// A word as the index keys it.
pub fn normalize_word(word: &str) -> (r: String)
    ensures
        r@ == normalize(word@),
{
    let lower = to_lowercase(word);
    remove_surrounding_punctuation(lower.as_str())
}

/// The settings an index built under `config` carries to its searches.
pub open spec fn passthrough_of(config: Config) -> PassthroughConfig {
    PassthroughConfig {
        url_prefix: config.input.url_prefix,
        title_boost: config.input.title_boost,
        excerpt_buffer: config.output.excerpt_buffer,
        excerpts_per_result: config.output.excerpts_per_result,
        displayed_results_count: config.output.displayed_results_count,
    }
}

/// Whether `entries` are the indexed documents for the read documents `ies`:
/// each one's words joined with single spaces, and its title, URL and
/// fields.
pub open spec fn built_entries(entries: Seq<Entry>, ies: Seq<IntermediateEntry>) -> bool {
    &&& entries.len() == ies.len()
    &&& forall|i: int|
        0 <= i < ies.len() ==> (#[trigger] entries[i]).contents@ == join(
            word_texts(ies[i].contents.word_list@),
            seq![' '],
        ) && entries[i].title == ies[i].title && entries[i].url == ies[i].url
            && entries[i].fields.pairs@ == ies[i].fields.pairs@
}

/// Builds an index from the documents that were read: the settings it
/// carries to searches, the documents, and the containers of their words.
/// `NoValidFiles` where no document was read. The errors of the documents
/// that could not be read are handed back with the index.
pub fn build(
    config: &Config,
    intermediate_entries: Vec<IntermediateEntry>,
    document_errors: Vec<DocumentError>,
) -> (r: Result<(Index, Vec<DocumentError>), IndexGenerationError>)
    ensures
        intermediate_entries@.len() == 0 ==> (r matches Err(e) && e is NoValidFiles),
        intermediate_entries@.len() > 0 ==> (r matches Ok((index, errs)) && errs == document_errors
            && index.config == passthrough_of(*config) && built_entries(
            index.entries@,
            intermediate_entries@,
        ) && containers_view(index.containers@) == fill_entries(
            seq![],
            stem_entries(seq![], intermediate_entries@, 0),
            intermediate_entries@,
            0,
        )),
        r matches Ok((index, _)) ==> map_like(containers_view(index.containers@)),
{
    proof {
        lemma_containers_map_like(stem_entries(seq![], intermediate_entries@, 0), intermediate_entries@);
    }
    if intermediate_entries.len() == 0 {
        return Err(IndexGenerationError::NoValidFiles);
    }
    let mut stems: Vec<(String, Vec<String>)> = Vec::new();
    assert(stems_view(stems@) =~= Seq::<(Seq<char>, Seq<Seq<char>>)>::empty());
    fill_stems::fill_stems(&intermediate_entries, &mut stems);
    let mut containers: Vec<(String, Container)> = Vec::new();
    assert(containers_view(containers@) =~= Seq::<(Seq<char>, super::structs::ContainerView)>::empty());
    fill_containers::fill_containers(&intermediate_entries, &stems, &mut containers);
    let mut entries: Vec<Entry> = Vec::new();
    let mut i: usize = 0;
    while i < intermediate_entries.len()
        invariant
            i <= intermediate_entries@.len(),
            built_entries(entries@, intermediate_entries@.take(i as int)),
        decreases intermediate_entries@.len() - i,
    {
        let e = Entry::from_intermediate(&intermediate_entries[i]);
        let ghost prev = entries@;
        entries.push(e);
        proof {
            assert forall|q: int| 0 <= q < i + 1 implies (#[trigger] entries@[q]).contents@ == join(
                word_texts(intermediate_entries@.take(i as int + 1)[q].contents.word_list@),
                seq![' '],
            ) && entries@[q].title == intermediate_entries@.take(i as int + 1)[q].title
                && entries@[q].url == intermediate_entries@.take(i as int + 1)[q].url
                && entries@[q].fields.pairs@ == intermediate_entries@.take(i as int + 1)[q].fields.pairs@ by {
                if q < i {
                    assert(entries@[q] == prev[q]);
                    assert(intermediate_entries@.take(i as int + 1)[q] == intermediate_entries@.take(i as int)[q]);
                }
            }
        }
        i = i + 1;
    }
    assert(intermediate_entries@.take(intermediate_entries@.len() as int) =~= intermediate_entries@);
    let passthrough = PassthroughConfig {
        url_prefix: copy_string(&config.input.url_prefix),
        title_boost: config.input.title_boost,
        excerpt_buffer: config.output.excerpt_buffer,
        excerpts_per_result: config.output.excerpts_per_result,
        displayed_results_count: config.output.displayed_results_count,
    };
    Ok((Index { config: passthrough, entries, containers }, document_errors))
}

/// What building an index under `config` answers, the documents having
/// given the outcomes `os`: `NoFilesSpecified` where the configuration names
/// no document; where it asks to stop at the first document that could not
/// be read and one could not, that document's error alone; `NoValidFiles`
/// where no document was read; otherwise the index of the documents read, with the errors of the others
/// in order.
pub open spec fn build_outcome(
    config: Config,
    os: Seq<Result<IntermediateEntry, WordListGenerationError>>,
    r: Result<(Index, Vec<DocumentError>), IndexGenerationError>,
) -> bool {
    let ies = read_entries(os);
    if config.input.files@.len() == 0 {
        r matches Err(e) && e is NoFilesSpecified
    } else if config.input.break_on_file_error && failed_count(os) > 0 {
        r matches Err(IndexGenerationError::DocumentErrors(v)) && v@.len() == 1 && exists|k: int|
            #![trigger os[k]]
            0 <= k < os.len() && failed_count(os.take(k)) == 0 && os[k] is Err
                && v@[0].word_list_generation_error == os[k]->Err_0 && v@[0].file.same_as(
                config.input.files@[k],
            )
    } else if ies.len() == 0 {
        r matches Err(e) && e is NoValidFiles
    } else {
        r matches Ok((index, errs)) && errors_for(errs@, failures(os), config.input.files@)
            && index.config == passthrough_of(config) && built_entries(index.entries@, ies)
            && containers_view(index.containers@) == fill_entries(
            seq![],
            stem_entries(seq![], ies, 0),
            ies,
            0,
        )
    }
}

/// Builds an index from every document of the configuration, as `reads`
/// gave them: each turned into its words, the documents read indexed and
/// the errors of the others handed back with the index. Where it succeeds, every document is either indexed or
/// among the errors.
pub fn try_build(
    config: &Config,
    reads: Vec<Result<ReadResult, WordListGenerationError>>,
) -> (r: Result<(Index, Vec<DocumentError>), IndexGenerationError>)
    requires
        reads@.len() == config.input.files@.len(),
    ensures
        exists|os: Seq<Result<IntermediateEntry, WordListGenerationError>>|
            #[trigger] entry_outcomes(os, config.input, reads@) && build_outcome(*config, os, r),
        r matches Ok((index, errs)) ==> index.entries@.len() + errs@.len()
            == config.input.files@.len(),
{
    let ghost rd = reads@;
    let mut intermediate_entries: Vec<IntermediateEntry> = Vec::new();
    let mut document_errors: Vec<DocumentError> = Vec::new();
    let filled = fill_intermediate_entries(config, reads, &mut intermediate_entries, &mut document_errors);
    let ghost os = choose|os: Seq<Result<IntermediateEntry, WordListGenerationError>>|
        #[trigger] entry_outcomes(os, config.input, rd) && recorded(
            *config,
            os,
            Seq::<IntermediateEntry>::empty(),
            intermediate_entries@,
            Seq::<DocumentError>::empty(),
            document_errors@,
            filled,
        );
    proof {
        lemma_read_or_failed(os);
        assert(Seq::<IntermediateEntry>::empty() + read_entries(os) =~= read_entries(os));
        assert(document_errors@.skip(0) =~= document_errors@);
    }
    if let Err(e) = filled {
        proof {
            if e is DocumentErrors {
                let v = e->DocumentErrors_0;
                let k = choose|k: int|
                    #![trigger os[k]]
                    0 <= k < os.len() && failed_count(os.take(k)) == 0 && os[k] is Err
                        && v@[0].word_list_generation_error == os[k]->Err_0 && v@[0].file.same_as(
                        config.input.files@[k],
                    ) && intermediate_entries@ == Seq::<IntermediateEntry>::empty() + read_entries(
                        os.take(k),
                    );
                assert(os[k] is Err);
            }
        }
        return Err(e);
    }
    build(config, intermediate_entries, document_errors)
}

/// Stripping from the start leaves no character that satisfies `p` first.
pub proof fn lemma_strip_start(s: Seq<char>, p: spec_fn(char) -> bool)
    ensures
        strip_start(s, p).len() > 0 ==> !p(strip_start(s, p)[0]),
        strip_start(strip_start(s, p), p) == strip_start(s, p),
        strip_start(s, p).len() <= s.len(),
        strip_start(s, p) == s.skip(s.len() - strip_start(s, p).len()),
    decreases s.len(),
{
    if s.len() > 0 && p(s[0]) {
        lemma_strip_start(s.drop_first(), p);
        assert(s.drop_first().skip(s.drop_first().len() - strip_start(s, p).len()) =~= s.skip(
            s.len() - strip_start(s, p).len(),
        ));
    } else {
        assert(s.skip(0) =~= s);
    }
}

/// Stripping from the end leaves no character that satisfies `p` last.
pub proof fn lemma_strip_end(s: Seq<char>, p: spec_fn(char) -> bool)
    ensures
        strip_end(s, p).len() > 0 ==> !p(strip_end(s, p).last()),
        strip_end(strip_end(s, p), p) == strip_end(s, p),
        strip_end(s, p).len() <= s.len(),
        strip_end(s, p) == s.take(strip_end(s, p).len() as int),
    decreases s.len(),
{
    if s.len() > 0 && p(s.last()) {
        lemma_strip_end(s.drop_last(), p);
        assert(strip_end(s, p) == strip_end(s.drop_last(), p));
        assert(s.drop_last().take(strip_end(s, p).len() as int) =~= s.take(strip_end(s, p).len() as int));
    } else {
        assert(s.take(s.len() as int) =~= s);
    }
}

/// Stripping the end keeps what satisfies `p` at the start, when nothing
/// there did.
proof fn lemma_strip_end_keeps_start(s: Seq<char>, p: spec_fn(char) -> bool)
    requires
        s.len() > 0 ==> !p(s[0]),
    ensures
        strip_start(strip_end(s, p), p) == strip_end(s, p),
{
    lemma_strip_end(s, p);
    let t = strip_end(s, p);
    if t.len() > 0 {
        assert(t[0] == s.take(t.len() as int)[0]);
    }
}

/// A word without its surrounding punctuation neither starts nor ends with
/// ASCII punctuation, and taking the punctuation off again changes
/// nothing.
pub proof fn lemma_without_punctuation(s: Seq<char>)
    ensures
        ({
            let t = without_surrounding_punctuation(s);
            &&& t.len() > 0 ==> !is_ascii_punct(t[0]) && !is_ascii_punct(t.last())
            &&& without_surrounding_punctuation(t) == t
        }),
{
    let p = |c: char| is_ascii_punct(c);
    let a = strip_start(s, p);
    lemma_strip_start(s, p);
    lemma_strip_end(a, p);
    lemma_strip_end_keeps_start(a, p);
    let t = strip_end(a, p);
    if t.len() > 0 {
        assert(t[0] == a.take(t.len() as int)[0]);
    }
}

} // verus!
