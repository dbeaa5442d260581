//! Reading each document of a configuration into its words, and deciding
//! what a document that cannot be read does to the whole build.

use super::errors::{DocumentError, IndexGenerationError, WordListGenerationError};
use super::intermediate_entry::IntermediateEntry;
use super::annotated_words_from_string::{annotated_word_texts, texts_of};
use super::frontmatter::frontmatter_result;
use super::word_list_generators::{create_word_list, word_list_outcome, ReadResult, ReaderConfig};
use super::super::structs::{AnnotatedWord, AnnotatedWordList};
use crate::common::copy_string;
use crate::text::{concat, concat_first, grapheme_clusters, graphemes, push_str};
use crate::config::{Config, File, Filetype, InputConfig, StemmingConfig};
use crate::config::stemming_config::Algorithm;
use vstd::prelude::*;

verus! {

/// Whether `r` is what turning the document `file`, as `read` gave it, into
/// its words gives: a failed read keeps its error; otherwise the words its
/// file type gives of the text left after its frontmatter is handled, with
/// `EmptyWordList` where there are none, and an entry with the document's
/// title, URL, fields and stemming.
pub open spec fn entry_outcome(
    r: Result<IntermediateEntry, WordListGenerationError>,
    global: InputConfig,
    file: File,
    read: Result<ReadResult, WordListGenerationError>,
) -> bool {
    match read {
        Err(e) => r == Err::<IntermediateEntry, WordListGenerationError>(e),
        Ok(rr) => {
            let cfg = ReaderConfig { global: &global, file: &file };
            let text = frontmatter_result(cfg.frontmatter_handling(), rr.buffer@).1;
            match r {
                Ok(e) => {
                    &&& word_list_outcome(Ok(e.contents.word_list@), cfg, rr.filetype, text)
                    &&& e.contents.word_list@.len() > 0
                    &&& e.title == file.title
                    &&& e.url == file.url
                    &&& e.fields.pairs@ == file.fields.pairs@
                    &&& e.stem_algorithm == match cfg.stemming() {
                        StemmingConfig::Language(a) => Some(a),
                        StemmingConfig::Disabled => None::<Algorithm>,
                    }
                },
                Err(e) => word_list_outcome(Err(e), cfg, rr.filetype, text) || (e
                    == WordListGenerationError::EmptyWordList && word_list_outcome(
                    Ok(Seq::<AnnotatedWord>::empty()),
                    cfg,
                    rr.filetype,
                    text,
                )),
            }
        },
    }
}

/// A document as read, turned into its words: its frontmatter handled as
/// the settings ask, its words read by its file type. `EmptyWordList` where
/// it has no words; a read that failed keeps its error.
pub fn intermediate_entry_for(
    global: &InputConfig,
    file: &File,
    read: Result<ReadResult, WordListGenerationError>,
) -> (r: Result<IntermediateEntry, WordListGenerationError>)
    ensures
        entry_outcome(r, *global, *file, read),
{
    let read_result = match read {
        Ok(rr) => rr,
        Err(e) => {
            return Err(e);
        },
    };
    let reader_config = ReaderConfig { global, file };
    let with_frontmatter = read_result.extract_frontmatter(&reader_config);
    let annotated_word_list: AnnotatedWordList = match create_word_list(&reader_config, &with_frontmatter) {
        Ok(l) => l,
        Err(e) => {
            return Err(e);
        },
    };
    if annotated_word_list.word_list.len() == 0 {
        proof {
            assert(annotated_word_list.word_list@ =~= Seq::<AnnotatedWord>::empty());
        }
        return Err(WordListGenerationError::EmptyWordList);
    }
    Ok(
        IntermediateEntry {
            contents: annotated_word_list,
            stem_algorithm: reader_config.get_stem_algorithm(),
            title: copy_string(&file.title),
            url: copy_string(&file.url),
            fields: file.fields.copy(),
        },
    )
}

/// Whether there is a document to build from: `NoFilesSpecified` where the
/// configuration names none.
pub fn check_files(config: &Config) -> (r: Option<IndexGenerationError>)
    ensures
        r is Some <==> config.input.files@.len() == 0,
        r matches Some(e) ==> e is NoFilesSpecified,
{
    if config.input.files.len() == 0 {
        Some(IndexGenerationError::NoFilesSpecified)
    } else {
        None
    }
}

/// Records what reading document `file_index` gave. A document that was
/// read joins `entries`; one that was not joins `errors`, unless the
/// configuration asks to stop at the first such document, in which case the
/// build fails with it alone and the lists stay as they were.
pub fn record_document(
    config: &Config,
    file_index: usize,
    outcome: Result<IntermediateEntry, WordListGenerationError>,
    entries: &mut Vec<IntermediateEntry>,
    errors: &mut Vec<DocumentError>,
) -> (r: Option<IndexGenerationError>)
    requires
        file_index < config.input.files@.len(),
    ensures
        match outcome {
            Ok(ie) => r is None && final(entries)@ == old(entries)@.push(ie) && final(errors)@ == old(
                errors,
            )@,
            Err(e) => final(entries)@ == old(entries)@ && if config.input.break_on_file_error {
                &&& final(errors)@ == old(errors)@
                &&& r matches Some(IndexGenerationError::DocumentErrors(v)) && v@.len() == 1
                    && v@[0].word_list_generation_error == e && v@[0].file.same_as(
                    config.input.files@[file_index as int],
                )
            } else {
                &&& r is None
                &&& final(errors)@.len() == old(errors)@.len() + 1
                &&& final(errors)@.drop_last() == old(errors)@
                &&& final(errors)@.last().word_list_generation_error == e
                &&& final(errors)@.last().file.same_as(config.input.files@[file_index as int])
            },
        },
{
    match outcome {
        Ok(ie) => {
            entries.push(ie);
            None
        },
        Err(e) => {
            let document_error = DocumentError {
                file: config.input.files[file_index].copy(),
                word_list_generation_error: e,
            };
            if config.input.break_on_file_error {
                let mut v: Vec<DocumentError> = Vec::new();
                v.push(document_error);
                Some(IndexGenerationError::DocumentErrors(v))
            } else {
                errors.push(document_error);
                assert(errors@.drop_last() =~= old(errors)@);
                None
            }
        },
    }
}

/// The documents that were read, in order.
pub open spec fn read_entries(outcomes: Seq<Result<IntermediateEntry, WordListGenerationError>>) -> Seq<
    IntermediateEntry,
>
    decreases outcomes.len(),
{
    if outcomes.len() == 0 {
        seq![]
    } else {
        let rest = read_entries(outcomes.drop_last());
        match outcomes.last() {
            Ok(ie) => rest.push(ie),
            Err(_) => rest,
        }
    }
}

/// How many documents could not be read.
pub open spec fn failed_count(outcomes: Seq<Result<IntermediateEntry, WordListGenerationError>>) -> nat
    decreases outcomes.len(),
{
    if outcomes.len() == 0 {
        0
    } else {
        failed_count(outcomes.drop_last()) + if outcomes.last() is Err {
            1nat
        } else {
            0nat
        }
    }
}

/// The positions and errors of the documents that could not be read, in
/// order.
pub open spec fn failures(outcomes: Seq<Result<IntermediateEntry, WordListGenerationError>>) -> Seq<
    (int, WordListGenerationError),
>
    decreases outcomes.len(),
{
    if outcomes.len() == 0 {
        seq![]
    } else {
        let rest = failures(outcomes.drop_last());
        match outcomes.last() {
            Ok(_) => rest,
            Err(e) => rest.push((outcomes.len() - 1, e)),
        }
    }
}

/// Whether `errs` records the failures `fs`, one by one, each with the file
/// of its position among `files`.
pub open spec fn errors_for(
    errs: Seq<DocumentError>,
    fs: Seq<(int, WordListGenerationError)>,
    files: Seq<File>,
) -> bool {
    &&& errs.len() == fs.len()
    &&& forall|i: int|
        0 <= i < errs.len() ==> (#[trigger] errs[i]).word_list_generation_error == fs[i].1 && errs[i].file.same_as(
            files[fs[i].0],
        )
}

/// How many documents could not be read is how many failures there are.
pub proof fn lemma_failed_count_failures(outcomes: Seq<Result<IntermediateEntry, WordListGenerationError>>)
    ensures
        failed_count(outcomes) == failures(outcomes).len(),
    decreases outcomes.len(),
{
    if outcomes.len() > 0 {
        lemma_failed_count_failures(outcomes.drop_last());
    }
}

/// Whether `os` are the outcomes of turning the documents of `global`, as
/// `reads` gave them, into their words, one for each document and in the
/// documents' order.
pub open spec fn entry_outcomes(
    os: Seq<Result<IntermediateEntry, WordListGenerationError>>,
    global: InputConfig,
    reads: Seq<Result<ReadResult, WordListGenerationError>>,
) -> bool {
    &&& os.len() == reads.len()
    &&& os.len() <= global.files@.len()
    &&& forall|k: int|
        0 <= k < os.len() ==> entry_outcome(#[trigger] os[k], global, global.files@[k], reads[k])
}

/// Whether recording the outcomes `os`, in order, took the entries from
/// `entries0` to `entries1` and the errors from `errors0` to `errors1`, and
/// answered `r`: the documents read join the entries, the others join the
/// errors, unless the configuration asks to stop at the first document that
/// could not be read; then the build fails with that document alone, the
/// documents read before it having joined the entries. `NoFilesSpecified`
/// where the configuration names no document.
pub open spec fn recorded(
    config: Config,
    os: Seq<Result<IntermediateEntry, WordListGenerationError>>,
    entries0: Seq<IntermediateEntry>,
    entries1: Seq<IntermediateEntry>,
    errors0: Seq<DocumentError>,
    errors1: Seq<DocumentError>,
    r: Result<(), IndexGenerationError>,
) -> bool {
    &&& config.input.files@.len() == 0 ==> (r matches Err(e) && e is NoFilesSpecified) && entries1
        == entries0 && errors1 == errors0
    &&& r is Ok ==> {
        &&& config.input.files@.len() > 0
        &&& entries1 == entries0 + read_entries(os)
        &&& errors1.len() == errors0.len() + failed_count(os)
        &&& errors1.take(errors0.len() as int) == errors0
        &&& errors_for(errors1.skip(errors0.len() as int), failures(os), config.input.files@)
        &&& config.input.break_on_file_error ==> failed_count(os) == 0
    }
    &&& r matches Err(IndexGenerationError::DocumentErrors(v)) ==> {
        &&& config.input.break_on_file_error
        &&& config.input.files@.len() > 0
        &&& failed_count(os) > 0
        &&& v@.len() == 1
        &&& errors1 == errors0
        &&& exists|k: int|
            #![trigger os[k]]
            0 <= k < os.len() && failed_count(os.take(k)) == 0 && os[k] is Err
                && v@[0].word_list_generation_error == os[k]->Err_0 && v@[0].file.same_as(
                config.input.files@[k],
            ) && entries1 == entries0 + read_entries(os.take(k))
    }
    &&& r is Err ==> (r matches Err(IndexGenerationError::DocumentErrors(_)))
        || config.input.files@.len() == 0
}

/// Every outcome is either a document read or one that could not be.
pub proof fn lemma_read_or_failed(os: Seq<Result<IntermediateEntry, WordListGenerationError>>)
    ensures
        read_entries(os).len() + failed_count(os) == os.len(),
    decreases os.len(),
{
    if os.len() > 0 {
        lemma_read_or_failed(os.drop_last());
    }
}

/// Turns every document of the configuration, as `reads` gave it, into its
/// words, and records the outcomes in the documents' order: the documents
/// read join `intermediate_entries`, the others join `document_errors`,
/// unless the configuration asks to stop at the first document that could
/// not be read; then the build fails with that document alone.
/// `NoFilesSpecified` where the configuration names no document. Where it
/// succeeds, every document has joined the one list or the other.
#[verifier::loop_isolation(false)]
pub fn fill_intermediate_entries(
    config: &Config,
    reads: Vec<Result<ReadResult, WordListGenerationError>>,
    intermediate_entries: &mut Vec<IntermediateEntry>,
    document_errors: &mut Vec<DocumentError>,
) -> (r: Result<(), IndexGenerationError>)
    requires
        reads@.len() == config.input.files@.len(),
    ensures
        exists|os: Seq<Result<IntermediateEntry, WordListGenerationError>>|
            #[trigger] entry_outcomes(os, config.input, reads@) && recorded(
                *config,
                os,
                old(intermediate_entries)@,
                final(intermediate_entries)@,
                old(document_errors)@,
                final(document_errors)@,
                r,
            ),
        r is Ok ==> final(intermediate_entries)@.len() - old(intermediate_entries)@.len()
            + final(document_errors)@.len() - old(document_errors)@.len() == config.input.files@.len(),
{
    let ghost all_reads = reads@;
    let mut remaining = reads;
    let mut outcomes: Vec<Result<IntermediateEntry, WordListGenerationError>> = Vec::new();
    let n = remaining.len();
    let mut k: usize = 0;
    while k < n
        invariant
            k <= n,
            n == all_reads.len(),
            n == config.input.files@.len(),
            remaining@ == all_reads.skip(k as int),
            outcomes@.len() == k,
            forall|j: int|
                0 <= j < k ==> entry_outcome(
                    #[trigger] outcomes@[j],
                    config.input,
                    config.input.files@[j],
                    all_reads[j],
                ),
        decreases n - k,
    {
        let read = remaining.remove(0);
        proof {
            assert(read == all_reads[k as int]);
            assert(all_reads.skip(k as int).drop_first() =~= all_reads.skip(k as int + 1));
        }
        let outcome = intermediate_entry_for(&config.input, &config.input.files[k], read);
        outcomes.push(outcome);
        k = k + 1;
    }
    let ghost os = outcomes@;
    assert(entry_outcomes(os, config.input, all_reads));
    let r = record_outcomes(config, outcomes, intermediate_entries, document_errors);
    proof {
        lemma_read_or_failed(os);
    }
    r
}

/// Records the outcomes of reading the documents, in order.
#[verifier::loop_isolation(false)]
fn record_outcomes(
    config: &Config,
    outcomes: Vec<Result<IntermediateEntry, WordListGenerationError>>,
    intermediate_entries: &mut Vec<IntermediateEntry>,
    document_errors: &mut Vec<DocumentError>,
) -> (r: Result<(), IndexGenerationError>)
    requires
        outcomes@.len() <= config.input.files@.len(),
    ensures
        recorded(
            *config,
            outcomes@,
            old(intermediate_entries)@,
            final(intermediate_entries)@,
            old(document_errors)@,
            final(document_errors)@,
            r,
        ),
{
    if let Some(e) = check_files(config) {
        return Err(e);
    }
    let ghost all = outcomes@;
    let ghost start_entries = intermediate_entries@;
    let ghost start_errors = document_errors@;
    let mut remaining = outcomes;
    let n = remaining.len();
    let mut i: usize = 0;
    while i < n
        invariant
            i <= n,
            n == all.len(),
            all == outcomes@,
            remaining@ == all.skip(i as int),
            n <= config.input.files@.len(),
            intermediate_entries@ == start_entries + read_entries(all.take(i as int)),
            document_errors@.len() == start_errors.len() + failed_count(all.take(i as int)),
            document_errors@.take(start_errors.len() as int) == start_errors,
            errors_for(
                document_errors@.skip(start_errors.len() as int),
                failures(all.take(i as int)),
                config.input.files@,
            ),
            config.input.break_on_file_error ==> failed_count(all.take(i as int)) == 0,
        decreases n - i,
    {
        let outcome = remaining.remove(0);
        proof {
            assert(outcome == all[i as int]);
            assert(all.take(i as int + 1).drop_last() =~= all.take(i as int));
            assert(all.take(i as int + 1).last() == all[i as int]);
            assert(all.skip(i as int).drop_first() =~= all.skip(i as int + 1));
        }
        let ghost errs_before = document_errors@;
        if let Some(e) = record_document(config, i, outcome, intermediate_entries, document_errors) {
            proof {
                assert(all[i as int] is Err);
                assert(failed_count(all.take(i as int + 1)) == failed_count(all.take(i as int)) + 1);
                lemma_failed_prefix(all, i as int + 1);
                lemma_failed_count_failures(all.take(i as int));
                assert(document_errors@ =~= start_errors) by {
                    assert(errs_before.len() == start_errors.len());
                    assert(errs_before =~= errs_before.take(start_errors.len() as int));
                }
                assert(outcomes@[i as int] == all[i as int]);
            }
            return Err(e);
        }
        proof {
            assert(start_entries + read_entries(all.take(i as int)) + (match all[i as int] {
                Ok(ie) => seq![ie],
                Err(_) => Seq::<IntermediateEntry>::empty(),
            }) =~= start_entries + read_entries(all.take(i as int + 1)));
            let fs = failures(all.take(i as int + 1));
            let tail = document_errors@.skip(start_errors.len() as int);
            match all[i as int] {
                Ok(_) => {
                    assert(document_errors@ == errs_before);
                },
                Err(er) => {
                    assert(document_errors@.drop_last() == errs_before);
                    assert(document_errors@.take(start_errors.len() as int) =~= errs_before.take(
                        start_errors.len() as int,
                    ));
                    assert(tail.drop_last() =~= errs_before.skip(start_errors.len() as int));
                    assert(fs == failures(all.take(i as int)).push((i as int, er)));
                    assert forall|q: int| 0 <= q < tail.len() implies (#[trigger] tail[q]).word_list_generation_error
                        == fs[q].1 && tail[q].file.same_as(config.input.files@[fs[q].0]) by {
                        if q < tail.len() - 1 {
                            assert(tail[q] == tail.drop_last()[q]);
                            assert(fs[q] == failures(all.take(i as int))[q]);
                        } else {
                            assert(tail[q] == document_errors@.last());
                        }
                    }
                },
            }
        }
        i = i + 1;
    }
    assert(all.take(n as int) =~= all);
    Ok(())
}

/// Documents that failed among the first `k` also failed among all.
pub proof fn lemma_failed_prefix(outcomes: Seq<Result<IntermediateEntry, WordListGenerationError>>, k: int)
    requires
        0 <= k <= outcomes.len(),
    ensures
        failed_count(outcomes.take(k)) <= failed_count(outcomes),
    decreases outcomes.len(),
{
    if k < outcomes.len() {
        assert(outcomes.drop_last().take(k) =~= outcomes.take(k));
        lemma_failed_prefix(outcomes.drop_last(), k);
    } else {
        assert(outcomes.take(k) =~= outcomes);
    }
}

/// A name cut to `length` grapheme clusters, with `ellipsis` (`...` where
/// none is given) added where something was cut.
pub open spec fn truncated(s: Seq<char>, length: int, ellipsis: Option<Seq<char>>) -> Seq<char> {
    let gs = grapheme_clusters(s);
    let short = concat(gs.take(if length < gs.len() { length } else { gs.len() as int }));
    let long = concat(gs.take(if length + 1 < gs.len() { length + 1 } else { gs.len() as int }));
    let e = match ellipsis {
        Some(e) => e,
        None => "..."@,
    };
    if short != long {
        short + e
    } else {
        short
    }
}

/// Cuts a name to `length` grapheme clusters for display, adding an
/// ellipsis where something was cut.
pub fn truncate_with_ellipsis_to_length(string: &str, length: usize, ellipsis_override: Option<&str>) -> (r:
    String)
    requires
        length < usize::MAX,
    ensures
        r@ == truncated(string@, length as int, match ellipsis_override {
            Some(e) => Some(e@),
            None => None,
        }),
        grapheme_clusters(string@).len() <= length ==> r@ == string@,
{
    let gs = graphemes(string);
    proof {
        if gs@.len() <= length {
            assert(crate::text::views(gs@).take(gs@.len() as int) =~= crate::text::views(gs@));
        }
    }
    let short = concat_first(&gs, length);
    let long = concat_first(&gs, length + 1);
    let mut out = copy_string(&short);
    if short != long {
        match ellipsis_override {
            Some(e) => push_str(&mut out, e),
            None => push_str(&mut out, "..."),
        }
    }
    out
}

} // verus!
