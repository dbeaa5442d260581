//! Why a document or a whole index could not be built.

use crate::common::copy_string;
use crate::config::File;
use crate::text::{decimal, decimal_string, push_str};
use vstd::prelude::*;

verus! {

/// Why the words of a document could not be read.
#[derive(Debug, PartialEq, Eq)]
pub enum WordListGenerationError {
    InvalidSRT,
    FileNotFound,
    CannotDetermineFiletype,
    SelectorNotPresent(String),
    WebPageNotFetched,
    UnknownContentType,
    EmptyWordList,
}

/// The message for an error reading a document's words.
pub open spec fn word_list_message(e: WordListGenerationError) -> Seq<char> {
    match e {
        WordListGenerationError::InvalidSRT => "SRT file could not be parsed"@,
        WordListGenerationError::SelectorNotPresent(s) => "HTML selector `"@ + s@
            + "` is not present in the file"@,
        WordListGenerationError::FileNotFound => "The file could not be found"@,
        WordListGenerationError::CannotDetermineFiletype => "Could not determine the filetype. Please use a known file extension or disambiguate the filetype within your configuration file"@,
        WordListGenerationError::WebPageNotFetched => "The web page could not be fetched"@,
        WordListGenerationError::UnknownContentType => "Content-Type is not present or invalid"@,
        WordListGenerationError::EmptyWordList => "No words in word list"@,
    }
}

impl WordListGenerationError {
    /// The message for this error.
    pub fn to_string(&self) -> (r: String)
        ensures
            r@ == word_list_message(*self),
    {
        match self {
            WordListGenerationError::InvalidSRT => "SRT file could not be parsed".to_owned(),
            WordListGenerationError::SelectorNotPresent(s) => {
                let mut m = "HTML selector `".to_owned();
                push_str(&mut m, s.as_str());
                push_str(&mut m, "` is not present in the file");
                m
            },
            WordListGenerationError::FileNotFound => "The file could not be found".to_owned(),
            WordListGenerationError::CannotDetermineFiletype => "Could not determine the filetype. Please use a known file extension or disambiguate the filetype within your configuration file".to_owned(),
            WordListGenerationError::WebPageNotFetched => "The web page could not be fetched".to_owned(),
            WordListGenerationError::UnknownContentType => "Content-Type is not present or invalid".to_owned(),
            WordListGenerationError::EmptyWordList => "No words in word list".to_owned(),
        }
    }

    /// A copy of this error.
    pub fn copy(&self) -> (r: WordListGenerationError)
        ensures
            r == *self,
    {
        match self {
            WordListGenerationError::InvalidSRT => WordListGenerationError::InvalidSRT,
            WordListGenerationError::SelectorNotPresent(s) => WordListGenerationError::SelectorNotPresent(
                copy_string(s),
            ),
            WordListGenerationError::FileNotFound => WordListGenerationError::FileNotFound,
            WordListGenerationError::CannotDetermineFiletype => WordListGenerationError::CannotDetermineFiletype,
            WordListGenerationError::WebPageNotFetched => WordListGenerationError::WebPageNotFetched,
            WordListGenerationError::UnknownContentType => WordListGenerationError::UnknownContentType,
            WordListGenerationError::EmptyWordList => WordListGenerationError::EmptyWordList,
        }
    }
}

/// Why no index was built.
#[derive(Debug)]
pub enum IndexGenerationError {
    NoFilesSpecified,
    NoValidFiles,
    DocumentErrors(Vec<DocumentError>),
}

/// A document that could not be indexed, and why.
#[derive(Debug)]
pub struct DocumentError {
    pub file: File,
    pub word_list_generation_error: WordListGenerationError,
}

/// The message for a document that could not be indexed: the error, then
/// the file on an indented line.
pub open spec fn document_error_message(e: DocumentError) -> Seq<char> {
    "- "@ + word_list_message(e.word_list_generation_error) + "\n  "@ + e.file.display_name_spec()
}

/// The messages of documents that could not be indexed, one per line.
pub open spec fn document_error_lines(es: Seq<DocumentError>) -> Seq<char>
    decreases es.len(),
{
    if es.len() == 0 {
        seq![]
    } else if es.len() == 1 {
        document_error_message(es[0])
    } else {
        document_error_lines(es.drop_last()) + "\n"@ + document_error_message(es.last())
    }
}

/// The message for a build that failed.
pub open spec fn index_generation_message(e: IndexGenerationError) -> Seq<char> {
    match e {
        IndexGenerationError::NoFilesSpecified => "No files specified in config file"@,
        IndexGenerationError::NoValidFiles => "No files could be indexed"@,
        IndexGenerationError::DocumentErrors(v) => decimal(v@.len()) + " "@ + (if v@.len() == 1 {
            "error"@
        } else {
            "errors"@
        }) + " found while indexing files. If you want to fail silently and still build an index, remove `break_on_file_error` from your config.\n"@
            + document_error_lines(v@),
    }
}

impl DocumentError {
    /// The message for this document.
    pub fn to_string(&self) -> (r: String)
        ensures
            r@ == document_error_message(*self),
    {
        let mut m = "- ".to_owned();
        let e = self.word_list_generation_error.to_string();
        push_str(&mut m, e.as_str());
        push_str(&mut m, "\n  ");
        let f = self.file.display_name();
        push_str(&mut m, f.as_str());
        m
    }
}

impl IndexGenerationError {
    /// The message for this failed build.
    pub fn to_string(&self) -> (r: String)
        ensures
            r@ == index_generation_message(*self),
    {
        match self {
            IndexGenerationError::NoFilesSpecified => "No files specified in config file".to_owned(),
            IndexGenerationError::NoValidFiles => "No files could be indexed".to_owned(),
            IndexGenerationError::DocumentErrors(v) => {
                let mut m = decimal_string(v.len() as u64);
                push_str(&mut m, " ");
                if v.len() == 1 {
                    push_str(&mut m, "error");
                } else {
                    push_str(&mut m, "errors");
                }
                push_str(&mut m, " found while indexing files. If you want to fail silently and still build an index, remove `break_on_file_error` from your config.\n");
                let ghost head = m@;
                let mut i: usize = 0;
                while i < v.len()
                    invariant
                        i <= v@.len(),
                        m@ == head + document_error_lines(v@.take(i as int)),
                    decreases v@.len() - i,
                {
                    proof {
                        assert(v@.take(i as int + 1).drop_last() =~= v@.take(i as int));
                        assert(v@.take(i as int + 1).last() == v@[i as int]);
                    }
                    if i > 0 {
                        push_str(&mut m, "\n");
                    }
                    let line = v[i].to_string();
                    push_str(&mut m, line.as_str());
                    proof {
                        if i == 0 {
                            assert(v@.take(1)[0] == v@[0]);
                        }
                    }
                    i = i + 1;
                }
                assert(v@.take(v@.len() as int) =~= v@);
                m
            },
        }
    }
}

} // verus!
