//! Telling the file type of a document from its path or its media type.

use super::errors::WordListGenerationError;
use super::word_list_generators::ReadResult;
use crate::common::copy_string;
use crate::config::{DataSource, File, Filetype};
use crate::text::{ascii_lowercase, to_ascii_lowercase};
use vstd::prelude::*;

verus! {

/// The extension of the file a path names, as `Path::extension` finds it.
pub uninterp spec fn path_extension_of(path: Seq<char>) -> Option<Seq<char>>;

/// The extension of the file a path names.
///
/// Calls `std::path::Path::extension`, which its documentation describes as
/// the part of the file name after its last `.`, with no extension where the
/// path has no file name, the file name has no `.`, or its only `.` starts
/// it. The extension depends on the path alone and is named by
/// `path_extension_of`; the splitting of a path into components is not
/// written out here.
#[verifier::external_body]
fn path_extension(path: &str) -> (r: Option<String>)
    ensures
        match r {
            Some(e) => path_extension_of(path@) == Some(e@),
            None => path_extension_of(path@) is None,
        },
{
    std::path::Path::new(path).extension().and_then(|e| e.to_str()).map(|e| e.to_string())
}

/// The file type an extension names, whatever its ASCII case.
pub open spec fn filetype_of_extension(ext: Seq<char>) -> Option<Filetype> {
    let e = ascii_lowercase(ext);
    if e == "html"@ || e == "htm"@ {
        Some(Filetype::HTML)
    } else if e == "srt"@ {
        Some(Filetype::SRTSubtitle)
    } else if e == "txt"@ {
        Some(Filetype::PlainText)
    } else if e == "markdown"@ || e == "mdown"@ || e == "md"@ {
        Some(Filetype::Markdown)
    } else {
        None
    }
}

/// The file type a path names by its extension, if any.
pub fn get_filetype_from_path(path: &str) -> (r: Option<Filetype>)
    ensures
        r == match path_extension_of(path@) {
            Some(e) => filetype_of_extension(e),
            None => None,
        },
{
    let ext = match path_extension(path) {
        Some(e) => e,
        None => {
            return None;
        },
    };
    let e = to_ascii_lowercase(ext.as_str());
    if crate::text::string_eq_literal(&e, "html") || crate::text::string_eq_literal(&e, "htm") {
        Some(Filetype::HTML)
    } else if crate::text::string_eq_literal(&e, "srt") {
        Some(Filetype::SRTSubtitle)
    } else if crate::text::string_eq_literal(&e, "txt") {
        Some(Filetype::PlainText)
    } else if crate::text::string_eq_literal(&e, "markdown") || crate::text::string_eq_literal(&e, "mdown")
        || crate::text::string_eq_literal(&e, "md") {
        Some(Filetype::Markdown)
    } else {
        None
    }
}

/// The file type of a document read from `path`: the one its settings give,
/// else the one its path's extension names.
pub fn filetype_for_path(file: &File, path: &str) -> (r: Option<Filetype>)
    ensures
        r == match file.filetype {
            Some(t) => Some(t),
            None => match path_extension_of(path@) {
                Some(e) => filetype_of_extension(e),
                None => None,
            },
        },
{
    match file.filetype {
        Some(t) => Some(t),
        None => get_filetype_from_path(path),
    }
}

/// The read document of a file whose text is given in its settings: of the
/// file type they give, plain text where they give none; `None` for a file
/// read from elsewhere.
pub fn read_from_contents(file: &File) -> (r: Option<ReadResult>)
    ensures
        match file.explicit_source {
            Some(DataSource::Contents(c)) => r matches Some(rr) && rr.buffer == c && rr.filetype
                == Some(
                match file.filetype {
                    Some(t) => t,
                    None => Filetype::PlainText,
                },
            ) && rr.frontmatter_fields is None,
            _ => r is None,
        },
{
    match &file.explicit_source {
        Some(DataSource::Contents(c)) => {
            let filetype = match file.filetype {
                Some(t) => t,
                None => Filetype::PlainText,
            };
            Some(ReadResult { buffer: copy_string(c), filetype: Some(filetype), frontmatter_fields: None })
        },
        _ => None,
    }
}

/// The file type a media type names: `text/html` or `text/plain`, whatever
/// their ASCII case.
pub open spec fn filetype_of_media_type(top: Seq<char>, sub: Seq<char>) -> Option<Filetype> {
    if ascii_lowercase(top) != "text"@ {
        None
    } else {
        let s = ascii_lowercase(sub);
        if s == "html"@ {
            Some(Filetype::HTML)
        } else if s == "plain"@ {
            Some(Filetype::PlainText)
        } else {
            None
        }
    }
}

/// The file type of a fetched web page: the one its settings give, else the
/// one its media type (type and subtype) names; `UnknownContentType` where
/// neither tells.
pub open spec fn filetype_from_media(file: File, media_type: Option<(Seq<char>, Seq<char>)>) -> Result<
    Filetype,
    WordListGenerationError,
> {
    match file.filetype {
        Some(t) => Ok(t),
        None => match media_type {
            Some((top, sub)) => match filetype_of_media_type(top, sub) {
                Some(t) => Ok(t),
                None => Err(WordListGenerationError::UnknownContentType),
            },
            None => Err(WordListGenerationError::UnknownContentType),
        },
    }
}

/// The file type of a fetched web page: the one its settings give, else the
/// one its media type (type and subtype, where the response gave a valid
/// one) names; `UnknownContentType` where neither tells.
pub fn filetype_for_media_type(file: &File, media_type: Option<(String, String)>) -> (r: Result<
    Filetype,
    WordListGenerationError,
>)
    ensures
        r == filetype_from_media(
            *file,
            match media_type {
                Some((top, sub)) => Some((top@, sub@)),
                None => None,
            },
        ),
{
    if let Some(t) = file.filetype {
        return Ok(t);
    }
    match media_type {
        None => Err(WordListGenerationError::UnknownContentType),
        Some((top, sub)) => {
            let t = to_ascii_lowercase(top.as_str());
            if !crate::text::string_eq_literal(&t, "text") {
                return Err(WordListGenerationError::UnknownContentType);
            }
            let s = to_ascii_lowercase(sub.as_str());
            if crate::text::string_eq_literal(&s, "html") {
                Ok(Filetype::HTML)
            } else if crate::text::string_eq_literal(&s, "plain") {
                Ok(Filetype::PlainText)
            } else {
                Err(WordListGenerationError::UnknownContentType)
            }
        },
    }
}

/// The type and subtype of a media type, as `mime::Mime` parses it.
pub uninterp spec fn media_type_of(content_type: Seq<char>) -> Option<(Seq<char>, Seq<char>)>;

/// The type and subtype of a media type such as `text/html; charset=utf-8`.
///
/// Calls `FromStr` of `mime::Mime`, which parses a media type with its
/// parameters and refuses text that is not one; the type and subtype come
/// back in ASCII lowercase, without the suffix after a `+` or the
/// parameters. They depend on the text alone and are named by
/// `media_type_of`; the grammar of media types is not written out here.
#[verifier::external_body]
fn parse_media_type(content_type: &str) -> (r: Option<(String, String)>)
    ensures
        match r {
            Some((top, sub)) => media_type_of(content_type@) == Some((top@, sub@)),
            None => media_type_of(content_type@) is None,
        },
{
    match content_type.parse::<mime::Mime>() {
        Ok(m) => Some((m.type_().as_str().to_string(), m.subtype().as_str().to_string())),
        Err(_) => None,
    }
}

/// The file type of a fetched web page: the one its settings give, else the
/// one named by the media type of the `Content-Type` header the response
/// gave, where it gave one that parses; `UnknownContentType` where neither
/// tells.
pub fn filetype_for_content_type(file: &File, content_type: Option<&str>) -> (r: Result<
    Filetype,
    WordListGenerationError,
>)
    ensures
        r == filetype_from_media(
            *file,
            match content_type {
                Some(c) => media_type_of(c@),
                None => None,
            },
        ),
{
    let media_type = match content_type {
        Some(c) => parse_media_type(c),
        None => None,
    };
    filetype_for_media_type(file, media_type)
}

} // verus!
