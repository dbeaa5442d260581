//! The version header of an index file.
//!
//! An index file starts with a frame: eight big-endian bytes giving the length
//! of a version string, then the version string itself. What follows depends
//! on the version.

use crate::bytes::{be_value, read_u64_be};
use crate::index_versions::{v2, v3};
use crate::index_versions::v2::reader::{v2_entries_of, v2_frames_fit, v2_queries_of};
use crate::index_versions::v3::reader::{v3_frames_fit, v3_payload_of};
use crate::text::{decimal, decimal_string, push_str, utf8_decode, string_eq_literal};
use vstd::prelude::*;
use vstd::utf8::{decode_utf8, valid_utf8};

verus! {

/// The index format versions this library knows.
#[derive(Debug, PartialEq, Eq, Structural, Clone, Copy)]
pub enum IndexVersion {
    V2,
    V3,
}

/// Which way a version size is out of range.
#[derive(Debug, PartialEq, Eq, Structural, Clone, Copy)]
pub enum VersionSizeProblem {
    Short,
    Long,
}

/// Why an index could not be parsed.
#[derive(Debug, PartialEq)]
pub enum IndexParseError {
    FileTooShort,
    BadVersionSize(u64, VersionSizeProblem),
    /// The version bytes, which are not valid UTF-8.
    VersionStringUtf8Error(Vec<u8>),
    UnknownVersionString(String),
    DecodeError(String),
}

/// An `IndexParseError` with its strings and bytes taken by their views.
pub enum IndexParseErrorView {
    FileTooShort,
    BadVersionSize(nat, VersionSizeProblem),
    VersionStringUtf8Error(Seq<u8>),
    UnknownVersionString(Seq<char>),
    DecodeError(Seq<char>),
}

impl View for IndexParseError {
    type V = IndexParseErrorView;

    open spec fn view(&self) -> IndexParseErrorView {
        match self {
            IndexParseError::FileTooShort => IndexParseErrorView::FileTooShort,
            IndexParseError::BadVersionSize(n, p) => IndexParseErrorView::BadVersionSize(
                *n as nat,
                *p,
            ),
            IndexParseError::VersionStringUtf8Error(b) => IndexParseErrorView::VersionStringUtf8Error(b@),
            IndexParseError::UnknownVersionString(s) => IndexParseErrorView::UnknownVersionString(s@),
            IndexParseError::DecodeError(s) => IndexParseErrorView::DecodeError(s@),
        }
    }
}

/// The version string of the second index format.
pub open spec fn v2_version_string() -> Seq<char> {
    seq!['s', 't', 'o', 'r', 'k', '-', '2']
}

/// The version string of the third index format.
pub open spec fn v3_version_string() -> Seq<char> {
    seq!['s', 't', 'o', 'r', 'k', '-', '3']
}

/// Which version a decoded version string names, if any.
pub open spec fn version_named(s: Seq<char>) -> Option<IndexVersion> {
    if s == v2_version_string() {
        Some(IndexVersion::V2)
    } else if s == v3_version_string() {
        Some(IndexVersion::V3)
    } else {
        None
    }
}

/// What the version header of `b` says: its version, or why it is not a
/// valid header.
pub open spec fn header_version(b: Seq<u8>) -> Result<IndexVersion, IndexParseErrorView> {
    if b.len() <= 8 {
        Err(IndexParseErrorView::FileTooShort)
    } else {
        let size = be_value(b.take(8));
        if size <= 1 {
            Err(IndexParseErrorView::BadVersionSize(size, VersionSizeProblem::Short))
        } else if size >= 32 {
            Err(IndexParseErrorView::BadVersionSize(size, VersionSizeProblem::Long))
        } else if b.len() <= 8 + size {
            Err(IndexParseErrorView::FileTooShort)
        } else {
            let vb = b.subrange(8, 8 + size as int);
            if !valid_utf8(vb) {
                Err(IndexParseErrorView::VersionStringUtf8Error(vb))
            } else {
                match version_named(decode_utf8(vb)) {
                    Some(v) => Ok(v),
                    None => Err(IndexParseErrorView::UnknownVersionString(decode_utf8(vb))),
                }
            }
        }
    }
}

/// A parse result taken by its view.
pub open spec fn version_result_view(r: Result<IndexVersion, IndexParseError>) -> Result<
    IndexVersion,
    IndexParseErrorView,
> {
    match r {
        Ok(v) => Ok(v),
        Err(e) => Err(e@),
    }
}

/// Reads the version header of an index file.
pub fn parse_index_version(index: &[u8]) -> (r: Result<IndexVersion, IndexParseError>)
    ensures
        version_result_view(r) == header_version(index@),
{
    if index.len() <= 8 {
        return Err(IndexParseError::FileTooShort);
    }
    let version_size = read_u64_be(index);
    if version_size <= 1 {
        return Err(IndexParseError::BadVersionSize(version_size, VersionSizeProblem::Short));
    }
    if version_size >= 32 {
        return Err(IndexParseError::BadVersionSize(version_size, VersionSizeProblem::Long));
    }
    let size = version_size as usize;
    if index.len() <= 8 + size {
        return Err(IndexParseError::FileTooShort);
    }
    let version_bytes = &index[8..8 + size];
    assert(version_bytes@ == index@.subrange(8, 8 + size as int));
    match utf8_decode(version_bytes) {
        Err(bytes) => Err(IndexParseError::VersionStringUtf8Error(bytes)),
        Ok(version) => {
            if string_eq_literal(&version, "stork-2") {
                proof { reveal_strlit("stork-2"); }
                assert(version@ == v2_version_string());
                Ok(IndexVersion::V2)
            } else if string_eq_literal(&version, "stork-3") {
                proof { reveal_strlit("stork-3"); }
                assert(version@ == v3_version_string());
                Ok(IndexVersion::V3)
            } else {
                proof {
                    reveal_strlit("stork-2");
                    reveal_strlit("stork-3");
                    assert(v2_version_string() =~= "stork-2"@);
                    assert(v3_version_string() =~= "stork-3"@);
                }
                Err(IndexParseError::UnknownVersionString(version))
            }
        }
    }
}

/// An index read from a file, in the format its header names.
#[derive(Debug)]
pub enum ParsedIndex {
    V2(v2::structs::Index),
    V3(v3::structs::Index),
}

/// The format of a parsed index.
pub open spec fn version_of(index: ParsedIndex) -> IndexVersion {
    match index {
        ParsedIndex::V2(_) => IndexVersion::V2,
        ParsedIndex::V3(_) => IndexVersion::V3,
    }
}

/// The version string a format is written with.
pub open spec fn version_string(v: IndexVersion) -> Seq<char> {
    match v {
        IndexVersion::V2 => v2_version_string(),
        IndexVersion::V3 => v3_version_string(),
    }
}

impl IndexVersion {
    /// The format of a parsed index.
    pub fn from_index(index: &ParsedIndex) -> (r: IndexVersion)
        ensures
            r == version_of(*index),
    {
        match index {
            ParsedIndex::V2(_) => IndexVersion::V2,
            ParsedIndex::V3(_) => IndexVersion::V3,
        }
    }

    /// The version string this format is written with.
    pub fn to_string(&self) -> (r: String)
        ensures
            r@ == version_string(*self),
    {
        proof {
            reveal_strlit("stork-2");
            reveal_strlit("stork-3");
        }
        match self {
            IndexVersion::V2 => {
                let r = v2::VERSION_STRING.to_owned();
                assert(r@ =~= v2_version_string());
                r
            },
            IndexVersion::V3 => {
                let r = v3::VERSION_STRING.to_owned();
                assert(r@ =~= v3_version_string());
                r
            },
        }
    }
}

impl VersionSizeProblem {
    /// The word for the problem: `short` or `long`.
    pub fn to_string(&self) -> (r: String)
        ensures
            r@ == match *self {
                VersionSizeProblem::Short => seq!['s', 'h', 'o', 'r', 't'],
                VersionSizeProblem::Long => seq!['l', 'o', 'n', 'g'],
            },
    {
        proof {
            reveal_strlit("short");
            reveal_strlit("long");
        }
        match self {
            VersionSizeProblem::Short => {
                let r = "short".to_owned();
                assert(r@ =~= seq!['s', 'h', 'o', 'r', 't']);
                r
            },
            VersionSizeProblem::Long => {
                let r = "long".to_owned();
                assert(r@ =~= seq!['l', 'o', 'n', 'g']);
                r
            },
        }
    }
}

/// What is sent along with a registered index: its version string.
#[derive(Debug)]
pub struct IndexMetadata {
    pub index_version: String,
}

impl IndexMetadata {
    /// The metadata of a parsed index.
    pub fn from_index(index: &ParsedIndex) -> (r: IndexMetadata)
        ensures
            r.index_version@ == version_string(version_of(*index)),
    {
        IndexMetadata { index_version: IndexVersion::from_index(index).to_string() }
    }
}

/// The encoded parts of an index file, by format.
#[derive(Debug)]
pub enum IndexPayload {
    /// The encoded documents and the encoded word containers.
    V2 { entries: Vec<u8>, queries: Vec<u8> },
    /// The encoded index.
    V3(Vec<u8>),
}

/// Whether the frames that the header of `b` calls for fit in `b`; a file
/// whose header is not valid needs none.
pub open spec fn payload_frames_fit(b: Seq<u8>) -> bool {
    match header_version(b) {
        Ok(IndexVersion::V2) => v2_frames_fit(b),
        Ok(IndexVersion::V3) => v3_frames_fit(b),
        Err(_) => true,
    }
}

/// Whether the frames that the header of `index` calls for fit.
pub fn index_frames_fit(index: &[u8]) -> (r: bool)
    ensures
        r == payload_frames_fit(index@),
{
    match parse_index_version(index) {
        Ok(IndexVersion::V2) => v2::reader::frames_fit(index),
        Ok(IndexVersion::V3) => v3::reader::payload_fits(index),
        Err(_) => true,
    }
}

/// Reads the header of an index file and the encoded parts its format
/// holds, or says why the header is not valid.
pub fn read_index_payload(index: &[u8]) -> (r: Result<IndexPayload, IndexParseError>)
    requires
        payload_frames_fit(index@),
    ensures
        match r {
            Ok(IndexPayload::V2 { entries, queries }) => header_version(index@) == Ok::<
                IndexVersion,
                IndexParseErrorView,
            >(IndexVersion::V2) && entries@ == v2_entries_of(index@) && queries@ == v2_queries_of(
                index@,
            ),
            Ok(IndexPayload::V3(p)) => header_version(index@) == Ok::<
                IndexVersion,
                IndexParseErrorView,
            >(IndexVersion::V3) && p@ == v3_payload_of(index@),
            Err(e) => header_version(index@) == Err::<IndexVersion, IndexParseErrorView>(e@),
        },
{
    match parse_index_version(index) {
        Ok(IndexVersion::V2) => {
            let (entries, queries) = v2::reader::read_parts(index);
            Ok(IndexPayload::V2 { entries, queries })
        },
        Ok(IndexVersion::V3) => Ok(IndexPayload::V3(v3::reader::read_payload(index))),
        Err(e) => Err(e),
    }
}

/// The bytes of a list as Rust's `{:?}` writes them: in brackets, in
/// decimal, separated by `, `.
pub open spec fn byte_items(b: Seq<u8>) -> Seq<char>
    decreases b.len(),
{
    if b.len() == 0 {
        seq![]
    } else if b.len() == 1 {
        decimal(b[0] as nat)
    } else {
        byte_items(b.drop_last()) + ", "@ + decimal(b.last() as nat)
    }
}

/// The message for an index that could not be parsed.
pub open spec fn parse_error_message(e: IndexParseErrorView) -> Seq<char> {
    match e {
        IndexParseErrorView::FileTooShort => "Index file too short; could not find a version string."@,
        IndexParseErrorView::BadVersionSize(size, problem) => "Version size `"@ + decimal(size) + "` is too "@
            + match problem {
            VersionSizeProblem::Short => "short"@,
            VersionSizeProblem::Long => "long"@,
        } + "; this isn't a valid index file."@,
        IndexParseErrorView::VersionStringUtf8Error(b) => "Could not parse version string as valid UTF8, got:\n["@
            + byte_items(b) + "]"@,
        IndexParseErrorView::UnknownVersionString(v) => "Unknown index version `"@ + v + "` found"@,
        IndexParseErrorView::DecodeError(d) => "Could not decode index, bruh! (internal error "@ + d
            + "). If you see this, please file a bug: https://jil.im/storkbug"@,
    }
}

impl IndexParseError {
    /// The message for this error.
    pub fn to_string(&self) -> (r: String)
        ensures
            r@ == parse_error_message(self@),
    {
        match self {
            IndexParseError::FileTooShort => "Index file too short; could not find a version string.".to_owned(),
            IndexParseError::BadVersionSize(size, problem) => {
                let mut m = "Version size `".to_owned();
                let n = decimal_string(*size);
                push_str(&mut m, n.as_str());
                push_str(&mut m, "` is too ");
                let p = problem.to_string();
                proof {
                    reveal_strlit("short");
                    reveal_strlit("long");
                }
                push_str(&mut m, p.as_str());
                push_str(&mut m, "; this isn't a valid index file.");
                m
            },
            IndexParseError::VersionStringUtf8Error(b) => {
                let mut m = "Could not parse version string as valid UTF8, got:\n[".to_owned();
                let ghost head = m@;
                let mut i: usize = 0;
                while i < b.len()
                    invariant
                        i <= b@.len(),
                        m@ == head + byte_items(b@.take(i as int)),
                    decreases b@.len() - i,
                {
                    proof {
                        assert(b@.take(i as int + 1).drop_last() =~= b@.take(i as int));
                        assert(b@.take(i as int + 1).last() == b@[i as int]);
                        if i == 0 {
                            assert(b@.take(1)[0] == b@[0]);
                        }
                    }
                    if i > 0 {
                        push_str(&mut m, ", ");
                    }
                    let d = decimal_string(b[i] as u64);
                    push_str(&mut m, d.as_str());
                    i = i + 1;
                }
                assert(b@.take(b@.len() as int) =~= b@);
                push_str(&mut m, "]");
                m
            },
            IndexParseError::UnknownVersionString(v) => {
                let mut m = "Unknown index version `".to_owned();
                push_str(&mut m, v.as_str());
                push_str(&mut m, "` found");
                m
            },
            IndexParseError::DecodeError(d) => {
                let mut m = "Could not decode index, bruh! (internal error ".to_owned();
                push_str(&mut m, d.as_str());
                push_str(&mut m, "). If you see this, please file a bug: https://jil.im/storkbug");
                m
            },
        }
    }
}

} // verus!
