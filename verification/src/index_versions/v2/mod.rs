//! The second index format: a version frame, then a frame of encoded
//! documents and a frame of encoded word containers.

pub mod reader;
pub mod search;

pub mod structs;
pub mod writer;

use crate::bytes::{be_encode, frame_at, lemma_be_encode_len, lemma_be_value_encode, lemma_pow256_8, pow256};
use crate::searcher::parse::{header_version, v2_version_string, IndexVersion, IndexParseErrorView};
use reader::{frame_end, v2_entries_of, v2_frames_fit, v2_queries_of};
use vstd::prelude::*;
use vstd::utf8::{decode_utf8, encode_utf8, is_ascii_chars, valid_utf8};
use writer::v2_file;

verus! {

/// The version string this format is written with.
pub const VERSION_STRING: &'static str = "stork-2";

/// The bytes of the version string.
pub open spec fn version_bytes() -> Seq<u8> {
    seq![115u8, 116u8, 111u8, 114u8, 107u8, 45u8, 50u8]
}

/// The version bytes are the UTF-8 encoding of the version string.
pub proof fn lemma_version_bytes_decode()
    ensures
        valid_utf8(version_bytes()),
        decode_utf8(version_bytes()) == v2_version_string(),
{
    let s = v2_version_string();
    assert(is_ascii_chars(s));
    vstd::utf8::is_ascii_chars_encode_utf8(s);
    assert(encode_utf8(s) =~= version_bytes());
    vstd::utf8::encode_utf8_valid_utf8(s);
    vstd::utf8::encode_utf8_decode_utf8(s);
}

/// A file written in the second format reads back as that format, and the
/// encoded documents and word containers it holds come back unchanged.
pub proof fn lemma_v2_file_roundtrip(entries: Seq<u8>, queries: Seq<u8>)
    requires
        entries.len() < 0x1_0000_0000_0000_0000,
        queries.len() < 0x1_0000_0000_0000_0000,
    ensures
        header_version(v2_file(entries, queries)) == Ok::<IndexVersion, IndexParseErrorView>(IndexVersion::V2),
        v2_frames_fit(v2_file(entries, queries)),
        v2_entries_of(v2_file(entries, queries)) == entries,
        v2_queries_of(v2_file(entries, queries)) == queries,
{
    let f = v2_file(entries, queries);
    let n = entries.len();
    let m = queries.len();
    lemma_be_encode_len(7, 8);
    lemma_be_encode_len(n, 8);
    lemma_be_encode_len(m, 8);
    lemma_pow256_8();
    lemma_be_value_encode(7, 8);
    lemma_be_value_encode(n, 8);
    lemma_be_value_encode(m, 8);
    assert(7nat % pow256(8) == 7);
    assert(n % pow256(8) == n);
    assert(m % pow256(8) == m);
    assert(f.take(8) =~= be_encode(7, 8));
    assert(f.subrange(0, 8) =~= be_encode(7, 8));
    assert(f.subrange(8, 15) =~= version_bytes());
    assert(f.subrange(15, 23) =~= be_encode(n, 8));
    assert(f.subrange(23, 23 + n as int) =~= entries);
    assert(f.subrange(23 + n as int, 31 + n as int) =~= be_encode(m, 8));
    assert(f.subrange(31 + n as int, 31 + n + m as int) =~= queries);
    lemma_version_bytes_decode();
    assert(frame_at(f, 0) == Some((version_bytes(), 15int)));
    assert(frame_at(f, 15) == Some((entries, 23 + n as int)));
    assert(frame_at(f, 23 + n as int) == Some((queries, 31 + n + m as int)));
}

} // verus!
