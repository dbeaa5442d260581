//! The third index format: a version frame followed by one frame holding the
//! encoded index.

pub mod builder;
pub mod reader;
pub mod recall;
pub mod scores;
pub mod search;
pub mod soundness;
pub mod structs;
pub mod writer;

use crate::searcher::parse::v3_version_string;
use vstd::prelude::*;
use vstd::utf8::{decode_utf8, encode_utf8, is_ascii_chars, valid_utf8};

verus! {

/// The version string this format is written with.
pub const VERSION_STRING: &'static str = "stork-3";

/// The bytes of the version string.
pub open spec fn version_bytes() -> Seq<u8> {
    seq![115u8, 116u8, 111u8, 114u8, 107u8, 45u8, 51u8]
}

/// The version bytes are the UTF-8 encoding of the version string.
pub proof fn lemma_version_bytes_decode()
    ensures
        valid_utf8(version_bytes()),
        decode_utf8(version_bytes()) == v3_version_string(),
{
    let s = v3_version_string();
    assert(is_ascii_chars(s));
    vstd::utf8::is_ascii_chars_encode_utf8(s);
    assert(encode_utf8(s) =~= version_bytes());
    vstd::utf8::encode_utf8_valid_utf8(s);
    vstd::utf8::encode_utf8_decode_utf8(s);
}

} // verus!

verus! {

use crate::bytes::{be_encode, be_value, frame_at, lemma_be_encode_len, lemma_be_value_encode, lemma_pow256_8, pow256};
use crate::searcher::parse::{header_version, IndexVersion};
use reader::{v3_frames_fit, v3_payload_of};
use writer::v3_file;

/// A file written in the third format reads back as that format, and the
/// encoded index it holds comes back unchanged.
pub proof fn lemma_v3_file_roundtrip(payload: Seq<u8>)
    requires
        payload.len() < 0x1_0000_0000_0000_0000,
    ensures
        header_version(v3_file(payload)) == Ok::<IndexVersion, crate::searcher::parse::IndexParseErrorView>(IndexVersion::V3),
        v3_frames_fit(v3_file(payload)),
        v3_payload_of(v3_file(payload)) == payload,
{
    let f = v3_file(payload);
    let n = payload.len();
    lemma_be_encode_len(7, 8);
    lemma_be_encode_len(n, 8);
    lemma_pow256_8();
    lemma_be_value_encode(7, 8);
    lemma_be_value_encode(n, 8);
    assert(7nat % pow256(8) == 7);
    assert(n % pow256(8) == n);
    assert(f.take(8) =~= be_encode(7, 8));
    assert(f.subrange(0, 8) =~= be_encode(7, 8));
    assert(f.subrange(8, 15) =~= version_bytes());
    assert(f.subrange(15, 23) =~= be_encode(n, 8));
    assert(f.subrange(23, 23 + n as int) =~= payload);
    lemma_version_bytes_decode();
    assert(frame_at(f, 0) == Some((version_bytes(), 15int)));
    assert(frame_at(f, 15) == Some((payload, 23 + n as int)));
}

} // verus!
