//! Reading the version string of an index without interpreting it.

use crate::bytes::{be_value, read_u64_be};
use crate::text::utf8_decode;
use vstd::prelude::*;
use vstd::utf8::{decode_utf8, valid_utf8};

verus! {

/// The version string of an index could not be decoded.
#[derive(Debug, PartialEq, Eq, Structural)]
pub struct IndexParseError {}

/// Whether the version frame at the start of `b` fits in `b`.
pub open spec fn version_frame_fits(b: Seq<u8>) -> bool {
    b.len() >= 8 && b.len() >= 8 + be_value(b.take(8))
}

/// The bytes of the version string at the start of `b`.
pub open spec fn version_frame_bytes(b: Seq<u8>) -> Seq<u8> {
    b.subrange(8, 8 + be_value(b.take(8)) as int)
}

/// The version string of an index whose version frame fits, if its bytes are
/// valid UTF-8.
pub fn get_index_version(index: &[u8]) -> (r: Result<String, IndexParseError>)
    requires
        version_frame_fits(index@),
    ensures
        r is Ok <==> valid_utf8(version_frame_bytes(index@)),
        r matches Ok(s) ==> s@ == decode_utf8(version_frame_bytes(index@)),
{
    let version_size = read_u64_be(index);
    assert(index@.len() == index.len());
    let size = version_size as usize;
    let version_bytes = &index[8..8 + size];
    assert(version_bytes@ == version_frame_bytes(index@));
    match utf8_decode(version_bytes) {
        Ok(s) => Ok(s),
        Err(_bytes) => Err(IndexParseError {}),
    }
}

} // verus!
