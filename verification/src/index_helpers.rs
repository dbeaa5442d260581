//! Reading the version string of an index that is known to be well formed.

use crate::bytes::read_u64_be;
use crate::index_analyzer::{version_frame_bytes, version_frame_fits};
use crate::text::utf8_decode;
use vstd::prelude::*;
use vstd::utf8::{decode_utf8, valid_utf8};

verus! {

/// The version string of an index whose version frame fits and holds valid
/// UTF-8.
pub fn get_index_version(index: &[u8]) -> (r: String)
    requires
        version_frame_fits(index@),
        valid_utf8(version_frame_bytes(index@)),
    ensures
        r@ == decode_utf8(version_frame_bytes(index@)),
{
    let version_size = read_u64_be(index);
    assert(index@.len() == index.len());
    let size = version_size as usize;
    let version_bytes = &index[8..8 + size];
    assert(version_bytes@ == version_frame_bytes(index@));
    match utf8_decode(version_bytes) {
        Ok(s) => s,
        Err(_bytes) => {
            assert(false);
            String::new()
        }
    }
}

} // verus!
