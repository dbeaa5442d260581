//! A stricter-sized reading of the version header, which asks its caller for
//! a header that fits.

use crate::bytes::{be_value, read_u64_be};
use crate::text::{string_eq_literal, utf8_decode};
use vstd::prelude::*;
use vstd::utf8::{decode_utf8, valid_utf8};

pub use super::parse::{IndexParseError, IndexVersion, VersionSizeProblem};

verus! {

use super::parse::{v2_version_string, v3_version_string, version_named, IndexParseErrorView, version_result_view};

/// Whether the version header of `b` can be read without running past its
/// end: eight size bytes and, for a size between 1 and 32, that many bytes
/// after them.
pub open spec fn header_fits(b: Seq<u8>) -> bool {
    b.len() >= 8 && {
        let size = be_value(b.take(8));
        (1 <= size <= 32) ==> b.len() >= 8 + size
    }
}

/// What the header of `b` says, for sizes from 1 to 32 inclusive.
pub open spec fn analyzed_version(b: Seq<u8>) -> Result<IndexVersion, IndexParseErrorView> {
    let size = be_value(b.take(8));
    if size > 32 {
        Err(IndexParseErrorView::BadVersionSize(size, VersionSizeProblem::Long))
    } else if size < 1 {
        Err(IndexParseErrorView::BadVersionSize(size, VersionSizeProblem::Short))
    } else {
        let vb = b.subrange(8, 8 + size as int);
        if !valid_utf8(vb) {
            Err(IndexParseErrorView::VersionStringUtf8Error(vb))
        } else {
            match version_named(decode_utf8(vb)) {
                Some(v) => Ok(v),
                None => Err(IndexParseErrorView::UnknownVersionString(decode_utf8(vb))),
            }
        }
    }
}

/// Reads the version header of an index whose header fits.
pub fn parse_index_version(index: &[u8]) -> (r: Result<IndexVersion, IndexParseError>)
    requires
        header_fits(index@),
    ensures
        version_result_view(r) == analyzed_version(index@),
{
    let version_size = read_u64_be(index);
    if version_size > 32 {
        return Err(IndexParseError::BadVersionSize(version_size, VersionSizeProblem::Long));
    }
    if version_size < 1 {
        return Err(IndexParseError::BadVersionSize(version_size, VersionSizeProblem::Short));
    }
    let size = version_size as usize;
    let version_bytes = &index[8..8 + size];
    assert(version_bytes@ == index@.subrange(8, 8 + size as int));
    match utf8_decode(version_bytes) {
        Err(bytes) => Err(IndexParseError::VersionStringUtf8Error(bytes)),
        Ok(version) => {
            proof {
                reveal_strlit("stork-2");
                reveal_strlit("stork-3");
                assert(v2_version_string() =~= "stork-2"@);
                assert(v3_version_string() =~= "stork-3"@);
            }
            if string_eq_literal(&version, "stork-2") {
                Ok(IndexVersion::V2)
            } else if string_eq_literal(&version, "stork-3") {
                Ok(IndexVersion::V3)
            } else {
                Err(IndexParseError::UnknownVersionString(version))
            }
        }
    }
}

} // verus!
