//! Writing an index in the second format.

use super::version_bytes;
use crate::bytes::{frame, write_frame};
use vstd::prelude::*;

verus! {

/// The whole file of an index in the second format, given the encoded
/// documents and the encoded word containers.
pub open spec fn v2_file(entries: Seq<u8>, queries: Seq<u8>) -> Seq<u8> {
    frame(version_bytes()) + frame(entries) + frame(queries)
}

/// Frames the encoded parts of an index as a file of the second format.
pub fn frame_index(entries: &[u8], queries: &[u8]) -> (r: Vec<u8>)
    ensures
        r@ == v2_file(entries@, queries@),
{
    let version: Vec<u8> = vec![115u8, 116u8, 111u8, 114u8, 107u8, 45u8, 50u8];
    let mut out: Vec<u8> = Vec::new();
    write_frame(version.as_slice(), &mut out);
    write_frame(entries, &mut out);
    write_frame(queries, &mut out);
    assert(out@ =~= v2_file(entries@, queries@));
    out
}

} // verus!
