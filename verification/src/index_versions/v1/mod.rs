//! The first index format: a version frame, a frame of encoded documents and
//! a frame of encoded words, each word leading to its occurrences or to the
//! longer words it is a prefix of.

pub mod builder;
pub mod recall;
pub mod search;

use crate::bytes::{frame, write_frame};
use vstd::prelude::*;

verus! {

/// The version string this format is written with.
pub const VERSION_STRING: &'static str = "stork-1.0.0";

/// The bytes of the version string.
pub open spec fn version_bytes() -> Seq<u8> {
    seq![115u8, 116u8, 111u8, 114u8, 107u8, 45u8, 49u8, 46u8, 48u8, 46u8, 48u8]
}

/// The whole file of an index in the first format, given the encoded
/// documents and the encoded words.
pub open spec fn v1_file(entries: Seq<u8>, results: Seq<u8>) -> Seq<u8> {
    frame(version_bytes()) + frame(entries) + frame(results)
}

/// Frames the encoded parts of an index as a file of the first format.
pub fn frame_index(entries: &[u8], results: &[u8]) -> (r: Vec<u8>)
    ensures
        r@ == v1_file(entries@, results@),
{
    let version: Vec<u8> = vec![115u8, 116u8, 111u8, 114u8, 107u8, 45u8, 49u8, 46u8, 48u8, 46u8, 48u8];
    let mut out: Vec<u8> = Vec::new();
    write_frame(version.as_slice(), &mut out);
    write_frame(entries, &mut out);
    write_frame(results, &mut out);
    assert(version@ =~= version_bytes());
    assert(out@ =~= v1_file(entries@, results@));
    out
}

} // verus!
