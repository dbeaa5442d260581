//! Reading an index in the second format.

use crate::bytes::{frame_at, read_frame};
use crate::index_versions::v3::reader::frame_fits;
use vstd::prelude::*;

verus! {

/// The position just past the frame at `pos`.
pub open spec fn frame_end(file: Seq<u8>, pos: int) -> int {
    frame_at(file, pos).unwrap().1
}

/// Whether the three frames of the second format fit in `file`.
pub open spec fn v2_frames_fit(file: Seq<u8>) -> bool {
    &&& frame_at(file, 0) is Some
    &&& frame_at(file, frame_end(file, 0)) is Some
    &&& frame_at(file, frame_end(file, frame_end(file, 0))) is Some
}

/// The encoded documents: the data of the second frame.
pub open spec fn v2_entries_of(file: Seq<u8>) -> Seq<u8> {
    frame_at(file, frame_end(file, 0)).unwrap().0
}

/// The encoded word containers: the data of the third frame.
pub open spec fn v2_queries_of(file: Seq<u8>) -> Seq<u8> {
    frame_at(file, frame_end(file, frame_end(file, 0))).unwrap().0
}

/// Whether the three frames of `file` fit.
pub fn frames_fit(file: &[u8]) -> (r: bool)
    ensures
        r == v2_frames_fit(file@),
{
    if !frame_fits(file, 0) {
        return false;
    }
    let (_version, next) = read_frame(file, 0);
    if !frame_fits(file, next) {
        return false;
    }
    let (_entries, after) = read_frame(file, next);
    frame_fits(file, after)
}

/// The encoded documents and the encoded word containers of a file of the
/// second format.
pub fn read_parts(file: &[u8]) -> (r: (Vec<u8>, Vec<u8>))
    requires
        v2_frames_fit(file@),
    ensures
        r.0@ == v2_entries_of(file@),
        r.1@ == v2_queries_of(file@),
{
    let (_version, next) = read_frame(file, 0);
    let (entries, after) = read_frame(file, next);
    let (queries, _end) = read_frame(file, after);
    (entries, queries)
}

} // verus!
