//! Reading an index in the third format.

use crate::bytes::{frame_at, read_frame};
use vstd::prelude::*;

verus! {

/// Whether both frames of the third format fit in `file`.
pub open spec fn v3_frames_fit(file: Seq<u8>) -> bool {
    &&& frame_at(file, 0) is Some
    &&& frame_at(file, frame_at(file, 0).unwrap().1) is Some
}

/// The encoded index held in the second frame of `file`.
pub open spec fn v3_payload_of(file: Seq<u8>) -> Seq<u8> {
    frame_at(file, frame_at(file, 0).unwrap().1).unwrap().0
}

/// Whether the frames of `file` fit, so that its encoded index can be read.
pub fn payload_fits(file: &[u8]) -> (r: bool)
    ensures
        r == v3_frames_fit(file@),
{
    if !frame_fits(file, 0) {
        return false;
    }
    let (_version, next) = read_frame(file, 0);
    frame_fits(file, next)
}

/// Whether a frame fits at `pos`.
pub fn frame_fits(b: &[u8], pos: usize) -> (r: bool)
    ensures
        r == (frame_at(b@, pos as int) is Some),
{
    if b.len() < 8 || pos > b.len() - 8 {
        return false;
    }
    let size = crate::bytes::read_u64_be_at(b, pos);
    let room = (b.len() - pos - 8) as u64;
    size <= room
}

/// The encoded index of a file of the third format: the data of the frame
/// that follows the version frame.
pub fn read_payload(file: &[u8]) -> (r: Vec<u8>)
    requires
        v3_frames_fit(file@),
    ensures
        r@ == v3_payload_of(file@),
{
    let (_version, next) = read_frame(file, 0);
    let (payload, _end) = read_frame(file, next);
    payload
}

} // verus!
