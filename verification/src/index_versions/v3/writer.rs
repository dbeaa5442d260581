//! Writing an index in the third format.

use super::version_bytes;
use crate::bytes::{frame, write_frame};
use crate::text::push_str;
use vstd::prelude::*;

verus! {

/// The whole file of an index in the third format, given the encoded index.
pub open spec fn v3_file(payload: Seq<u8>) -> Seq<u8> {
    frame(version_bytes()) + frame(payload)
}

/// Frames an encoded index as a file of the third format: the version frame,
/// then the frame of the encoded index.
pub fn frame_index(payload: &[u8]) -> (r: Vec<u8>)
    ensures
        r@ == v3_file(payload@),
{
    let version: Vec<u8> = vec![115u8, 116u8, 111u8, 114u8, 107u8, 45u8, 51u8];
    let mut out: Vec<u8> = Vec::new();
    write_frame(version.as_slice(), &mut out);
    write_frame(payload, &mut out);
    assert(out@ =~= v3_file(payload@));
    out
}

/// Why an index could not be written.
#[derive(Debug)]
pub enum WriteError {
    /// The file of this name could not be created.
    FileCreateError(String),
}

/// The message for an index that could not be written.
pub open spec fn write_error_message(e: WriteError) -> Seq<char> {
    match e {
        WriteError::FileCreateError(f) => "Could not write to file "@ + f@ + "!"@,
    }
}

impl WriteError {
    /// The message for this error.
    pub fn to_string(&self) -> (r: String)
        ensures
            r@ == write_error_message(*self),
    {
        match self {
            WriteError::FileCreateError(f) => {
                let mut m = "Could not write to file ".to_owned();
                push_str(&mut m, f.as_str());
                push_str(&mut m, "!");
                m
            },
        }
    }
}

} // verus!
