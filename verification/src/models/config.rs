//! The settings an index of the first format is built with.

use super::StorkEntry;
use vstd::prelude::*;

verus! {

/// The whole configuration.
#[derive(Debug)]
pub struct Config {
    pub input: ConfigInput,
    pub output: ConfigOutput,
}

/// The documents to index, and how many words an excerpt shows on each
/// side of its word.
#[derive(Debug)]
pub struct ConfigInput {
    pub surrounding_word_count: Option<u8>,
    pub base_directory: String,
    pub files: Vec<StorkEntry>,
}

/// Where to write the index, and whether to write it as readable text.
#[derive(Debug)]
pub struct ConfigOutput {
    pub filename: String,
    pub debug: bool,
}

} // verus!
