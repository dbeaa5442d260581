//! The index formats.

pub mod v1;
pub mod v2;
pub mod v3;

pub use crate::searcher::parse::ParsedIndex;
