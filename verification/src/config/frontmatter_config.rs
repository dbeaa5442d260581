//! What to do with a document's frontmatter.

use vstd::prelude::*;

verus! {

/// What to do with a YAML frontmatter block at the start of a document.
#[derive(Debug, Clone, Copy, PartialEq, Eq, Structural)]
pub enum FrontmatterConfig {
    /// Index the block as text.
    Ignore,
    /// Leave the block out of the text.
    Omit,
    /// Leave the block out and read its keys and values as fields.
    Parse,
}

impl Default for FrontmatterConfig {
    fn default() -> (r: Self)
        ensures
            r == FrontmatterConfig::Omit,
    {
        FrontmatterConfig::Omit
    }
}

} // verus!
