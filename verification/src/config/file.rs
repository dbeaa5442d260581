//! One document to index.

use super::{FrontmatterConfig, StemmingConfig};
use crate::common::{copy_string, Fields};
use vstd::prelude::*;

verus! {

/// A document to index and how to index it.
#[derive(Debug)]
pub struct File {
    pub title: String,
    pub url: String,
    /// Where the text comes from; without one it is fetched from `url`.
    pub explicit_source: Option<DataSource>,
    pub id: Option<String>,
    pub stemming_override: Option<StemmingConfig>,
    pub html_selector_override: Option<String>,
    pub exclude_html_selector_override: Option<String>,
    pub frontmatter_handling_override: Option<FrontmatterConfig>,
    pub filetype: Option<Filetype>,
    pub fields: Fields,
}

impl File {
    /// A file with no title, URL or source and no overrides.
    pub fn empty() -> (r: File)
        ensures
            r.title@ == Seq::<char>::empty(),
            r.url@ == Seq::<char>::empty(),
            r.explicit_source is None,
            r.id is None,
            r.stemming_override is None,
            r.html_selector_override is None,
            r.exclude_html_selector_override is None,
            r.frontmatter_handling_override is None,
            r.filetype is None,
            r.fields.pairs@.len() == 0,
    {
        File {
            title: String::new(),
            url: String::new(),
            explicit_source: None,
            id: None,
            stemming_override: None,
            html_selector_override: None,
            exclude_html_selector_override: None,
            frontmatter_handling_override: None,
            filetype: None,
            fields: Fields::new(),
        }
    }

    /// Whether `other` holds the same settings and fields as this file.
    pub open spec fn same_as(&self, other: File) -> bool {
        &&& self.title == other.title
        &&& self.url == other.url
        &&& self.explicit_source == other.explicit_source
        &&& self.id == other.id
        &&& self.stemming_override == other.stemming_override
        &&& self.html_selector_override == other.html_selector_override
        &&& self.exclude_html_selector_override == other.exclude_html_selector_override
        &&& self.frontmatter_handling_override == other.frontmatter_handling_override
        &&& self.filetype == other.filetype
        &&& self.fields.pairs@ == other.fields.pairs@
    }

    /// A copy of this file.
    pub fn copy(&self) -> (r: File)
        ensures
            r.same_as(*self),
    {
        File {
            title: copy_string(&self.title),
            url: copy_string(&self.url),
            explicit_source: match &self.explicit_source {
                Some(s) => Some(s.copy()),
                None => None,
            },
            id: copy_opt(&self.id),
            stemming_override: self.stemming_override,
            html_selector_override: copy_opt(&self.html_selector_override),
            exclude_html_selector_override: copy_opt(&self.exclude_html_selector_override),
            frontmatter_handling_override: self.frontmatter_handling_override,
            filetype: self.filetype,
            fields: self.fields.copy(),
        }
    }

    /// How the file is named in messages: its path, its URL, or, where its
    /// text is given in the settings, its title.
    pub open spec fn display_name_spec(&self) -> Seq<char> {
        match self.explicit_source {
            Some(DataSource::FilePath(p)) => p@,
            Some(DataSource::Contents(_)) => self.title@,
            Some(DataSource::URL(u)) => u@,
            None => self.url@,
        }
    }

    /// How the file is named in messages.
    pub fn display_name(&self) -> (r: String)
        ensures
            r@ == self.display_name_spec(),
    {
        match &self.explicit_source {
            Some(DataSource::FilePath(p)) => copy_string(p),
            Some(DataSource::Contents(_)) => copy_string(&self.title),
            Some(DataSource::URL(u)) => copy_string(u),
            None => copy_string(&self.url),
        }
    }

    /// Where the file's text comes from: its explicit source, or else its URL.
    pub fn source(&self) -> (r: DataSource)
        ensures
            r == match self.explicit_source {
                Some(s) => s,
                None => DataSource::URL(self.url),
            },
    {
        match &self.explicit_source {
            Some(source) => source.copy(),
            None => DataSource::URL(copy_string(&self.url)),
        }
    }
}

/// A copy of a string that may be missing.
pub fn copy_opt(s: &Option<String>) -> (r: Option<String>)
    ensures
        r == *s,
{
    match s {
        Some(t) => Some(copy_string(t)),
        None => None,
    }
}

/// Where the text of a file comes from.
#[derive(Debug)]
pub enum DataSource {
    /// The text itself.
    Contents(String),
    /// A web page to fetch.
    URL(String),
    /// A path relative to the base directory.
    FilePath(String),
}

impl DataSource {
    /// A copy of this source.
    pub fn copy(&self) -> (r: DataSource)
        ensures
            r == *self,
    {
        match self {
            DataSource::Contents(s) => DataSource::Contents(copy_string(s)),
            DataSource::URL(s) => DataSource::URL(copy_string(s)),
            DataSource::FilePath(s) => DataSource::FilePath(copy_string(s)),
        }
    }
}

/// The kinds of document that can be indexed.
#[derive(Debug, Clone, Copy, PartialEq, Eq, Structural)]
pub enum Filetype {
    PlainText,
    SRTSubtitle,
    HTML,
    Markdown,
}

} // verus!
