//! The settings an index is built with.

pub mod file;
pub mod frontmatter_config;
pub mod stemming_config;

pub use file::{DataSource, File, Filetype};
pub use frontmatter_config::FrontmatterConfig;
pub use stemming_config::{Algorithm, StemmingConfig};

use vstd::prelude::*;

verus! {

/// How much a match in a document's title raises its score.
#[derive(Debug, Clone, Copy, PartialEq, Eq, Structural)]
pub enum TitleBoost {
    Minimal,
    Moderate,
    Large,
    Ridiculous,
}

impl Default for TitleBoost {
    fn default() -> (r: Self)
        ensures
            r == TitleBoost::Moderate,
    {
        TitleBoost::Moderate
    }
}

/// The points a title match adds under each boost setting.
pub open spec fn title_boost_points(b: TitleBoost) -> nat {
    match b {
        TitleBoost::Minimal => 25,
        TitleBoost::Moderate => 75,
        TitleBoost::Large => 150,
        TitleBoost::Ridiculous => 5000,
    }
}

/// The whole configuration.
#[derive(Debug)]
pub struct Config {
    pub input: InputConfig,
    pub output: OutputConfig,
}

impl Default for Config {
    fn default() -> (r: Self)
        ensures
            r.input.is_default(),
            r.output.is_default(),
    {
        Config { input: InputConfig::default(), output: OutputConfig::default() }
    }
}

/// Settings about the documents to index.
#[derive(Debug)]
#[allow(non_snake_case)]
pub struct InputConfig {
    pub UNUSED_surrounding_word_count: Option<u8>,
    pub base_directory: String,
    pub url_prefix: String,
    pub title_boost: TitleBoost,
    pub stemming: StemmingConfig,
    pub html_selector: Option<String>,
    pub exclude_html_selector: Option<String>,
    pub frontmatter_handling: FrontmatterConfig,
    pub files: Vec<File>,
    pub break_on_file_error: bool,
    pub srt_config: SRTConfig,
}

impl InputConfig {
    /// Whether every setting has its default value.
    pub open spec fn is_default(&self) -> bool {
        &&& self.UNUSED_surrounding_word_count is None
        &&& self.base_directory@ == Seq::<char>::empty()
        &&& self.url_prefix@ == Seq::<char>::empty()
        &&& self.title_boost == TitleBoost::Moderate
        &&& self.stemming == StemmingConfig::Language(Algorithm::English)
        &&& self.html_selector is None
        &&& self.exclude_html_selector is None
        &&& self.frontmatter_handling == FrontmatterConfig::Omit
        &&& self.files@.len() == 0
        &&& !self.break_on_file_error
        &&& self.srt_config.is_default()
    }
}

impl Default for InputConfig {
    fn default() -> (r: Self)
        ensures
            r.is_default(),
    {
        InputConfig {
            UNUSED_surrounding_word_count: None,
            base_directory: String::new(),
            url_prefix: String::new(),
            title_boost: TitleBoost::Moderate,
            stemming: StemmingConfig::Language(Algorithm::English),
            html_selector: None,
            exclude_html_selector: None,
            frontmatter_handling: FrontmatterConfig::Omit,
            files: Vec::new(),
            break_on_file_error: false,
            srt_config: SRTConfig::default(),
        }
    }
}

/// Settings that shape the index file and that the index carries through to
/// searches: how many words around a match an excerpt shows, how many
/// excerpts each result shows, and how many results a search returns.
#[derive(Debug)]
#[allow(non_snake_case)]
pub struct OutputConfig {
    pub UNUSED_filename: Option<String>,
    pub debug: bool,
    pub excerpt_buffer: u8,
    pub excerpts_per_result: u8,
    pub displayed_results_count: u8,
}

impl OutputConfig {
    /// Whether every setting has its default value.
    pub open spec fn is_default(&self) -> bool {
        &&& self.UNUSED_filename is None
        &&& !self.debug
        &&& self.excerpt_buffer == 8
        &&& self.excerpts_per_result == 5
        &&& self.displayed_results_count == 10
    }
}

impl Default for OutputConfig {
    fn default() -> (r: Self)
        ensures
            r.is_default(),
    {
        OutputConfig {
            UNUSED_filename: None,
            debug: false,
            excerpt_buffer: 8,
            excerpts_per_result: 5,
            displayed_results_count: 10,
        }
    }
}

/// Settings for subtitle files.
#[derive(Debug)]
pub struct SRTConfig {
    pub timestamp_linking: bool,
    pub timestamp_template_string: String,
    pub timestamp_format: SRTTimestampFormat,
}

impl SRTConfig {
    /// Whether every setting has its default value: linking on, with the
    /// template `&t={ts}` and the number of seconds as the timestamp.
    pub open spec fn is_default(&self) -> bool {
        &&& self.timestamp_linking
        &&& self.timestamp_template_string@ == seq!['&', 't', '=', '{', 't', 's', '}']
        &&& self.timestamp_format == SRTTimestampFormat::NumberOfSeconds
    }
}

impl Default for SRTConfig {
    fn default() -> (r: Self)
        ensures
            r.is_default(),
    {
        let t = "&t={ts}";
        proof {
            reveal_strlit("&t={ts}");
            assert(t@ =~= seq!['&', 't', '=', '{', 't', 's', '}']);
        }
        SRTConfig {
            timestamp_linking: true,
            timestamp_template_string: t.to_owned(),
            timestamp_format: SRTTimestampFormat::NumberOfSeconds,
        }
    }
}

/// How a subtitle timestamp is written into a URL.
#[derive(Debug, Clone, Copy, PartialEq, Eq, Structural)]
pub enum SRTTimestampFormat {
    NumberOfSeconds,
}

} // verus!
