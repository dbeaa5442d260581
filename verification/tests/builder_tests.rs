use stork_search::common::{Fields, InternalWordAnnotation};
use stork_search::config::{Config, DataSource, File, Filetype, FrontmatterConfig, InputConfig, OutputConfig};
use stork_search::index_versions::v3::builder::annotated_words_from_string::{
    make_annotated_words, make_annotated_words_with_annotations,
};
use stork_search::index_versions::v3::builder::data_source_readers::read_from_contents;
use stork_search::index_versions::v3::builder::errors::{
    DocumentError, IndexGenerationError, WordListGenerationError,
};
use stork_search::index_versions::v3::builder::fill_intermediate_entries::{
    fill_intermediate_entries, truncate_with_ellipsis_to_length,
};
use stork_search::index_versions::v3::builder::frontmatter::parse_frontmatter;
use stork_search::index_versions::v3::builder::intermediate_entry::IntermediateEntry;
use stork_search::index_versions::v3::builder::nudger::{Nudge, Nudger};
use stork_search::index_versions::v3::builder::try_build;
use stork_search::index_versions::v3::builder::word_list_generators::ReadResult;
use stork_search::index_versions::v3::builder::fill_containers::fill_containers;
use stork_search::index_versions::v3::builder::fill_stems::fill_stems;
use stork_search::index_versions::v3::structs::{
    AnnotatedWord, AnnotatedWordList, Container, Entry, Index, SearchResult, WordListSource,
};
use unicode_segmentation::UnicodeSegmentation;

const FRONTMATTER_DOCUMENT: &str = r#"---
this: "is frontmatter"
"that takes": "multiple lines"
"and has": 22
"different formats": +INF
---

this is not
        "#;

fn reads_for(config: &Config) -> Vec<Result<ReadResult, WordListGenerationError>> {
    config
        .input
        .files
        .iter()
        .map(|file| read_from_contents(file).ok_or(WordListGenerationError::FileNotFound))
        .collect()
}

fn fill(
    config: &Config,
    entries: &mut Vec<IntermediateEntry>,
    errors: &mut Vec<DocumentError>,
) -> Result<(), IndexGenerationError> {
    fill_intermediate_entries(config, reads_for(config), entries, errors)
}

fn build_from_config(config: &Config) -> Result<(Index, Vec<DocumentError>), IndexGenerationError> {
    try_build(config, reads_for(config))
}

fn contents_file(title: &str, contents: &str, filetype: Option<Filetype>) -> File {
    let mut file = File::empty();
    file.title = title.to_string();
    file.explicit_source = Some(DataSource::Contents(contents.to_string()));
    file.filetype = filetype;
    file
}

#[test]
fn annotated_words_split_on_hyphens() {
    let expected: usize = 3;
    let computed = make_annotated_words("Hastings-on-hudson").len();
    assert_eq!(expected, computed);
}

#[test]
fn annotated_words_split_on_whitespace() {
    let expected: usize = 3;
    let computed = make_annotated_words("Hastings on hudson").len();
    assert_eq!(expected, computed);
}

#[test]
fn annotated_words_split_on_multiple_whitespace() {
    let expected: usize = 3;
    let computed = make_annotated_words("Hastings         on  \n \t hudson").len();
    assert_eq!(expected, computed);
}

#[test]
fn annotated_words_can_correctly_annotate() {
    let computed = make_annotated_words_with_annotations("Hastings         on  \n \t hudson", |word: &String| {
        vec![InternalWordAnnotation::UrlSuffix(word.to_string())]
    });

    assert_eq!(3, computed.len());
    assert_eq!(1, computed[0].internal_annotations.len());
    assert_eq!(
        InternalWordAnnotation::UrlSuffix("Hastings".to_string()),
        computed[0].internal_annotations[0]
    );
    assert_eq!(
        InternalWordAnnotation::UrlSuffix("hudson".to_string()),
        computed[2].internal_annotations[0]
    );
}

#[test]
fn annotated_words_are_trimmed_and_keep_order() {
    let computed = make_annotated_words("  one--two \t three- ");
    let words: Vec<&str> = computed.iter().map(|w| w.word.as_str()).collect();
    assert_eq!(vec!["one", "two", "three"], words);
    assert!(computed.iter().all(|w| w.internal_annotations.is_empty() && w.fields.pairs.is_empty()));
    assert_eq!(0, make_annotated_words("").len());
    assert_eq!(0, make_annotated_words(" - \n").len());
}

#[test]
fn omit_option() {
    let output = parse_frontmatter(&FrontmatterConfig::Omit, FRONTMATTER_DOCUMENT);
    assert!(output.0.pairs.is_empty());
    assert_eq!("this is not".to_string(), output.1);
}

#[test]
fn parse_option() {
    let expected: Vec<(String, String)> = vec![
        ("this".to_string(), "is frontmatter".to_string()),
        ("that takes".to_string(), "multiple lines".to_string()),
        ("and has".to_string(), "22".to_string()),
        ("different formats".to_string(), "+INF".to_string()),
    ];
    let output = parse_frontmatter(&FrontmatterConfig::Parse, FRONTMATTER_DOCUMENT);
    assert_eq!((expected, "this is not".to_string()), (output.0.pairs, output.1));
}

#[test]
fn test_default_input_config_omits_frontmatter() {
    let handling = InputConfig::default().frontmatter_handling;
    let output = parse_frontmatter(&handling, FRONTMATTER_DOCUMENT);
    assert!(output.0.pairs.is_empty());
    assert_eq!("this is not".to_string(), output.1);
}

#[test]
fn test_parse_option_parses_correctly_frontmatter() {
    let output = parse_frontmatter(&FrontmatterConfig::Parse, FRONTMATTER_DOCUMENT);
    assert_eq!(4, output.0.pairs.len());
    assert_eq!(("and has".to_string(), "22".to_string()), output.0.pairs[2]);
    assert_eq!("this is not".to_string(), output.1);
}

#[test]
fn ignore_option_keeps_document_whole() {
    let output = parse_frontmatter(&FrontmatterConfig::Ignore, FRONTMATTER_DOCUMENT);
    assert!(output.0.pairs.is_empty());
    assert_eq!(FRONTMATTER_DOCUMENT.to_string(), output.1);
}

#[test]
fn document_without_frontmatter_is_unchanged() {
    let output = parse_frontmatter(&FrontmatterConfig::Parse, "just words");
    assert!(output.0.pairs.is_empty());
    assert_eq!("just words".to_string(), output.1);
}

#[test]
fn create_nudge() {
    let intended = Nudger { nudges: vec![Nudge::InputSurroundingWordCount] };

    let generated = Nudger::from_config(&Config {
        input: InputConfig { UNUSED_surrounding_word_count: Some(12), ..Default::default() },
        output: OutputConfig::default(),
    });

    assert_eq!(intended, generated)
}

#[test]
fn default_config_creates_empty_nudge() {
    let intended = Nudger { nudges: vec![] };
    let generated = Nudger::from_config(&Config::default());
    assert_eq!(intended, generated);
    assert!(generated.is_empty());
}

#[test]
fn nudge_description() {
    let intended = "== Config Warnings ==\n`input.surrounding_word_count` is deprecated and has no effect. Please use output.excerpt_buffer instead."
        .to_string();

    let generated = Nudger { nudges: vec![Nudge::InputSurroundingWordCount] }.generate_formatted_output();

    assert_eq!(intended, generated)
}

#[test]
fn get_full_text() {
    let intended = "This is-a set of words.".to_string();
    let generated = AnnotatedWordList {
        word_list: vec![
            AnnotatedWord::plain("This".to_string()),
            AnnotatedWord {
                word: "is-a".to_string(),
                internal_annotations: vec![InternalWordAnnotation::UrlSuffix("a".to_string())],
                fields: Fields::new(),
            },
            AnnotatedWord::plain("set".to_string()),
            AnnotatedWord::plain("of".to_string()),
            AnnotatedWord::plain("words.".to_string()),
        ],
    }
    .get_full_text();

    assert_eq!(intended, generated);
}

#[test]
fn convert_ie_to_entry() {
    let mut fields = Fields::new();
    fields.insert("k1".to_string(), "v1".to_string());
    fields.insert("k2".to_string(), "v2".to_string());

    let generated = Entry::from_intermediate(&IntermediateEntry {
        contents: AnnotatedWordList { word_list: vec![] },
        stem_algorithm: None,
        title: "My Title".to_string(),
        url: "https://example.com".to_string(),
        fields: fields.copy(),
    });

    assert_eq!(generated.contents, "".to_string());
    assert_eq!(generated.title, "My Title".to_string());
    assert_eq!(generated.url, "https://example.com".to_string());
    assert_eq!(generated.fields.pairs, fields.pairs);
}

#[test]
fn fields_insert_replaces_existing_key() {
    let mut fields = Fields::new();
    fields.insert("k1".to_string(), "v1".to_string());
    fields.insert("k2".to_string(), "v2".to_string());
    fields.insert("k1".to_string(), "v3".to_string());
    assert_eq!(
        vec![("k1".to_string(), "v3".to_string()), ("k2".to_string(), "v2".to_string())],
        fields.pairs
    );
}

#[test]
fn break_on_file_error_breaks() {
    let mut invalid_file = File::empty();
    invalid_file.explicit_source = Some(DataSource::Contents("".to_string()));
    let mut input = InputConfig::default();
    input.files = vec![invalid_file];
    input.break_on_file_error = true;
    let output = OutputConfig::default();
    let config = Config { input, output };

    let mut intermediate_entries: Vec<IntermediateEntry> = vec![];
    let mut document_errors: Vec<DocumentError> = vec![];

    let r = fill(&config, &mut intermediate_entries, &mut document_errors).err().unwrap();
    if let IndexGenerationError::DocumentErrors(vec) = r {
        let word_list_generation_error = &vec[0].word_list_generation_error;
        assert_eq!(word_list_generation_error, &WordListGenerationError::EmptyWordList)
    } else {
        assert!(false, "Result is {:?}", r);
    }
}

#[test]
fn false_break_on_file_error_does_not_break() {
    let mut invalid_file = File::empty();
    invalid_file.explicit_source = Some(DataSource::Contents("".to_string()));
    let mut input = InputConfig::default();
    input.files = vec![invalid_file];
    input.break_on_file_error = false;
    let output = OutputConfig::default();
    let config = Config { input, output };

    let mut intermediate_entries: Vec<IntermediateEntry> = vec![];
    let mut document_errors: Vec<DocumentError> = vec![];

    let result = fill(&config, &mut intermediate_entries, &mut document_errors);
    assert!(result.is_ok());
    assert_eq!(document_errors.len(), 1);
    assert_eq!(document_errors[0].word_list_generation_error, WordListGenerationError::EmptyWordList);
}

#[test]
fn no_files_specified_fails() {
    let config = Config::default();
    let mut intermediate_entries: Vec<IntermediateEntry> = vec![];
    let mut document_errors: Vec<DocumentError> = vec![];
    let r = fill(&config, &mut intermediate_entries, &mut document_errors);
    assert!(matches!(r, Err(IndexGenerationError::NoFilesSpecified)));
}

#[test]
fn test_truncate_with_ellipsis_on_naughty_strings() {
    let naughty_strings = vec![
        "ÅÍÎÏ˝ÓÔ\u{f8ff}ÒÚÆ☃",
        "Œ„´‰ˇÁ¨ˆØ∏”’",
        "`⁄€‹›ﬁﬂ‡°·‚—±",
        "田中さんにあげて下さい",
        "和製漢語",
        "👨\u{200d}👩\u{200d}👦 👨\u{200d}👩\u{200d}👧\u{200d}👦 👨\u{200d}👨\u{200d}👦 👩\u{200d}👩\u{200d}👧 👨\u{200d}👦 👨\u{200d}👧\u{200d}👦 👩\u{200d}👦 👩\u{200d}👧\u{200d}👦",
    ];

    for string in naughty_strings {
        let grapheme_count = UnicodeSegmentation::graphemes(string, true).count();

        for i in 0..(grapheme_count + 3) {
            let _ = truncate_with_ellipsis_to_length(string, i, None);
        }
    }
}

#[test]
fn truncate_with_ellipsis_values() {
    assert_eq!("abc...", truncate_with_ellipsis_to_length("abcdef", 3, None));
    assert_eq!("abcdef", truncate_with_ellipsis_to_length("abcdef", 6, None));
    assert_eq!("abcdef", truncate_with_ellipsis_to_length("abcdef", 10, None));
    assert_eq!("ab~", truncate_with_ellipsis_to_length("abcdef", 2, Some("~")));
    assert_eq!("和製...", truncate_with_ellipsis_to_length("和製漢語", 2, None));
}

fn generate_invalid_file_missing_selector() -> File {
    let mut file = contents_file("Missing Selector", "", Some(Filetype::HTML));
    file.html_selector_override = Some(".article".to_string());
    file
}

fn generate_invalid_file_empty_contents() -> File {
    contents_file("Empty Contents", "", Some(Filetype::PlainText))
}

fn generate_valid_file() -> File {
    contents_file("Successful File", "This is contents", Some(Filetype::PlainText))
}

fn config_with_files(files: Vec<File>) -> Config {
    Config { input: InputConfig { files, ..Default::default() }, ..Default::default() }
}

#[test]
fn missing_html_selector_fails_gracefully() {
    let config = config_with_files(vec![generate_invalid_file_missing_selector(), generate_valid_file()]);

    let build_results = build_from_config(&config).unwrap();

    assert_eq!(build_results.1.len(), 1);

    let error_msg = build_results.1.first().unwrap().word_list_generation_error.to_string();

    assert!(error_msg.contains("HTML selector `.article` is not present in the file"), "{}", error_msg);
}

#[test]
fn empty_contents_fails_gracefully() {
    let config = config_with_files(vec![generate_invalid_file_empty_contents(), generate_valid_file()]);

    let build_results = build_from_config(&config).unwrap();
    assert_eq!(build_results.1.len(), 1);

    let error_msg = build_results.1.first().unwrap().word_list_generation_error.to_string();
    assert!(error_msg.contains("No words in word list"));
}

#[test]
fn test_all_invalid_files_return_error() {
    let config = config_with_files(vec![
        generate_invalid_file_empty_contents(),
        generate_invalid_file_missing_selector(),
    ]);

    let build_error = build_from_config(&config).unwrap_err();

    assert!(matches!(build_error, IndexGenerationError::NoValidFiles));
}

#[test]
fn test_failing_file_does_not_halt_indexing() {
    let config = config_with_files(vec![generate_invalid_file_missing_selector(), generate_valid_file()]);

    assert_eq!(build_from_config(&config).unwrap().1.len(), 1);
    assert_eq!(build_from_config(&config).unwrap().0.entries.len(), 1);
}

#[test]
fn built_index_keeps_document_text_and_settings() {
    let mut config = config_with_files(vec![generate_valid_file()]);
    config.input.url_prefix = "https://example.com/".to_string();
    config.output.excerpt_buffer = 3;
    let (index, errors) = build_from_config(&config).unwrap();
    assert!(errors.is_empty());
    assert_eq!("This is contents", index.entries[0].contents);
    assert_eq!("Successful File", index.entries[0].title);
    assert_eq!("https://example.com/", index.config.url_prefix);
    assert_eq!(3, index.config.excerpt_buffer);
    let keys: Vec<&str> = index.containers.iter().map(|(k, _)| k.as_str()).collect();
    assert!(keys.contains(&"contents"));
    assert!(keys.contains(&"this"));
    assert!(keys.contains(&"cont"));
}

#[test]
fn word_list_error_messages() {
    assert_eq!("SRT file could not be parsed", WordListGenerationError::InvalidSRT.to_string());
    assert_eq!("No words in word list", WordListGenerationError::EmptyWordList.to_string());
    assert_eq!(
        "HTML selector `main` is not present in the file",
        WordListGenerationError::SelectorNotPresent("main".to_string()).to_string()
    );
    assert_eq!("The file could not be found", WordListGenerationError::FileNotFound.to_string());
}

#[test]
fn every_document_is_indexed_or_reported() {
    let config = Config {
        input: InputConfig {
            files: vec![
                contents_file("A", "alpha", Some(Filetype::PlainText)),
                contents_file("B", "", Some(Filetype::PlainText)),
                contents_file("C", "gamma delta", Some(Filetype::PlainText)),
            ],
            ..Default::default()
        },
        ..Default::default()
    };
    let (index, errors) = build_from_config(&config).unwrap();
    assert_eq!(2, index.entries.len());
    assert_eq!(1, errors.len());
    assert_eq!("A", index.entries[0].title);
    assert_eq!("C", index.entries[1].title);
    assert_eq!("B", errors[0].file.title);
    assert_eq!(WordListGenerationError::EmptyWordList, errors[0].word_list_generation_error);
}

#[test]
fn indexing_keeps_what_containers_held() {
    let config = Config {
        input: InputConfig {
            files: vec![contents_file("Zebras", "zebra zebras zebu", Some(Filetype::PlainText))],
            ..Default::default()
        },
        ..Default::default()
    };
    let mut entries: Vec<IntermediateEntry> = vec![];
    let mut errors: Vec<DocumentError> = vec![];
    fill(&config, &mut entries, &mut errors).unwrap();
    let mut stems: Vec<(String, Vec<String>)> = vec![];
    fill_stems(&entries, &mut stems);
    let mut held = SearchResult::new();
    held.score = 99;
    let mut containers = vec![(
        "zebra".to_string(),
        Container { results: vec![(7, held)], aliases: vec![("zebras".to_string(), 42)] },
    )];
    fill_containers(&entries, &stems, &mut containers);
    assert_eq!("zebra", containers[0].0);
    assert_eq!(7, containers[0].1.results[0].0);
    assert_eq!(99, containers[0].1.results[0].1.score);
    assert!(containers[0].1.results[0].1.excerpts.is_empty());
    assert_eq!(("zebras".to_string(), 42), containers[0].1.aliases[0]);
    assert!(containers[0].1.results.iter().any(|(doc, _)| *doc == 0));
    assert_eq!(1, containers.iter().filter(|(k, _)| k == "zebra").count());
    let words: Vec<&str> = vec!["zebra", "zebras", "zebu"];
    for (key, container) in &containers {
        assert!(!key.is_empty());
        for (doc, result) in &container.results {
            if *doc == 0 {
                for excerpt in &result.excerpts {
                    let word = match excerpt.source {
                        WordListSource::Title => "zebras",
                        WordListSource::Contents => words[excerpt.word_index],
                    };
                    assert_eq!(key, word);
                }
            }
        }
    }
}

#[test]
fn a_very_long_word_is_indexed_with_wrapping_prefix_scores() {
    let long = "x".repeat(200);
    let config = Config {
        input: InputConfig {
            files: vec![contents_file("Long", &format!("short {}", long), Some(Filetype::PlainText))],
            ..Default::default()
        },
        ..Default::default()
    };
    let (index, errors) = build_from_config(&config).unwrap();
    assert!(errors.is_empty());
    assert_eq!(1, index.entries.len());
    let alias_score = |prefix: &str| {
        let (_, container) = index.containers.iter().find(|(k, _)| k == prefix).unwrap();
        container.aliases.iter().find(|(t, _)| *t == long).unwrap().1
    };
    assert_eq!(186, alias_score(&"x".repeat(3)));
    assert_eq!(126, alias_score(&"x".repeat(199)));
    assert_eq!(0, alias_score(&"x".repeat(73)));
    assert_eq!(255, alias_score(&"x".repeat(72)));
}
