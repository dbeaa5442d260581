use stork_search::config::{Config, DataSource, File, Filetype, InputConfig};
use stork_search::index_versions::v3::builder::data_source_readers::read_from_contents;
use stork_search::index_versions::v3::builder::errors::WordListGenerationError;
use stork_search::index_versions::v3::builder::word_list_generators::ReadResult;
use stork_search::index_versions::v3::builder::{normalize_word, remove_surrounding_punctuation, try_build};
use stork_search::index_versions::v3::search::try_search;
use stork_search::common::Fields;
use stork_search::index_versions::v3::search::intermediate_excerpt::IntermediateExcerpt;
use stork_search::index_versions::v3::structs::{Entry, Index, PassthroughConfig, WordListSource};
use stork_search::searcher::{HighlightRange, OutputResult};
use stork_search::index_versions::ParsedIndex;
use stork_search::searcher::parse::{IndexParseError, IndexVersion};
use stork_search::searcher::{search, SearchError};
use stork_search::{parse_and_cache_index, search_from_cache, search_with_index, IndexCache};

fn document(title: &str, url: &str, text: &str) -> File {
    let mut file = File::empty();
    file.title = title.to_string();
    file.url = url.to_string();
    file.explicit_source = Some(DataSource::Contents(text.to_string()));
    file.filetype = Some(Filetype::PlainText);
    file
}

fn build_index(files: Vec<File>) -> Index {
    let config = Config { input: InputConfig { files, ..Default::default() }, ..Default::default() };
    let reads: Vec<Result<ReadResult, WordListGenerationError>> = config
        .input
        .files
        .iter()
        .map(|file| read_from_contents(file).ok_or(WordListGenerationError::FileNotFound))
        .collect();
    try_build(&config, reads).unwrap().0
}

fn sample_index() -> Index {
    build_index(vec![
        document("Liberty", "https://example.com/liberty", "the blessings of liberty are many for the people"),
        document("Old World", "https://example.com/old", "the old world had other customs and liberty was rare"),
        document("Weather", "https://example.com/weather", "rain and sun alternate in spring"),
    ])
}

#[test]
fn search_finds_documents_with_word() {
    let index = sample_index();
    let output = try_search(&index, "liberty").unwrap();
    assert_eq!(2, output.results.len());
    assert_eq!(2, output.total_hit_count);
    let mut titles: Vec<&str> = output.results.iter().map(|r| r.entry.title.as_str()).collect();
    titles.sort();
    assert_eq!(vec!["Liberty", "Old World"], titles);
    for result in &output.results {
        assert!(!result.excerpts.is_empty());
        for excerpt in &result.excerpts {
            assert!(!excerpt.highlight_ranges.is_empty());
            for range in &excerpt.highlight_ranges {
                assert!(range.beginning < range.end && range.end <= excerpt.text.len());
                assert_eq!("liberty", excerpt.text[range.beginning..range.end].to_lowercase());
            }
        }
    }
}

#[test]
fn search_results_are_ranked_by_score() {
    let index = sample_index();
    let output = try_search(&index, "liberty old world").unwrap();
    assert!(!output.results.is_empty());
    for pair in output.results.windows(2) {
        assert!(pair[0].score >= pair[1].score);
    }
    assert_eq!("Old World", output.results[0].entry.title);
}

#[test]
fn search_is_case_insensitive() {
    let index = sample_index();
    let lower = try_search(&index, "liberty").unwrap();
    let upper = try_search(&index, "LIBERTY").unwrap();
    assert_eq!(lower.results.len(), upper.results.len());
    assert_eq!(lower.total_hit_count, upper.total_hit_count);
}

#[test]
fn search_matches_prefixes() {
    let index = sample_index();
    let output = try_search(&index, "weat").unwrap();
    assert_eq!(1, output.results.len());
    assert_eq!("Weather", output.results[0].entry.title);
    assert_eq!(0, try_search(&index, "zebra").unwrap().results.len());
}

#[test]
fn search_title_is_highlighted() {
    let index = sample_index();
    let output = try_search(&index, "weather").unwrap();
    assert_eq!(1, output.results.len());
    assert_eq!(1, output.results[0].title_highlight_ranges.len());
    let r = output.results[0].title_highlight_ranges[0];
    assert_eq!((0, 7), (r.beginning, r.end));
}

#[test]
fn search_with_empty_query_finds_nothing() {
    let index = sample_index();
    let output = try_search(&index, "").unwrap();
    assert_eq!(0, output.results.len());
    assert_eq!(0, output.total_hit_count);
}

#[test]
fn latest_version_search_agrees() {
    let index = sample_index();
    let a = try_search(&index, "rain").unwrap();
    let b = search_with_index(&index, "rain");
    assert_eq!(a.results.len(), b.results.len());
    assert_eq!(a.results[0].entry.url, b.results[0].entry.url);
}

#[test]
fn cache_search_after_register() {
    let mut cache = IndexCache::new();
    let registered = parse_and_cache_index(&mut cache, Ok(ParsedIndex::V3(sample_index())), "docs").unwrap();
    assert_eq!(IndexVersion::V3, IndexVersion::from_index(registered));
    match registered {
        ParsedIndex::V3(index) => assert_eq!(sample_index().entries.len(), index.entries.len()),
        _ => panic!("the registered index is not of the third format"),
    }
    let found = search_from_cache(&cache, "docs", "rain").unwrap();
    assert_eq!(1, found.results.len());
    assert_eq!("Weather", found.results[0].entry.title);
    let direct = search(cache.get("docs").unwrap(), "rain").unwrap();
    assert_eq!(direct.results.len(), found.results.len());
}

#[test]
fn cache_missing_name_is_an_error() {
    let cache = IndexCache::new();
    assert_eq!(SearchError::NamedIndexNotInCache, search_from_cache(&cache, "docs", "rain").unwrap_err());
}

#[test]
fn cache_replaces_index_under_same_name() {
    let mut cache = IndexCache::new();
    parse_and_cache_index(&mut cache, Ok(ParsedIndex::V3(sample_index())), "docs").unwrap();
    let other = build_index(vec![document("Only", "u", "zebras everywhere")]);
    parse_and_cache_index(&mut cache, Ok(ParsedIndex::V3(other)), "docs").unwrap();
    assert_eq!(0, search_from_cache(&cache, "docs", "rain").unwrap().results.len());
    assert_eq!(1, search_from_cache(&cache, "docs", "zebras").unwrap().results.len());
}

#[test]
fn cache_keeps_other_names() {
    let mut cache = IndexCache::new();
    parse_and_cache_index(&mut cache, Ok(ParsedIndex::V3(sample_index())), "a").unwrap();
    let other = build_index(vec![document("Only", "u", "zebras everywhere")]);
    parse_and_cache_index(&mut cache, Ok(ParsedIndex::V3(other)), "b").unwrap();
    assert_eq!(1, search_from_cache(&cache, "a", "rain").unwrap().results.len());
    assert_eq!(0, search_from_cache(&cache, "b", "rain").unwrap().results.len());
}

#[test]
fn cache_does_not_register_failed_parse() {
    let mut cache = IndexCache::new();
    let r = parse_and_cache_index(&mut cache, Err(IndexParseError::FileTooShort), "docs");
    assert_eq!(IndexParseError::FileTooShort, r.unwrap_err());
    assert!(cache.get("docs").is_none());
}

#[test]
fn punctuation_is_removed_from_both_ends() {
    assert_eq!("hello", remove_surrounding_punctuation("...hello!?"));
    assert_eq!("it's", remove_surrounding_punctuation("'it's'"));
    assert_eq!("", remove_surrounding_punctuation("!!!"));
    assert_eq!("a-b", remove_surrounding_punctuation("a-b"));
    let once = remove_surrounding_punctuation("(word).");
    assert_eq!(once, remove_surrounding_punctuation(&once));
}

#[test]
fn words_are_normalized() {
    assert_eq!("liberty", normalize_word("\"Liberty,\""));
    assert_eq!("ümlaut", normalize_word("Ümlaut"));
}

#[test]
fn indexing_stops_at_a_word_of_punctuation() {
    let index = build_index(vec![document("Dots", "u", "early ... liberty")]);
    assert_eq!(1, try_search(&index, "early").unwrap().results.len());
    assert_eq!(0, try_search(&index, "liberty").unwrap().results.len());
}

#[test]
fn search_over_several_words_counts_each_document_once() {
    let index = sample_index();
    let output = try_search(&index, "the liberty").unwrap();
    assert_eq!(2, output.total_hit_count);
    assert_eq!(2, output.results.len());
}

#[test]
fn words_with_a_shared_stem_find_each_other() {
    let index = build_index(vec![document("A", "a", "running fast"), document("B", "b", "he runs daily")]);
    let output = try_search(&index, "runs").unwrap();
    let mut titles: Vec<&str> = output.results.iter().map(|r| r.entry.title.as_str()).collect();
    titles.sort();
    assert_eq!(vec!["A", "B"], titles);
}

fn match_at_second_word(score: u8) -> IntermediateExcerpt {
    IntermediateExcerpt {
        query: "b".to_string(),
        entry_index: 0,
        score,
        source: WordListSource::Contents,
        word_index: 1,
        internal_annotations: vec![],
        fields: Fields::new(),
    }
}

#[test]
fn duplicate_matches_at_one_word_keep_the_highest_score() {
    let entry = Entry { contents: "a b c".to_string(), title: String::new(), url: String::new(), fields: Fields::new() };
    let config = PassthroughConfig::default();
    for matches in [
        vec![match_at_second_word(100), match_at_second_word(128)],
        vec![match_at_second_word(128), match_at_second_word(100)],
    ] {
        let result = OutputResult::from_matches(&entry, &config, &matches).unwrap();
        assert_eq!(1, result.excerpts.len());
        assert_eq!(128, result.excerpts[0].score);
        assert_eq!(vec![HighlightRange { beginning: 2, end: 3 }], result.excerpts[0].highlight_ranges);
        assert_eq!(128, result.score);
    }
}

#[test]
fn containers_lead_back_to_the_documents() {
    let index = build_index(vec![
        document("Stemming Words", "a", "Liberty, liberties and the Liberated!"),
        document("Other", "b", "the people liberate"),
    ]);
    let mut keys: Vec<&String> = vec![];
    for (key, container) in &index.containers {
        assert!(!keys.contains(&key));
        keys.push(key);
        let mut documents: Vec<usize> = vec![];
        for (doc, result) in &container.results {
            assert!(!documents.contains(doc));
            documents.push(*doc);
            let entry = &index.entries[*doc];
            for excerpt in &result.excerpts {
                let words: Vec<&str> = match excerpt.source {
                    WordListSource::Title => entry.title.split_whitespace().collect(),
                    WordListSource::Contents => entry.contents.split_whitespace().collect(),
                };
                assert_eq!(*key, normalize_word(words[excerpt.word_index]));
            }
        }
        let mut targets: Vec<&String> = vec![];
        for (target, _) in &container.aliases {
            assert!(!targets.contains(&target));
            targets.push(target);
            assert!(index.containers.iter().any(|(k, c)| k == target && !c.results.is_empty()));
            assert_ne!(key, target);
        }
    }
}
