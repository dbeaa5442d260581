use stork_search::argparse::{Argparse, ArgparseOutcome, ValueOrRange};
use stork_search::bytes::{read_frame, read_u64_be, write_frame, write_u64_be};
use stork_search::common::Fields;
use stork_search::index_analyzer;
use stork_search::index_helpers;
use stork_search::index_versions::{v1, v2, v3};
use stork_search::models::config::ConfigInput;
use stork_search::models::StorkEntry;
use stork_search::searcher::index_analyzer::parse_index_version as analyze_index_version;
use stork_search::searcher::parse::{
    index_frames_fit, parse_index_version, read_index_payload, IndexMetadata, IndexParseError,
    IndexPayload, IndexVersion, ParsedIndex, VersionSizeProblem,
};
use stork_search::config::stemming_config::{algorithm_from_name, parse_stemming_config};
use stork_search::config::{Algorithm, Filetype, StemmingConfig};
use stork_search::index_versions::v3::builder::data_source_readers::{
    filetype_for_content_type, filetype_for_media_type,
};
use stork_search::index_versions::v3::builder::errors::{DocumentError, IndexGenerationError, WordListGenerationError};
use stork_search::searcher::SearchError;
use stork_search::sort::stable_order_of;
use stork_search::wasm::{json_serialization_error, wasm_format_error, wasm_output};
use stork_search::text::{decimal_string, int_string, replace_str, split_pieces, trim_str};

fn v2_file() -> Vec<u8> {
    v2::writer::frame_index(b"entries", b"queries")
}

fn v3_file() -> Vec<u8> {
    v3::writer::frame_index(b"payload")
}

fn version_of_file(bytes: &[u8]) -> IndexVersion {
    match read_index_payload(bytes).unwrap() {
        IndexPayload::V2 { .. } => IndexVersion::V2,
        IndexPayload::V3(_) => IndexVersion::V3,
    }
}

#[test]
fn index_analyzer_unknown_version_fails() {
    let badstring = "bad index".as_bytes();
    let err = analyze_index_version(badstring).unwrap_err();
    assert!(
        err == IndexParseError::BadVersionSize(7089057378828444773, VersionSizeProblem::Long),
        "Bad error type, found {:?}",
        err
    );
}

#[test]
fn parse_unknown_version_fails() {
    let badstring = "bad index".as_bytes();
    let err = read_index_payload(badstring).unwrap_err();
    assert!(
        err == IndexParseError::BadVersionSize(7_089_057_378_828_444_773, VersionSizeProblem::Long),
        "Bad error type, found {:?}",
        err
    );
}

#[test]
fn short_blob_throws_short_error() {
    let bytes: &[u8] = &[0, 0, 0, 0, 255, 255, 255, 255];
    assert_eq!(read_index_payload(bytes).unwrap_err(), IndexParseError::FileTooShort)
}

#[test]
fn bad_index_version_throws_error() {
    let bytes: &[u8] = &[0, 0, 0, 0, 0, 0, 0, 0, 255];
    assert_eq!(
        read_index_payload(bytes).unwrap_err(),
        IndexParseError::BadVersionSize(0, VersionSizeProblem::Short)
    )
}

#[test]
fn index_analyzer_can_get_version_of_0_5_3_index() {
    assert_eq!(IndexVersion::V2, analyze_index_version(&v2_file()).unwrap());
}

#[test]
fn index_analyzer_can_get_version_of_0_6_0_index() {
    assert_eq!(IndexVersion::V2, analyze_index_version(&v2_file()).unwrap());
}

#[test]
fn index_analyzer_can_get_version_of_1_0_0_index() {
    assert_eq!(IndexVersion::V3, analyze_index_version(&v3_file()).unwrap());
}

#[test]
fn parse_can_get_version_of_0_5_3_index() {
    assert_eq!(IndexVersion::V2, version_of_file(&v2_file()));
}

#[test]
fn parse_can_get_version_of_0_6_0_index() {
    assert_eq!(IndexVersion::V2, version_of_file(&v2_file()));
}

#[test]
fn parse_can_get_version_of_1_0_0_index() {
    assert_eq!(IndexVersion::V3, version_of_file(&v3_file()));
}

#[test]
fn header_errors() {
    // A version frame that runs past the end of the file.
    let mut b = vec![0, 0, 0, 0, 0, 0, 0, 7];
    b.extend_from_slice(b"stork");
    assert_eq!(IndexParseError::FileTooShort, parse_index_version(&b).unwrap_err());
    // A version string that is not valid UTF-8.
    let mut b = vec![0, 0, 0, 0, 0, 0, 0, 2, 0xff, 0xfe, 0];
    assert_eq!(IndexParseError::VersionStringUtf8Error(vec![0xff, 0xfe]), parse_index_version(&b).unwrap_err());
    // An unknown version string.
    b = vec![0, 0, 0, 0, 0, 0, 0, 7];
    b.extend_from_slice(b"stork-9 rest");
    assert_eq!(
        IndexParseError::UnknownVersionString("stork-9".to_string()),
        parse_index_version(&b).unwrap_err()
    );
    // The first format is not one this reader knows.
    let v1_file = v1::frame_index(b"e", b"r");
    assert_eq!(
        IndexParseError::UnknownVersionString("stork-1.0.0".to_string()),
        parse_index_version(&v1_file).unwrap_err()
    );
}

#[test]
fn v2_framing_round_trips() {
    let file = v2_file();
    assert!(index_frames_fit(&file));
    match read_index_payload(&file).unwrap() {
        IndexPayload::V2 { entries, queries } => {
            assert_eq!(b"entries".to_vec(), entries);
            assert_eq!(b"queries".to_vec(), queries);
        }
        other => panic!("unexpected payload {:?}", other),
    }
}

#[test]
fn v3_framing_round_trips() {
    let file = v3_file();
    assert!(index_frames_fit(&file));
    assert_eq!(
        vec![0, 0, 0, 0, 0, 0, 0, 7, b's', b't', b'o', b'r', b'k', b'-', b'3', 0, 0, 0, 0, 0, 0, 0, 7],
        file[..23].to_vec()
    );
    match read_index_payload(&file).unwrap() {
        IndexPayload::V3(p) => assert_eq!(b"payload".to_vec(), p),
        other => panic!("unexpected payload {:?}", other),
    }
}

#[test]
fn truncated_payload_does_not_fit() {
    let file = v3_file();
    assert!(!index_frames_fit(&file[..file.len() - 1]));
    let file = v2_file();
    assert!(!index_frames_fit(&file[..file.len() - 3]));
}

#[test]
fn version_names_and_metadata() {
    assert_eq!("stork-2", IndexVersion::V2.to_string());
    assert_eq!("stork-3", IndexVersion::V3.to_string());
    assert_eq!("short", VersionSizeProblem::Short.to_string());
    assert_eq!("long", VersionSizeProblem::Long.to_string());
    let index = ParsedIndex::V2(v2::structs::Index { entries: vec![], queries: vec![] });
    assert_eq!(IndexVersion::V2, IndexVersion::from_index(&index));
    assert_eq!("stork-2", IndexMetadata::from_index(&index).index_version);
}

#[test]
fn raw_version_strings() {
    let file = v1::frame_index(b"e", b"r");
    assert_eq!("stork-1.0.0", index_analyzer::get_index_version(&file).unwrap());
    assert_eq!("stork-1.0.0", index_helpers::get_index_version(&file));
    let bad = vec![0, 0, 0, 0, 0, 0, 0, 1, 0xff];
    assert_eq!(index_analyzer::IndexParseError {}, index_analyzer::get_index_version(&bad).unwrap_err());
}

#[test]
fn big_endian_frames() {
    let mut out = Vec::new();
    write_u64_be(0x0102030405060708, &mut out);
    assert_eq!(vec![1, 2, 3, 4, 5, 6, 7, 8], out);
    assert_eq!(0x0102030405060708, read_u64_be(&out));
    let mut framed = Vec::new();
    write_frame(b"abc", &mut framed);
    write_frame(b"", &mut framed);
    let (first, next) = read_frame(&framed, 0);
    assert_eq!(b"abc".to_vec(), first);
    assert_eq!(11, next);
    let (second, end) = read_frame(&framed, next);
    assert!(second.is_empty());
    assert_eq!(framed.len(), end);
}

fn v2_index() -> v2::structs::Index {
    let mut container = v2::structs::Container::new();
    let mut result = v2::structs::SearchResult::new();
    result.excerpts.push(v2::structs::Excerpt { word_index: 1 });
    container.results.push((0, result));
    let mut prefix = v2::structs::Container::new();
    prefix.aliases.push(("liberty".to_string(), 90));
    v2::structs::Index {
        entries: vec![v2::structs::Entry {
            contents: "blessed liberty forever".to_string(),
            title: "Liberty".to_string(),
            url: "/liberty".to_string(),
            fields: Fields::new(),
        }],
        queries: vec![("liberty".to_string(), container), ("lib".to_string(), prefix)],
    }
}

#[test]
fn v2_search_finds_word() {
    let index = v2_index();
    let output = v2::search::try_search(&index, "Liberty").unwrap();
    assert_eq!(1, output.results.len());
    assert_eq!("Liberty", output.results[0].entry.title);
    let excerpt = &output.results[0].excerpts[0];
    let range = excerpt.highlight_ranges[0];
    assert_eq!("liberty", &excerpt.text[range.beginning..range.end]);
}

#[test]
fn v2_search_follows_aliases() {
    let index = v2_index();
    let output = v2::search::try_search(&index, "lib").unwrap();
    assert_eq!(1, output.results.len());
    assert_eq!(0, v2::search::try_search(&index, "nothing").unwrap().results.len());
}

#[test]
fn v2_search_with_missing_document_is_refused() {
    let mut index = v2_index();
    index.entries.clear();
    assert!(v2::search::try_search(&index, "liberty").is_none());
}

fn v1_index() -> stork_search::models::StorkIndex {
    let config = ConfigInput {
        surrounding_word_count: Some(2),
        base_directory: String::new(),
        files: vec![
            StorkEntry {
                path: "a.txt".to_string(),
                url: "/a".to_string(),
                title: "A".to_string(),
                fields: None,
            },
            StorkEntry {
                path: "b.txt".to_string(),
                url: "/b".to_string(),
                title: "B".to_string(),
                fields: None,
            },
        ],
    };
    let texts = vec!["the quick brown fox jumps".to_string(), "a lazy brown dog".to_string()];
    v1::builder::build_index(&config, &texts)
}

#[test]
fn v1_build_and_search() {
    let index = v1_index();
    assert_eq!(2, index.entries.len());
    let version = "stork-1.0.0".to_string();
    let found = v1::search::perform_search(&version, &index, "brown");
    assert_eq!(2, found.len());
    let found = v1::search::perform_search(&version, &index, "quick");
    assert_eq!(1, found.len());
    assert_eq!("A", found[0].entry.title);
    assert!(found[0].result.excerpts[0].value.contains("quick"));
    let other = "stork-2".to_string();
    assert_eq!(0, v1::search::perform_search(&other, &index, "brown").len());
}

#[test]
fn v1_prefix_lookup() {
    let index = v1_index();
    let version = "stork-1.0.0".to_string();
    let found = v1::search::perform_word_lookup(&version, &index, &"qui".to_string());
    assert_eq!(1, found.len());
    assert_eq!(0, found[0].file_index);
}

#[test]
fn v1_contains_str() {
    assert!(v1::search::contains_str(&"a lazy dog".to_string(), &"lazy".to_string()));
    assert!(!v1::search::contains_str(&"a lazy dog".to_string(), &"cat".to_string()));
    assert!(v1::search::contains_str(&"x".to_string(), &"".to_string()));
}

#[derive(Clone, Copy, Debug, PartialEq)]
enum Action {
    Build,
    Search,
}

fn parser() -> Argparse<Action> {
    let mut p = Argparse::new();
    p.register("build", Action::Build, 1);
    p.register_range("search", Action::Search, (2, 3));
    p.register_help("usage: stork");
    p
}

fn args(words: &[&str]) -> Vec<String> {
    words.iter().map(|w| w.to_string()).collect()
}

#[test]
fn argparse_runs_registered_command() {
    match parser().exec(&args(&["stork", "--build", "config.toml"])) {
        ArgparseOutcome::Run(a) => assert_eq!(Action::Build, a),
        other => panic!("unexpected outcome {:?}", other),
    }
    match parser().exec(&args(&["stork", "--search", "index.st", "query"])) {
        ArgparseOutcome::Run(a) => assert_eq!(Action::Search, a),
        other => panic!("unexpected outcome {:?}", other),
    }
}

#[test]
fn argparse_help_and_failures() {
    match parser().exec(&args(&["stork"])) {
        ArgparseOutcome::Help(t) => assert_eq!("usage: stork", t),
        other => panic!("unexpected outcome {:?}", other),
    }
    match parser().exec(&args(&["stork", "--help"])) {
        ArgparseOutcome::Help(t) => assert_eq!("usage: stork", t),
        other => panic!("unexpected outcome {:?}", other),
    }
    match parser().exec(&args(&["stork", "--build"])) {
        ArgparseOutcome::Failure(m) => {
            assert_eq!("Wrong number of arguments given to `build` command. Expected 1 but got 0.", m)
        }
        other => panic!("unexpected outcome {:?}", other),
    }
    match parser().exec(&args(&["stork", "--search", "x"])) {
        ArgparseOutcome::Failure(m) => assert_eq!(
            "Wrong number of arguments given to `search` command. Expected between 2 and 3 but got 1.",
            m
        ),
        other => panic!("unexpected outcome {:?}", other),
    }
    match parser().exec(&args(&["stork", "--nope"])) {
        ArgparseOutcome::Failure(m) => assert_eq!("Command not found: `--nope`.", m),
        other => panic!("unexpected outcome {:?}", other),
    }
    assert_eq!("3", ValueOrRange::Value(3).to_string());
}

#[test]
fn stable_order_sorts_and_keeps_ties() {
    assert_eq!(vec![1, 3, 0, 2], stable_order_of(&vec![5, 1, 5, 3]));
    assert_eq!(Vec::<usize>::new(), stable_order_of(&vec![]));
    assert_eq!(vec![0, 1, 2], stable_order_of(&vec![7, 7, 7]));
}

#[test]
fn text_helpers() {
    assert_eq!("0", decimal_string(0));
    assert_eq!("18446744073709551615", decimal_string(u64::MAX));
    assert_eq!("-42", int_string(-42));
    assert_eq!("-9223372036854775808", int_string(i64::MIN));
    assert_eq!("a-b-c", replace_str("a{x}b{x}c", "{x}", "-"));
    assert_eq!("abc", replace_str("abc", "zz", "-"));
    assert_eq!(vec!["a", "", "b"], split_pieces("a  b", ' '));
    assert_eq!("x y", trim_str("  x y \n"));
}

#[test]
fn error_result_gives_error_json() {
    let computed = wasm_output(Err(json_serialization_error()));
    let expected = "{\"error\": \"Could not convert Stork data to JSON. If you see this, please file a bug: https://jil.im/storkbug\"}".to_string();
    assert_eq!(computed, expected);
}

#[test]
fn wasm_output_passes_json_through() {
    assert_eq!("{\"a\":1}", wasm_output(Ok(Some("{\"a\":1}".to_string()))));
    assert_eq!(
        "{\"error\": \"Could not convert Stork data to JSON. If you see this, please file a bug: https://jil.im/storkbug\"}",
        wasm_output(Ok(None))
    );
    assert_eq!("{\"error\": \"boom\"}", wasm_format_error("boom"));
}

#[test]
fn parse_error_messages() {
    assert_eq!(
        "Index file too short; could not find a version string.",
        IndexParseError::FileTooShort.to_string()
    );
    assert_eq!(
        "Version size `40` is too long; this isn't a valid index file.",
        IndexParseError::BadVersionSize(40, VersionSizeProblem::Long).to_string()
    );
    assert_eq!(
        "Could not parse version string as valid UTF8, got:\n[255, 0, 12]",
        IndexParseError::VersionStringUtf8Error(vec![255, 0, 12]).to_string()
    );
    assert_eq!(
        "Unknown index version `stork-9` found",
        IndexParseError::UnknownVersionString("stork-9".to_string()).to_string()
    );
    assert_eq!(
        "Index not found. You must parse an index before performing searches with it.",
        SearchError::NamedIndexNotInCache.to_string()
    );
    assert_eq!("Unknown error.", SearchError::InternalCrash.to_string());
}

#[test]
fn stemming_names_round_trip() {
    assert_eq!(Ok(StemmingConfig::Disabled), parse_stemming_config("none"));
    assert_eq!(Ok(StemmingConfig::Disabled), parse_stemming_config("None"));
    assert_eq!(Ok(StemmingConfig::Language(Algorithm::Dutch)), parse_stemming_config("Dutch"));
    assert_eq!(
        Err("Unexpected value `Klingon`, expected `none` or a language supported by https://snowballstem.org/, e.g. `Dutch`".to_string()),
        parse_stemming_config("Klingon")
    );
    assert!(parse_stemming_config("dutch").is_err());
    for c in [StemmingConfig::Disabled, StemmingConfig::Language(Algorithm::Turkish), StemmingConfig::Language(Algorithm::English)] {
        assert_eq!(Ok(c), parse_stemming_config(&c.to_string()));
    }
    assert_eq!("Portuguese", Algorithm::Portuguese.name());
}

#[test]
fn stemming_names_are_read_as_toml_strings() {
    assert_eq!(Ok(StemmingConfig::Language(Algorithm::English)), parse_stemming_config(r"Eng\u006cish"));
    assert_eq!(Some(Algorithm::Greek), algorithm_from_name(r"Gr\u0065ek"));
    assert_eq!(None, algorithm_from_name("Greek\""));
    assert_eq!(None, algorithm_from_name(""));
    assert_eq!(Some(Algorithm::Tamil), algorithm_from_name("Tamil"));
}

#[test]
fn generation_error_messages() {
    let mut file = stork_search::config::File::empty();
    file.explicit_source = Some(stork_search::config::DataSource::FilePath("docs/a.md".to_string()));
    let error = DocumentError { file, word_list_generation_error: WordListGenerationError::EmptyWordList };
    assert_eq!("- No words in word list\n  docs/a.md", error.to_string());
    assert_eq!("No files could be indexed", IndexGenerationError::NoValidFiles.to_string());
    assert_eq!(
        "1 error found while indexing files. If you want to fail silently and still build an index, remove `break_on_file_error` from your config.\n- No words in word list\n  docs/a.md",
        IndexGenerationError::DocumentErrors(vec![error]).to_string()
    );
}

#[test]
fn media_types_name_filetypes() {
    let file = stork_search::config::File::empty();
    let mt = |a: &str, b: &str| Some((a.to_string(), b.to_string()));
    assert_eq!(Ok(Filetype::HTML), filetype_for_media_type(&file, mt("text", "html")));
    assert_eq!(Ok(Filetype::PlainText), filetype_for_media_type(&file, mt("TEXT", "Plain")));
    assert_eq!(Err(WordListGenerationError::UnknownContentType), filetype_for_media_type(&file, mt("text", "markdown")));
    assert_eq!(Err(WordListGenerationError::UnknownContentType), filetype_for_media_type(&file, mt("image", "png")));
    assert_eq!(Err(WordListGenerationError::UnknownContentType), filetype_for_media_type(&file, None));
}

#[test]
fn content_type_headers_name_filetypes() {
    let file = stork_search::config::File::empty();
    assert_eq!(Ok(Filetype::HTML), filetype_for_content_type(&file, Some("text/html; charset=utf-8")));
    assert_eq!(Ok(Filetype::HTML), filetype_for_content_type(&file, Some("Text/HTML")));
    assert_eq!(
        Err(WordListGenerationError::UnknownContentType),
        filetype_for_content_type(&file, Some("text/markdown"))
    );
    assert_eq!(Ok(Filetype::PlainText), filetype_for_content_type(&file, Some("text/plain")));
    assert_eq!(
        Err(WordListGenerationError::UnknownContentType),
        filetype_for_content_type(&file, Some("application/json"))
    );
    assert_eq!(Err(WordListGenerationError::UnknownContentType), filetype_for_content_type(&file, Some("html")));
    assert_eq!(Err(WordListGenerationError::UnknownContentType), filetype_for_content_type(&file, None));
    let mut html = stork_search::config::File::empty();
    html.filetype = Some(Filetype::HTML);
    assert_eq!(Ok(Filetype::HTML), filetype_for_content_type(&html, Some("image/png")));
}

#[test]
fn write_error_message() {
    let e = v3::writer::WriteError::FileCreateError("out.st".to_string());
    assert_eq!("Could not write to file out.st!", e.to_string());
}
