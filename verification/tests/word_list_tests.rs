use stork_search::common::InternalWordAnnotation;
use stork_search::config::{File, Filetype, InputConfig, SRTConfig, SRTTimestampFormat};
use stork_search::index_versions::v3::builder::data_source_readers::{filetype_for_path, get_filetype_from_path};
use stork_search::index_versions::v3::builder::errors::WordListGenerationError;
use stork_search::index_versions::v3::builder::word_list_generators::{
    build_srt_url_time_suffix, create_word_list, generate_html, generate_markdown, generate_plain_text,
    generate_srt, html_words_from_selection, HtmlNode, ReadResult, ReaderConfig,
};
use stork_search::index_versions::v3::structs::AnnotatedWordList;

fn file_with_selectors(selector: Option<&str>, exclude: Option<&str>) -> File {
    let mut file = File::empty();
    file.html_selector_override = selector.map(ToString::to_string);
    file.exclude_html_selector_override = exclude.map(ToString::to_string);
    file
}

fn read_result_from_string(s: &str, filetype: Filetype) -> ReadResult {
    ReadResult { buffer: s.to_string(), filetype: Some(filetype), frontmatter_fields: None }
}

fn extract_text(result: Result<AnnotatedWordList, WordListGenerationError>) -> String {
    result.ok().unwrap().word_list.iter().map(|aw| aw.word.clone()).collect::<Vec<String>>().join(" ")
}

fn html_words(
    selector: Option<&str>,
    exclude: Option<&str>,
    html: &str,
) -> Result<AnnotatedWordList, WordListGenerationError> {
    let global = InputConfig::default();
    let file = file_with_selectors(selector, exclude);
    let config = ReaderConfig { global: &global, file: &file };
    generate_html(&config, &read_result_from_string(html, Filetype::HTML))
}

fn run_html_parse_test(expected: &str, selector: Option<&str>, exclude: Option<&str>, html: &str) {
    let computed = extract_text(html_words(selector, exclude, html));
    assert_eq!(expected, computed, "expected: {}\ncomputed: {}", expected, computed)
}

#[test]
fn html_word_list_generator_test_basic_html_content_extraction() {
    run_html_parse_test(
        "This is some text",
        None,
        None,
        r#"
        <html>
            <head></head>
            <body><h1>This is a title</h1><main><p>This is some text</p></main></body>
        </html>"#,
    );
}

#[test]
fn html_word_list_generator_test_html_content_extraction_with_custom_selector() {
    run_html_parse_test(
        "This content should be indexed",
        Some(".yes"),
        None,
        r#"
        <html>
            <head></head>
            <body>
                <h1>This is a title</h1>
                <main>
                    <section class="no"><p>Stork should not recognize this text</p></section>
                    <section class="yes"><p>This content should be indexed</p></section>
                </main>
            </body>
        </html>"#,
    )
}

#[test]
fn test_html_content_extraction_with_excluded_selector() {
    run_html_parse_test(
        "This content should be indexed This content should also be indexed",
        Some(".yes"),
        Some(".no"),
        r#"
        <html>
            <head></head>
            <body>
                <h1>This is a title</h1>
                <main>
                    <section class="yes" id="first">
                        <p>This content should be indexed</p>
                        <p id="second">This content should also be indexed</p>
                        <p class="no">This content should not be indexed</p>
                    </section>
                </main>
            </body>
        </html>"#,
    )
}

#[test]
fn html_word_list_generator_test_selector_not_present() {
    let computed = html_words(
        Some(".yes"),
        Some(".no"),
        r#"
                <html>
                    <head></head>
                    <body>
                        <h1>This is a title</h1>
                        <main>
                            <section class="no"><p>Stork should not recognize this text</p></section>
                        </main>
                    </body>
                </html>"#,
    )
    .is_err();

    assert!(computed);
}

#[test]
fn html_word_list_generator_test_selector_present_but_empty_contents() {
    let computed = html_words(
        Some(".yes"),
        Some(".no"),
        r#"
                    <html>
                        <head></head>
                        <body>
                            <h1>This is a title</h1>
                            <main>
                                <section class="no"><p>Stork should not recognize this text</p></section>
                                <section class="yes"><p></p></section>
                            </main>
                        </body>
                    </html>"#,
    )
    .unwrap_err();

    assert_eq!(WordListGenerationError::EmptyWordList, computed);
}

#[test]
fn html_word_list_generator_test_html_content_extraction_with_multiple_selector_matches() {
    run_html_parse_test(
        "This content should be indexed. This content is in a duplicate selector. It should also be indexed.",
        Some(".yes"),
        None,
        r#"
            <html>
                <head></head>
                <body>
                    <h1>This is a title</h1>
                    <main>
                        <section class="no"><p>Stork should not recognize this text</p></section>
                        <section class="yes"><p>This content should be indexed.</p></section>
                        <section class="yes"><p>This content is in a duplicate selector.</p><p>It should also be indexed.</p></section>
                    </main>
                </body>
            </html>"#,
    )
}

#[test]
fn test_img_alt_text_extraction() {
    run_html_parse_test(
        "This content should be indexed. This is a random text node that should be picked up! A nice bird! 2004-era interactivity! This content is in a duplicate selector. It should also be indexed.",
        Some(".yes"),
        None,
        r#"
            <html>
                <head></head>
                <body>
                    <h1>This is a title</h1>
                    <main>
                        <section class="no"><p>Stork should not recognize this text</p></section>
                        This is a random text node that should not be picked up!
                        <section class="yes">
                            <p>This content should be indexed.</p>
                            This is a random text node that should be picked up!
                            <img src="https://stork-search.net/logo.svg" alt="A nice bird!"></img>
                            <applet src="https://stork-search.net/logo.svg" alt="2004-era interactivity!"></applet>
                        </section>
                        <section class="yes"><p>This content is in a duplicate selector.</p><p>It should also be indexed.</p></section>
                    </main>
                </body>
            </html>"#,
    )
}

#[test]
fn test_index_blocklist() {
    run_html_parse_test(
        "Article content More article content",
        Some("article"),
        Some(".no-index"),
        r#"<main>
        <aside>...</aside>
        <article>
          <p>Article content</p>
          <div class="no-index">This shouldn't be indexed</div>
          <p>More article content</p>
        </article>
      </main>"#,
    )
}

#[test]
fn test_self_closing_tag_behavior() {
    run_html_parse_test(
        "This content should be indexed. This is a random text node that should be picked up! A nice bird! 2004-era interactivity! This content is in a duplicate selector. It should also be indexed.",
        Some(".yes"),
        None,
        r#"
            <html>
                <head></head>
                <body>
                    <h1>This is a title</h1>
                    <main>
                        <section class="no"><p>Stork should not recognize this text</p></section>
                        This is a random text node that should not be picked up!
                        <section class="yes">
                            <p>This content should be indexed.</p>
                            This is a random text node that should be picked up!
                            <img src="https://stork-search.net/logo.svg" alt="A nice bird!" />
                            <applet src="https://stork-search.net/logo.svg" alt="2004-era interactivity!"></applet>
                        </section>
                        <section class="yes"><p>This content is in a duplicate selector.</p><p>It should also be indexed.</p></section>
                    </main>
                </body>
            </html>"#,
    )
}

#[test]
fn html_word_list_generator_test_html_content_extraction_from_inner_tags() {
    let expected = "This content should be indexed. This is another paragraph with inline text formatting . This is in a table cell.";
    run_html_parse_test(
        expected,
        Some(".yes"),
        None,
        r#"
            <html>
                <head></head>
                <body>
                    <h1>This is a title</h1>
                    <main>
                        <section class="no"><p>Stork should not recognize this text</p></section>
                        <section class="yes">
                            <p>This content should be indexed.</p>
                            <p>This is another paragraph with <strong><em>inline text</em>formatting</strong>.</p>
                            <div><img src="https://example.com/foo.png" /><table><tr><td>This is in a table cell.</td></tr></table></div>
                        </section>
                    </main>
                </body>
            </html>"#,
    );
}

#[test]
fn word_list_generators_test_basic_html_content_extraction() {
    let expected = "This is some text";
    let global = InputConfig::default();
    let file = File::empty();
    let computed = extract_text(generate_html(
        &ReaderConfig { global: &global, file: &file },
        &read_result_from_string(
            r#"
                <html>
                    <head></head>
                    <body><h1>This is a title</h1><main><p>This is some text</p></main></body>
                </html>"#,
            Filetype::HTML,
        ),
    ));
    assert!(expected == computed);
}

#[test]
fn word_list_generators_test_html_content_extraction_with_custom_selector() {
    let expected = "This content should be indexed";
    let global = InputConfig { html_selector: Some(".yes".to_string()), ..Default::default() };
    let file = File::empty();
    let computed = extract_text(generate_html(
        &ReaderConfig { global: &global, file: &file },
        &read_result_from_string(
            r#"
                <html>
                    <head></head>
                    <body>
                        <h1>This is a title</h1>
                        <main>
                            <section class="no"><p>Stork should not recognize this text</p></section>
                            <section class="yes"><p>This content should be indexed</p></section>
                        </main>
                    </body>
                </html>"#,
            Filetype::HTML,
        ),
    ));
    assert!(expected == computed);
}

#[test]
fn html_words_carry_nearest_id() {
    let list = html_words(
        None,
        None,
        r#"<main><h2 id="intro">Hello there</h2><p>again</p></main>"#,
    )
    .unwrap();
    let words: Vec<&str> = list.word_list.iter().map(|w| w.word.as_str()).collect();
    assert_eq!(vec!["Hello", "there", "again"], words);
    for w in &list.word_list {
        assert_eq!(vec![InternalWordAnnotation::NearestHtmlId("intro".to_string())], w.internal_annotations);
    }
}

#[test]
fn html_selector_not_present_names_selector() {
    let err = html_words(Some(".missing"), None, "<main><p>words</p></main>").unwrap_err();
    assert_eq!(WordListGenerationError::SelectorNotPresent(".missing".to_string()), err);
}

const MARKDOWN_DOCUMENT: &str = r#"
# This is a title

Stork should recognize this text

- This content should be indexed.
- This is another paragraph with **_inline text_formatting**.
- [This is a link.](https://example.com)

Goodbye!"#;

fn markdown_text() -> String {
    let global = InputConfig::default();
    let file = File::empty();
    generate_markdown(
        &ReaderConfig { global: &global, file: &file },
        &read_result_from_string(MARKDOWN_DOCUMENT, Filetype::Markdown),
    )
    .ok()
    .unwrap()
    .word_list
    .iter()
    .map(|aw| aw.word.clone().trim().to_string())
    .collect::<Vec<String>>()
    .join(" ")
}

#[test]
fn markdown_word_list_generator_test_markdown() {
    let expected = "This is a title Stork should recognize this text This content should be indexed. This is another paragraph with inline text formatting . This is a link. Goodbye!";
    assert_eq!(expected, markdown_text());
}

#[test]
fn html_word_list_generator_test_markdown() {
    let expected = "This is a title Stork should recognize this text This content should be indexed. This is another paragraph with inline text formatting . This is a link. Goodbye!";
    assert_eq!(expected, markdown_text());
}

#[test]
fn plain_text_splits_on_whitespace_and_hyphens() {
    let computed = extract_text(generate_plain_text(&read_result_from_string(
        "  Hastings-on-hudson\tis\n nice ",
        Filetype::PlainText,
    )));
    assert_eq!("Hastings on hudson is nice", computed);
}

#[test]
fn create_word_list_without_filetype_fails() {
    let global = InputConfig::default();
    let file = File::empty();
    let read = ReadResult { buffer: "words".to_string(), filetype: None, frontmatter_fields: None };
    let err = create_word_list(&ReaderConfig { global: &global, file: &file }, &read).unwrap_err();
    assert_eq!(WordListGenerationError::CannotDetermineFiletype, err);
}

const SRT_DOCUMENT: &str = "1\n00:00:01,000 --> 00:00:02,000\nHello world\n\n2\n01:02:03,000 --> 01:02:04,000\nSecond line\n";

#[test]
fn srt_words_carry_time_suffixes() {
    let global = InputConfig::default();
    let list = generate_srt(&global, &read_result_from_string(SRT_DOCUMENT, Filetype::SRTSubtitle)).unwrap();
    let words: Vec<&str> = list.word_list.iter().map(|w| w.word.as_str()).collect();
    assert_eq!(vec!["Hello", "world", "Second", "line"], words);
    assert_eq!(vec![InternalWordAnnotation::UrlSuffix("&t=1".to_string())], list.word_list[0].internal_annotations);
    assert_eq!(
        vec![InternalWordAnnotation::UrlSuffix("&t=3723".to_string())],
        list.word_list[3].internal_annotations
    );
}

#[test]
fn srt_without_linking_has_no_annotations() {
    let mut global = InputConfig::default();
    global.srt_config.timestamp_linking = false;
    let list = generate_srt(&global, &read_result_from_string(SRT_DOCUMENT, Filetype::SRTSubtitle)).unwrap();
    assert!(list.word_list.iter().all(|w| w.internal_annotations.is_empty()));
}

#[test]
fn srt_url_time_suffix_fills_template() {
    let config = SRTConfig {
        timestamp_linking: true,
        timestamp_template_string: "#t={ts}s".to_string(),
        timestamp_format: SRTTimestampFormat::NumberOfSeconds,
    };
    assert_eq!("#t=3723s", build_srt_url_time_suffix(1, 2, 3, &config));
    assert_eq!("#t=0s", build_srt_url_time_suffix(0, 0, 0, &config));
}

#[test]
fn filetypes_from_paths() {
    assert_eq!(Some(Filetype::HTML), get_filetype_from_path("docs/page.HTML"));
    assert_eq!(Some(Filetype::HTML), get_filetype_from_path("page.htm"));
    assert_eq!(Some(Filetype::SRTSubtitle), get_filetype_from_path("a/b/film.srt"));
    assert_eq!(Some(Filetype::PlainText), get_filetype_from_path("notes.txt"));
    assert_eq!(Some(Filetype::Markdown), get_filetype_from_path("readme.md"));
    assert_eq!(Some(Filetype::Markdown), get_filetype_from_path("readme.markdown"));
    assert_eq!(None, get_filetype_from_path("archive.tar.gz"));
    assert_eq!(None, get_filetype_from_path("Makefile"));
    let mut file = File::empty();
    assert_eq!(Some(Filetype::PlainText), filetype_for_path(&file, "x.txt"));
    file.filetype = Some(Filetype::Markdown);
    assert_eq!(Some(Filetype::Markdown), filetype_for_path(&file, "x.txt"));
}

fn node(id: Option<&str>, alt: Option<&str>, text: Option<&str>) -> HtmlNode {
    HtmlNode {
        id: id.map(ToString::to_string),
        title: None,
        alt: alt.map(ToString::to_string),
        text: text.map(ToString::to_string),
    }
}

#[test]
fn selection_without_parts_names_selector() {
    assert_eq!(
        WordListGenerationError::SelectorNotPresent(".x".to_string()),
        html_words_from_selection(".x".to_string(), None).unwrap_err()
    );
    assert_eq!(
        WordListGenerationError::SelectorNotPresent(".x".to_string()),
        html_words_from_selection(".x".to_string(), Some((0, vec![]))).unwrap_err()
    );
}

#[test]
fn selection_words_follow_nodes() {
    let nodes = vec![
        node(Some("top"), None, None),
        node(None, None, Some("  two words ")),
        node(None, Some("a bird"), None),
    ];
    let list = html_words_from_selection("main".to_string(), Some((1, nodes))).unwrap();
    let words: Vec<&str> = list.word_list.iter().map(|w| w.word.as_str()).collect();
    assert_eq!(vec!["two", "words", "a", "bird"], words);
    assert_eq!(vec![InternalWordAnnotation::NearestHtmlId("top".to_string())], list.word_list[3].internal_annotations);
    assert_eq!(
        WordListGenerationError::EmptyWordList,
        html_words_from_selection("main".to_string(), Some((2, vec![node(None, None, Some("   "))]))).unwrap_err()
    );
}
