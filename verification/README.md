# stork_search

A full-text search index for static sites, verified with Verus.

The library builds an index from documents (plain text, Markdown, HTML and
SRT subtitles, with optional YAML frontmatter), frames the index into a
versioned byte format, reads the format back, and answers queries with
ranked results and highlighted excerpts.

Layout:

- `src/` — the verified library. `index_versions/v3` holds the current
  format: `builder` (reading documents into words and filling the word
  containers), `search` (matching, grouping, excerpts and ranking),
  `recall` (the proof that an indexed word is found again), `soundness`
  (the proofs that what the containers hold leads back to the documents and
  that they are kept as a map), `reader` and
  `writer` (the byte framing). `v2` and `v1` hold the earlier formats.
  `searcher` reads the version header and dispatches searches; `lib.rs`
  holds the cache of registered indexes.
- `tests/` — tests on concrete values.
- `app/` — the `stork` command line program around the library: argument
  handling, file and network input, TOML configuration and MessagePack,
  bincode and JSON encodings, and the test web server.
