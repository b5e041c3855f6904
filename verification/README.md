# dora

Structural code search: queries in Tree-sitter's S-expression syntax run
over the syntax trees of source files, with a trigram Bloom-filter index
that lets a search skip files which cannot contain a query's literals.

The library in `src/` is verified with Verus. Public functions state what
they return or change in their contracts (where Tree-sitter answers, over
names for its answers), and the laws of the library
(no false negatives in the filter, what an index upsert leaves behind, that
reported results are sorted and unique, that a rewrite edit only touches its
range, ...) are public proof functions named `law_*`.

- `src/bloom.rs`, `src/trigram.rs`, `src/sieve.rs`: the filter, trigram
  extraction and the per-file decision whether a file must be parsed.
- `src/index.rs`, `src/indexer.rs`: index manifests and how an index build
  reuses, creates and assembles entries.
- `src/query.rs`, `src/extractor.rs`, `src/order.rs`: compiling what a search
  needs of a query (kind ids, `#match?` predicates), turning query matches
  into results and symbols, and the order of results.
- `src/rewrite.rs`: rewrite templates, edits and their application.
- `src/cli.rs`, `src/output.rs`, `src/parser.rs`, `src/walker.rs`,
  `src/memory.rs`, `src/types.rs`: options, messages, output lines,
  languages, which files a walk keeps, and the symbol store's rows.
- `src/syntax.rs`: the calls into Tree-sitter (grammars, parsing, query
  compilation and matching, walking a tree), each behind a trusted item.
  Trees and queries are kept with the language and text they come from, and
  what Tree-sitter answers is named over those values; the verified code
  turns the answers into results, symbols and the AST listing.
- `src/tui.rs`, `src/view.rs`: the interactive browser's state machine and
  what its panes show.

`app/` is the command-line program around the library: argument parsing,
the filesystem walk, reading and mapping files, the on-disk index and symbol
store, the terminal and the event loop. `tests/` holds the tests, some of
which run the library on real syntax trees.
