# gpui_docs

A local stdio MCP server that indexes GPUI documentation, examples and the
public API of Zed's `crates/gpui`, so that an agent can look things up instead
of guessing. The search, lookup, ranking, parsing and reply logic is a Verus
library with specifications and proofs; a thin program around it does the I/O.

## Layout

- `src/` — the verified library.
  - `text.rs`: character-level string operations specified over `Seq<char>`
    (infix and prefix tests, counting and replacing, words, lines, trimming,
    UTF-8 lengths and byte cuts, lexicographic order, decimal numbers).
  - `sort.rs`: a stable insertion sort with its specification, and the proof
    that it orders any total preorder.
  - `paths.rs`: what `std::path` computes from a path, through named results.
  - `index.rs`: the markdown/example corpus — scoring search, `get` by id,
    suffix or file name, snippets, and which files are indexed.
  - `syntax.rs`: reading a source file with `syn` (trusted wrappers that hand
    the syntax tree over field by field) and indexing it.
  - `parse.rs`, `api_index.rs`: the symbol index — symbols from parsed items,
    tiered lookup, the method listing of a type, merging the macro-generated
    `Styled` methods, the sorted saved index.
  - `example_index.rs`: which GPUI names an example uses and ranking
    examples for a set of symbols.
  - `curated.rs`: recipe search and the scaffold templates.
  - `error_decoder.rs`: error patterns (through the `regex` crate) and the
    fallback symbol lookup.
  - `sources.rs`, `sync.rs`, `persist.rs`: remotes, the Zed pin, cache
    directories, revision matching, the sync plan and log, build stamps.
  - `server.rs`, `server/examples.rs`: the text of every tool reply.
- `tests/` — tests of the library.
- `app/` — `main`, the MCP server (`rmcp`), git, the file system, the `syn`
  visitor over examples, JSON files, and the bundled recipe programs.

Each module states its laws (ordering of results, what merging keeps,
which ids are refused, ...) as public proof functions named `law_*`.
