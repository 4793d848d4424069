# diaryx_core

The core of the Diaryx journal: frontmatter handling, link parsing, filename
rules, entry operations, workspace validation and materialization, and the
importers (directories, Day One, email), written in Verus. Every function in
`src/` is verified against its `requires`/`ensures` contract; the laws the
library promises stand as public proof functions named `law_*`.

## Layout

- `src/` — the verified library.
  - `frontmatter.rs`, `frontmatter/edit.rs` — splitting documents at their
    `---` fences, and editing frontmatter in place with fig's YAML editor
    (comments, key order and formatting outside the edited node are kept).
  - `seq_edit.rs` — the plan of an item-by-item list edit.
  - `yaml/` — the plain-value model of frontmatter values and the YAML
    writer for mappings.
  - `link_parser.rs`, `entry/`, `metadata_writer.rs`, `crdt/`, `import/`,
    `fs/`, `text.rs`, `diaryx.rs`, `workspace.rs`.
- `app/` — file and network I/O, YAML/JSON parsing into the library's values
  (serde), and the loops that carry out the plans the library makes.
- `tests/` — the tests, run against the compiled library with the real
  outside crates linked.

## Design notes

- Calls into outside crates (chrono, mailparse, html-to-markdown-rs, zip,
  sha2, serde_yaml, fig, fig-yaml) go through small trusted wrappers whose
  contracts name the result (`*_of` spec functions) or state what the
  crate's documentation gives; everything around them is verified.
- A frontmatter map is a `Vec<(String, Value)>` whose keys each occur once
  (`keys_unique`), in order of appearance. Verus accepts `indexmap::IndexMap`
  as a declared outside type, but contracts over its contents would rest on
  string-keyed lookups that Verus cannot relate to the keys' characters; the
  vector with its invariant states the same order and uniqueness directly.
- YAML parsing into the library's values runs in `app/` with serde. Writing a
  mapping as YAML is the library's own code (`yaml/emit.rs`), with exact
  contracts; serde_yaml is asked only to quote scalar strings, since the
  library's types cannot carry serde's derives inside verified code.
