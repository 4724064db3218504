# unit2nix

Per-crate Nix build plans from Cargo's unit graph, as a verified library.

The library merges `cargo build --unit-graph` (exact resolved features,
dependencies and platforms), `cargo metadata` (sources, manifest paths,
`links`) and `Cargo.lock` (checksums) into one build plan, and proves what
each step does against its specification.

Layout:

- `src/` — the verified library.
  - `merge.rs`: package IDs, features, dependency edges, crates, dev
    dependencies, reference validation, member filtering and the merge itself,
    with the laws of the merged plan.
  - `source.rs`: metadata source strings and package IDs read as sources.
  - `overrides.rs`: the `-sys` crate registry, the coverage report and its text.
  - `prefetch.rs`: known hashes from the text of `crate-hashes.json`, the checkouts to
    prefetch, and recording their hashes.
  - `cargo.rs`: cargo's argument lists, `Cargo.lock` path and hash, failure
    messages.
  - `cli.rs`: the options and the decisions that follow from them alone.
  - `output.rs`, `unit_graph.rs`, `metadata.rs`, `error.rs`: the data, with
    their mathematical views.
  - `strmap.rs`: a string-keyed map kept sorted by key.
  - `text.rs`, `paths.rs`: strings, formatting and path text.
  - `sample.rs`: the sample workspace's library items.
- `tests/` — tests of the library.
- `app/` — the command-line program: argument parsing, running cargo and
  `nix-prefetch-git`, JSON and TOML, files, and the C interface of the Nix
  plugin.
