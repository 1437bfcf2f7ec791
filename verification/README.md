# wip

Library side of the `wip` tools, which record work-in-progress builds in
git: which files influence the build of a target, what version a target
has, and the build records kept in commit messages.

- `src/` is the library, verified with Verus:
  - `config.rs`: `wip.toml` targets; resolving versions given directly or
    read from a `Cargo.toml`; checking that paths are relative; the set of
    files that influence a build.
  - `commit.rs`: build records framed in commit messages (with the
    round-trip laws), and reading the output of the git helpers.
  - `version.rs`, `toml_doc.rs`, `paths.rs`: semantic versions, TOML values
    and paths, through the `semver` and `toml` crates, `std::path` and
    `pathdiff`.
  - `text.rs`: white space, trimming, words, pattern search, decimals.
  - `build_script.rs`, `watch.rs`: the build script's rerun lines and the
    parent-watching process's decisions.
- `app/` holds the programs: file and process I/O, directory walking, TOML
  (de)serialisation of the library's types, signals.
- `tests/` runs the library on concrete values.
