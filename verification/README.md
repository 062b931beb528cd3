# dcr

`dcr` is a Cargo-like project manager for C and C++: it reads a project's `dcr.toml`,
resolves its dependencies, builds it with GCC/Clang, GNU as or MSVC, runs it and its
tests, and writes editor configuration (`compile_commands.json`, VS Code and CLion files).

The logic of the tool is a library verified with Verus: every public function states in
its `ensures` what it returns, over spec functions of plain values, and Verus proves the
code against it. The program around it only reads and writes files, starts processes and
talks to the network.

## Layout

- `src/` — the verified library.
  - `project/` — `dcr.toml`: the TOML document model (`value.rs`), the typed
    configuration and its rules (`config.rs`, `rules.rs`), profile and target lookups
    (`lookup.rs`), writing the document back (`format.rs`), dependencies and the lock
    file (`deps.rs`), workspaces and their build order (`workspace.rs`), and the
    compiler backends (`builder/`).
  - `cli/` — the decisions of each command: arguments, build plans, run and test steps,
    generated editor files, `dcr add`, `dcr new`, `dcr clean`, `dcr tree`, `dcr --update`.
  - `utils/` — strings, paths and sorting with their specifications.
- `tests/` — tests of the library on concrete values.
- `app/` — the command-line program: argument dispatch, file and process I/O, downloads
  and git checkouts, calling the library for every decision.

Outside crates are reached through a few trusted wrappers whose contracts state what the
crates' documentation promises: `toml` and `serde_json` to parse documents, `glob` to
match patterns, `sha2` for checksums.
