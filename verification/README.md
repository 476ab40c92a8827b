# cargo_nix_plugin

Resolves Cargo workspaces for Nix, and builds single crates the way `buildRustCrate` does. The logic
is a Verus library: what each function returns is stated in its contract and proved.

- `src/` is the library.
  - `resolve`, `metadata`: a workspace from the output of `cargo metadata`.
  - `lockfile_resolve`, `lock_packages`, `lockfile`, `manifest`, `registry`, `feature_resolve`: a
    workspace from its `Cargo.lock`, its manifests and the registry index.
  - `cfg_eval`, `version`, `toml_tree`, `json_tree`, `cargo_config`: what Cargo's own formats mean.
  - `plugin`, `nix_builder`: what the resolver is asked for, and the Nix value it answers with.
  - `crate_info`, `shell`: corrections to a crate's build, as assignments for a shell.
  - `build_rust_crate`: the phases of building one crate.
  - `disk`, `paths`: the part of the file system that the rest reads, as a value, and its paths.
  - `text`, `lists`, `sorted`, `positions`: strings, sequences, ordered maps and sets, and look-ups.
- `tests/` runs the library.
- `app/` reads and writes files, talks to the registry and to Nix, and runs `cargo` and `rustc`.

Calls into other crates stand behind small wrappers whose contracts are assumed. Each says in its
comment which function it calls and what is claimed of it. The laws that relate several functions are
public proof functions named `lemma_..`, each with a comment that states the law.
