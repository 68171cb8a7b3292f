# trunk_lib

The core of Trunk, a desktop git client with a built-in code-review mode,
written in Verus: each function carries a contract that the verifier proves.

## Layout

- `src/` — the verified library.
  - `text.rs`: string and number helpers with their models (`lines`,
    `split`, `trim`, decimal and hex numbers).
  - `git/types.rs`: the data exchanged with the user interface, and their
    models.
  - `git/read_model.rs`: parsers for `git status --porcelain`, unified diffs
    and ref names; the lane layout of a commit list.
  - `git/graph.rs`: the commit graph of a repository (lanes, colours, edges,
    ref labels, stashes placed by time).
  - `git/review.rs`, `git/excerpt.rs`: the markdown document of a review
    session, with excerpts read back from the repository.
  - `git/review_store.rs`: session file names, the schema gate and migration.
  - `git/syntax.rs`: syntax highlighting spans.
  - `git/backend.rs`, `git/backend_fs.rs`, `git/command_runner.rs`: which
    backend serves a repository, the git command lines, repository-relative
    paths.
  - `git/wsl/`: repositories inside a WSL distribution — reading git's
    output, building patches, and the command sequences of writes.
  - `git/workdir_snapshot.rs`, `git/repository.rs`, `git/repo.rs`,
    `git/patch.rs`: work on a repository on disk through `git2` (objects,
    revision walks, tree diffs and their patches).
- `tests/` — tests run against the compiled library.
- `app/` — the code around the library: running processes, files, the
  session store on disk, watchers and shared state.

Outside calls (`git2`, `syntect`, `serde_json`, `uuid`, parts of `std`) are
reached through small trusted wrappers whose contracts state what their
documentation promises.
