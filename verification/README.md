# weave-patch-mcp

![version](https://img.shields.io/badge/version-0.0.16-blue)

A server for structured file patching. One tool, `patch__exec`, takes a text with `view`/`read`,
`map`, `create`, `write`, `update`, `move` and `delete` operations, carries them out in their order
on a staged view of the files, and writes all of the changes together or none of them.

    === begin
    read src/main.rs
    update src/lib.rs
    @@ fn main
     fn main() {
    -    old();
    +    new();
     }
    === end

Native `*** Begin Patch` blocks are accepted as they are. Lines of an update are found exactly, with
other white space, or by similarity from 85 percent on.

Defaults: `depth=3`, `limit=6000` chars. File reads truncate at `1000` lines unless `limit`,
`symbols`, or `start` / `end` is given. `dry_run` previews a batch, and `response_format=json` gives
a machine-readable report.

## Layout

- `src/` is the library, written in Verus. Every function has a contract. Verus proves it, but for
  the few functions that call another crate or the standard library (in `bytes`, `diffs`, `hints`,
  `patterns`, `similarity`, `text` and `transaction`), whose contracts are taken on trust:
  - `parser`, `threshold`, `numbers`: the language of patches; `grammar` holds its laws.
  - `matching`, `similarity`, `hints`, `excerpt`, `hunks`: finding the lines of a hunk and changing
    them.
  - `paths`, `workspace`, `applier`: the staged view of the files, and operations on it.
  - `transaction`: the steps of a commit, and of undoing one.
  - `batch`, `server`, `report`, `outcome`, `error`: batches, and what is said of them.
  - `reader`, `reading`, `tree`, `functions`, `patterns`: reading files and mapping directories.
  - `validator`: the tools that look at source files, and what their running means.
  - `laws`: what holds of sessions, batches and commits as a whole.
- `tests/` runs the library on files in memory.
- `app/` is the program around it: protocol, files, tools, logging.
