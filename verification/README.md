# esmeril

A command-line tool for Roblox Luau projects: `init` scaffolds a project (Rojo, Selene,
StyLua, Aftman, Wally and a CI workflow), `check` grades it A-F and `--fix` repairs it,
`deps` audits `wally.toml` against the registry, `update` bumps its requirements,
`fmt` runs StyLua and Selene, `build` runs Rojo and `doctor` checks the toolchain.

## layout

- `src/` - the library, verified with Verus. Each command's decisions live here as
  functions with contracts over plain values:
  - `text`, `render` - character sequences, and terminal lines as styled spans;
  - `version`, `requirement` - versions, their order, and `^`/`~`/`=` requirements;
  - `data` - the parts of JSON and TOML documents that the checks read;
  - `check` - the nine weighted checks, the score and grade, markdown and text reports;
  - `template` - the files of a new project; `init` - when to scaffold and what it says;
  - `fix` - which files a repair writes and which it leaves for a person;
  - `deps` - where a dependency points and what the registry says about it;
  - `toml_doc` - a `toml_edit` document kept with the text it was read from and the
    edits made to it; `update` - which requirements to bump, and the rewrite of
    `wally.toml` through it;
  - `cache` - the manifest cache: file names, freshness, offline mode;
  - `tool`, `doctor`, `fmt_cmd`, `rojo_build`, `cli` - the other commands.
- `app/` - the binary: argument parsing, the file system, the network, processes and
  colors.
- `tests/` - tests of the library on concrete values.

The proofs are checked with `verus`; the laws of the library (the order on versions,
that a repair never overwrites a file, what `wally.toml` reads after an update, ...) are
public proof functions next to the code they are about.
