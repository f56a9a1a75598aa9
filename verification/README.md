# rbx_project

A command-line tool that scaffolds Roblox projects from templates and keeps a
project's `rbx_project.toml` in step with its tool manifests (`rokit.toml`,
`wally.toml`, `pesde.toml`).

The logic is a library verified with Verus (`src/`):

- `text` — character-level string operations (trim, find, split, replace,
  code-point order) with their mathematical meaning.
- `depmap` — a map from names to values kept in name order.
- `config` — the configuration types and the dependency sections they write
  into `wally.toml` and `pesde.toml`.
- `toml_doc` — TOML tables through the `toml` crate, seen as maps of keys to
  strings, tables or other values.
- `rokit_sync` — syncing the configured tools into `rokit.toml`.
- `reconcile` — reading the manifests back into the configuration.
- `cli` — the commands and the changes they make to a configuration.
- `create` — the steps that set up a new project, template rendering, command
  messages and the template listing.
- `laws` — properties of the library as a whole.

`app/` is the program around it: argument parsing, reading and writing files,
running the external tools.
