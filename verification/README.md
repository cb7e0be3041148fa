# app_organizer

An opinionated, multi-language validator for folder conventions, file naming
conventions and file content conventions: one substantial export per file, a
filename that names it, a line budget on the files carrying the logic, and a
cap on folder nesting.

The library in `src/` is written in Verus. Its functions carry contracts
that Verus proves, except for a small set of trusted wrappers around
outside code — `std`'s character and UTF-8 functions in `text.rs`, globset
in `rules/exceptions.rs`, tree-sitter in `lang/syntax.rs` — whose contracts
are taken as given; each says in its doc comment what it claims of the call
it makes.

- `config/` — roots, per-language profiles, exceptions, and the merge of a
  user's config file over the built-in defaults.
- `rules/` — the rule vocabulary, waivers, the compiled exception globs, and
  one function per check, each specified by the finding it produces.
- `lang/` — reading a module's public surface out of a parse tree (Python and
  Rust), with the tree flattened into a sequence of nodes.
- `engine/` — compiling a config, running it over a walked tree, and the
  stable order reports are listed in.
- `diagnostics/` — the diagnostic type and the text renderer.
- `grammar/` — parsing `{root}/.../{files}` path patterns.
- `walk/` — sorting what a walk found into files and directories, and how
  paths are spelled and split.

`app/` is the command-line program around the library: argument handling,
walking and reading the file system, TOML and JSON, and exit codes.
