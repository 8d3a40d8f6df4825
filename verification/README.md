# primer

A pre-install security interceptor for package managers. Shims stand in
for `pip`, `uv`, `poetry`, `npm`, `yarn`, `pnpm`, `go` and `cargo`; an
install command is scanned against an advisory database before the real
binary runs.

Layout:

- `src/` — the library, verified with Verus: argument classification and
  package specs, and which manifest a bare restore command reads (`shim`),
  manifest diff and file parsing (`manifest`), the
  `.primer-ignore` allow-list (`allowlist`), configuration keys and paths
  (`config`, `model`), the shell-configuration block (`init`, `uninit`),
  PATH diagnostics (`doctor`), the advisory request URL and selection
  (`advisory`), and the install decision and CI report (`prompt`,
  `report`). `text` holds the character-level primitives (trimming,
  lines, search) with their specifications and lemmas.
- `app/` — the command-line program: argument parsing, file and network
  I/O, prompts and colours, TOML and JSON encoding.
- `tests/` — tests of the library.
