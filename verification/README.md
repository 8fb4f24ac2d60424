# git-notes

Decentralized code comments, inline reviews and discussions that live in
`refs/notes/*` of a Git repository.

The library (`src/`) is written in Verus: its functions state what they
do in `requires` / `ensures` clauses and Verus proves them. The exceptions
are the few functions that call other crates or the standard library,
whose contracts are taken on trust and not proved: `fresh_id`, `now`,
`rfc3339` and `utc_display` (`ids`), `parse_json` and `json_of_value`
(`json`), `utf8_text` (`engine`), `lowercase` (`select`) and `push_char`
(`text`).

- `note`, `ids`, `namespace`: the note record, its identifiers and times,
  and the namespaces notes are filed under.
- `engine`: the tree listings and batches Git exchanges with the notes
  store, and the trees that writing or deleting a note produces.
- `merge`, `sync`: union, last-writer-wins and composite merges; refspecs,
  temporary refs and peer addresses for synchronisation.
- `gate`, `heal`, `diff`, `export`, `summary`: the quality gate, re-anchoring
  notes after a rebase, diff hunks, Markdown export and AI summaries.
- `import`, `adf`, `json`, `remote`: comments read from GitHub, GitLab,
  Bitbucket and Jira replies, and the URLs and headers those services need.
- `signing`: signature checks and the order in which signing is tried.
- `select`, `text`, `textmap`, `order`: selection, filtering and the text
  and ordering helpers the rest is built on.
- `tui`, `picker`, `markdown`: the state machines of the terminal
  interface and the note picker, and how note bodies are laid out.
- `learning`, `shortcuts`, `completions`, `health`, `args`: usage hints,
  shortcut tables, shell completion targets, repository health (including
  whether commented code moved or was deleted) and the
  command-line options.

Laws that relate several functions are public proof functions named
`law_*`.

`app/` is the program around the library: argument parsing, Git and HTTP
processes, files, the terminal and JSON (de)serialisation. `tests/` runs
the library on concrete values.
