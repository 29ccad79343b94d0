# codexu

The core of Codexu, a local-first desktop assistant for coding, as a
library verified with Verus, and the desktop shell around it.

## Library (`src/`)

- `text`: character-level string operations (`trim`, `lines`, `contains`,
  `join`, `replace`, decimal parsing and printing) with their meaning as
  specifications.
- `paths`: Unix path components, joining, lexical normalization and
  component-wise prefix tests, `with_extension`; normalization is proved
  idempotent.
- `file_tool`: the workspace guard. A path is accepted only when, joined to
  the canonical workspace root and normalized, it lies under that root;
  writes need explicit approval (diff-first). Relative paths without `..`
  are proved to be always accepted.
- `shell_tool`: the shell allowlist and the confirmation rule; a command
  that chains, substitutes or redirects another needs confirmation.
- `git_tool`: reading git and ripgrep output, backup branch names, the
  outcome of applying a diff.
- `indexer`: which files the index takes in, the SHA-256 content hash, and
  the per-file steps of an indexing run as a state machine. Over a whole
  walk it is proved that every file taken in ends up held with its content
  hash, that entries of other paths are left alone, that an index whose
  hashes match its texts stays so, and that a second run over unchanged
  files stores and counts nothing.
- `llm_provider`: endpoints and request URLs, the cleaning of model output,
  reply extraction from cloud payloads, and the cloud retry protocol as a
  state machine whose attempts are bounded.
- `core_agent`: planner, executor, validator and reporter.
- `desktop`: the desktop app's decisions (settings, recent workspaces, chat
  answers, setup report).

## Desktop shell (`app/`)

The Tauri commands, HTTP calls, SQLite storage, file-system and process
work. It hands plain values to the library and performs what the library
decides.
