# grab

A local daemon that mirrors Rust repositories, compresses their code into a
skeleton (signatures kept, bodies replaced by stable hashes) and serves the
skeleton, whole files and single bodies on demand; plus a command-line client
for it.

## Layout

- `src/` — the library, verified with Verus: comment and test-module
  stripping, the `mod foo;` round trip around rustfmt, stable hashes, Rust and
  Go compression, the scan rules, the index and its reindexing, the sync
  decisions, the daemon's answers, the session line counters and the client's
  path, hash and listing rules. Calls into `sha2`, `syn`, `quote` and
  `proc-macro2` stand behind small trusted wrappers whose contracts are
  documented where they are declared.
- `tests/` — tests of the library.
- `app/` — the program around it: the HTTP daemon (axum), the file system
  walks and copies, rustfmt/gofmt, JSON on disk and on the wire (serde), and
  the command-line client (`grab cli ...`).
