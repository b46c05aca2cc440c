# chrono_h

A harness for long-running coding agents. The library (`src/`) holds the
harness's logic with Verus contracts and proofs:

- `types` — phases, roles, progress events, timestamps, configuration.
- `error` — the error type and its messages.
- `text` — character-level helpers: decimal rendering, search, replace-all,
  line splitting and joining, with their specifications.
- `tools` — what the read/edit/bash primitives return for given file text or
  command output.
- `state` — the progress log's keys, stable time order, current phase and
  last session; the handoff document's text and section insertion.
- `hooks` — the hook chain's steps, the session contexts and the
  clean-state checks.
- `agents` — the coder session's turn budget and events; the initializer's
  events, scaffold and first handoff document.
- `git`, `cli` — the repository handle and the command set.

`app/` is the `chrono` command line: file system, sled database, git2
repository, shell commands, async hooks and argument parsing, calling the
library for every decision.
