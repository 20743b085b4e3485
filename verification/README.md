# Codex digital employee connector

A local connector for a digital employee: it answers a loopback HTTP API
guarded by a management token and a trusted workspace header, checks
platform projects out and prepares session directories, and keeps the
event log and thread read state of Codex sessions. The client that drives a
Codex app-server over stdio is not part of this crate: the session routes
answer that no client is available.

The logic lives in `src/`, a library verified with Verus:

- `json`, `text`, `json_compat`: a JSON model with a mathematical view, text
  helpers (trimming, decimal and hexadecimal numerals, lines, words), and
  tolerance for a UTF-8 byte order mark.
- `http`: request framing, the router (only `/healthz` and `/readyz` are
  public), error envelopes and response heads.
- `events`, `event_store`: normalisation of Codex notifications into domain
  events with stable identifiers, the bounded event log, and the publication
  retry policy.
- `server_requests`: pending JSON-RPC requests from the app-server and the
  scoping of replies to their thread and turn.
- `thread_state`: the persisted read state of threads and how listed threads
  are enriched with runtime status and unread marks.
- `cli`, `runtime`, `codex_binary`, `baijimu_cli`: the command line, server
  options, health checks, daemon start-up, tokens, and the Codex CLI
  inspection.
- `paths`: absolute paths and containment, for Unix and for Windows path
  syntax; the program passes the style of the host it runs on.
- `project_checkout`, `project_preparation`: checking platform projects out
  and preparing session directories, refusing anything not owned by the
  trusted workspace.

`app/` holds the program around it: argument handling, sockets, files,
child processes, and the serde forms of the library's types. `tests/` runs
the library on concrete values.
