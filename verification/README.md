# codex_kit

Verified building blocks of a coding-agent toolchain, written in Verus.

- `src/proxy/` — a Responses API front for Chat Completions backends:
  backend capabilities, request validation and translation, tool naming and
  the tool registry, history compilation (with the proof that every tool
  call is answered once, after it), stream translation (text,
  reasoning, tool calls, terminal events) and the upstream exchange rules.
- `src/rollout/` — token-usage accounting over session rollouts: window
  parsing, fork-aware usage deltas, per-thread accumulation, report order and
  totals, and cost estimates in nano-USD from a per-model price table.
- `src/agents/` — the agents dashboard model: the thread cache updated by
  notifications and refreshed by reads, family trees and snapshots, list
  paging, focus requests between local TUIs, and output retry rules.
- `src/session/` — session workflows of the TUI: reconnecting after a dropped
  app-server connection, prompt editing and rewriting, side-conversation
  summaries, notes, clean scrollback, signal handling and app-server mode.
- `src/text.rs`, `src/json.rs` — character-level string helpers and the few
  JSON reads the library makes.
- `app/` — the proxy program: command line, HTTP server, upstream client and
  JSON encoding around the library, plus the operating-system side of TUI
  focusing.
- `tests/` — scenario tests run against the compiled library.

Every function under `src/` is verified by Verus against its contract; calls
into outside crates go through small trusted wrappers whose contracts are
stated beside them.
