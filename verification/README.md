# tau

The core logic of the tau agent harness and its standard extensions, as a
Verus-verified library, with a thin layer of ordinary Rust around it.

## Layout

- `src/` — the verified library. Its functions carry contracts wherever
  something can be promised (a reading of the clock cannot be); laws that
  span several functions are public `law_*` proof functions next to the
  functions they speak of.
  - `text` — string building blocks with exact specifications (decimal
    numbers, joining, substring search, text order).
  - `cbor`, `context`, `tool`, `proto`, `priority`, `usage` — protocol
    values: CBOR values and their text form, tool responses, prompt hooks
    and their priorities, event-log sequence numbers, token usage
    accounting.
  - `pool`, `ws` — the WebSocket connection pool of the Responses transport
    and the decisions of one connection (upgrade headers, error mapping,
    frame handling).
  - `prompt`, `system_prompt` — prompt context assembly, AGENTS.md
    rendering, the Nickel expression of the system prompt, dates.
  - `event_log` — the harness event log.
  - `settings`, `runtime` — extension resolution, runtime directories,
    build metadata, expired-session selection.
  - `cli` — editor prompt trailers, agent routing state, completions, role
    cycling, picker keys, provider command dispatch.
  - `email`, `calendar`, `calendar_tools`, `pim` — the PIM extension:
    argument parsing, validation, the text its modules answer with, the
    calendar tool specifications, and which module answers a call.
  - `shell`, `builtin` — the shell extension's read/ls logic and the
    harness's built-in tool specifications and skill query terms.
  - `internal_tools` — routing of started calls of harness-internal tools
    to the handler that owns them.
  - `style` — styled text and terminal cells.
- `tests/` — tests of the library against concrete values.
- `app/` — the I/O edge: files and directories, environment, the readiness
  pipe, the WebSocket socket, evaluation of the user's Nickel program for
  the system prompt, and serde forms of configuration.

Calls into outside crates (unicode-width, dirs, and a few std
functions) go through small trusted wrappers whose doc comments say what
is assumed of them.
