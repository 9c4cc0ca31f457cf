# clewdr

The verified core of a reverse proxy for an upstream chat-completion service: the
request log and its lifecycle, the session-cookie grammar and per-cookie usage
accounting, the decisions of the code-assistant backend (retries, token counting,
window boundaries), the conversion of upstream answers into the OpenAI format, and
the logic of the administration interface.

Every function in `src/` carries a contract that Verus proves; laws that relate
several functions are public proof functions (named `lemma_*`) next to the code
they speak of.

## Layout

- `src/request_log.rs` — the bounded request log (`RequestLogStore`), the statuses
  of a request, the restoring of persisted rows, the request deadline, the decisions
  taken while a request and its body are followed, and cache-breakpoint counting.
- `src/cookie.rs` — the cookie grammar (`ClewdrCookie::parse`) and `CookieStatus`
  with its usage windows.
- `src/claude_code.rs` — model families, the `anthropic-beta` header, retries,
  token-count routing, streamed usage and the refresh of window boundaries.
- `src/claude2oai.rs` — stream and whole-answer conversion to the OpenAI format.
- `src/frontend.rs` — filtering, searching and summarising the log, number
  formatting, comma-separated settings lists.
- `src/log_view.rs` — what the log view derives from the rows: counts per filter, the
  rows shown, model chips, error headlines.
- `src/json.rs`, `src/text.rs` — JSON values as plain data, character helpers.
- `src/clock.rs` — the wall clock and RFC 3339 parsing, through `chrono`.
- `app/` — the service around the library: HTTP handlers, persistence, streaming,
  console and file output.
- `tests/` — tests of the library on concrete values.
