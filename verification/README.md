# dioxus_ipc_bridge

An HTTP-like IPC bridge between JavaScript and Rust in Dioxus applications, written
in Verus. JavaScript sends requests (method, `ipc://` URL, headers, body) that Rust
route handlers answer; Rust emits events on named channels to JavaScript listeners.

## Layout

- `src/` is the verified library. Every function states what it returns in its
  `ensures`, over spec functions on `Seq`, `Map` and views of the library's types; where
  a user's route handler or plugin decides, the contract states what the library hands
  it and what it does with its answer (a handler may describe its answers with
  `RouteHandler::may_answer`):
  - `text`: character-sequence helpers (searching, splitting, trimming, lines).
  - `param_map`: `ParamMap`, the name/value map of parameters and headers.
  - `json`: the `serde_json::Value` that bodies carry, and the few `serde_json` calls
    the library makes, each behind a small trusted wrapper.
  - `parser`: percent-decoding, query strings, `ipc://` URLs, route patterns with
    `:name` parameters, and JSON, URL-encoded and multipart bodies.
  - `request`, `response`: requests, responses and errors, and the response that
    answers each error.
  - `router`: route registration and selection (the first registered route whose
    method and pattern fit wins), and dispatching of messages from JavaScript.
  - `bridge`: the JavaScript that sets up `window.dioxusBridge` (followed by the
    plugins' scripts), and the scripts that deliver events and responses.
  - `streaming`: channels, messages, base64 chunks and the per-item decisions of
    long-running tasks.
  - The `law_*` proof functions state properties that hold across calls.
- `tests/` runs the library on concrete values.
- `app/` is the part that talks to the webview and the clock: running scripts,
  the router's message loop, `serde` copies of the library's types, and the
  progress events, whose percentage is a floating-point number.
