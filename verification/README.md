# zed-lean4-companion

A companion infoview for the Zed Lean 4 extension, with its logic verified by
Verus.

    zed-lean4-companion proxy -- lake serve --
    zed-lean4-companion watch

The proxy runs as the language server and sits between Zed and the real Lean
server. It passes all traffic on, follows the cursor, asks the Lean server for
the goals, the expected type and the diagnostics there, and publishes them on a
unix socket. The watcher runs in a terminal inside the worktree and draws them.

## Layout

- `src/`: the verified library.
  - `rpc.rs`: framing of messages.
  - `json.rs`: JSON values as plain data, read and written by `serde_json`.
  - `state.rs`: what watchers are shown, and the name of the socket.
  - `convert.rs`: from the server's responses to that state.
  - `messages.rs`: the messages that the proxy itself sends.
  - `model.rs`: what the proxy does, as a function of what it knows.
  - `proxy.rs`: the proxy. It takes messages and commands in and hands back
    what is to be done outside.
  - `render.rs`, `watch.rs`: the infoview as lines of styled text, and the keys.
  - `table.rs`, `text.rs`: a table keyed by text, and text itself.
  - `laws/`: what holds of the library as a whole.
- `app/`: the program around it: processes, sockets, threads, the terminal.
- `tests/`: tests of the library.

What is believed of `serde_json` and of the standard library stands in
`json.rs`, `rpc.rs` and `text.rs`, each with a comment that says what it is.
