# rust_webapp

A small IRC-like chat, verified with Verus.

- `src/` is the verified library: the chat server's clients and commands
  (`chat_server`), the registration-based registry and its commands
  (`commands`, `handlers`, `structs`), the chat page's state (`index_page`),
  text helpers (`text`), the lines handed to the transport (`delivery`), and
  the laws that hold across operations (`laws`). The calls into `uuid` and
  `itertools` stand in `trusted`, each with its contract.
- `app/` is the server program: websockets and the page proxy with `warp`
  and `tokio`, delivering the lines the library decides on.
- `tests/` exercises the library on concrete values.
