# unique

The core of a small web framework, written in Verus: the functions in
`src/` are proved against their contracts. The few trusted wrappers around
outside crates state what those crates' sources show, and no more.

## Layout

- `src/` — the verified library.
  - `http_parser`, `server`, `websocket` — reading a request head and body
    from bytes, deciding who answers, laying out the response bytes, and
    the WebSocket handshake key.
  - `router` — the routing trie (static, `:param` and `*wildcard`
    segments), resolution to a handler, 404 or 405, and the route list.
  - `request`, `strmap`, `headers`, `multipart` — request values, query and
    form decoding, case-insensitive header maps, multipart bodies.
  - `etag`, `compress` — entity tags and gzip decisions for responses.
  - `auth`, `pending` — JWT settings and services, sessions, password-reset
    tokens, role checks, OAuth2 URLs; reply slots for handlers written in
    other languages.
  - `pool`, `buffer_ring`, `perf` — buffer pooling and batched writes.
  - `css` — the utility-class CSS engine (parser, emitter, scanner).
  - `frontend`, `auto` — page files, their routes and TypeScript route
    declarations.
  - `config`, `cli` — TLS setup, queue errors, generated project files.
- `tests/` — tests of the library, run against the compiled crate.
- `app/` — the command-line tool and the runtime around the library: the
  Tokio connection loop, middleware, file-system walks, the job queue,
  plugins and page rendering through Node.js.

Calls into outside crates (`httparse`, `regex`, `jsonwebtoken`, `ring`,
`rustls`, `rustls-pemfile`, `flate2`, `smallvec`, `crossbeam`,
`serde_json`) go through small trusted wrappers whose contracts are stated
next to them.
