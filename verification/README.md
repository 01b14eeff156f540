# actix_web (verified core)

The decision logic of an HTTP server and client, written in Verus and
proved against its contracts: the request payload buffer, URL patterns and
routing, multipart parsing, the HTTP/1 dispatcher and writer, the HTTP/2
stream bookkeeping, the connection pool, responses and their builders, the
WebSocket handshake and the actor context that streams a response.

- `src/` holds the verified library. Calls into outside crates (`regex`,
  `mime`, `httparse`, `http`, `cookie`, `sha1`, `base64`) go through small
  trusted wrappers whose contracts say what those crates do.
- `tests/` holds the tests, run against the compiled library.
- `app/` holds the parts that touch sockets and threads, and a driver for
  the context's poll loop.
