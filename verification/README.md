# mashrl

A small HTTP/1.1 and WebSocket client library whose logic is verified with
Verus.

- `src/http/` — headers (`Headers`, `HeaderIter`), status codes
  (`ResponseCode`), requests and responses, the chunked transfer coding
  (`ChunkedReader`, `ChunkedIterator`) and the readers that undo a body's
  codings (`ResponseBody`, with gzip through `flate2`).
- `src/request.rs`, `src/response.rs` — the head of a request as it is
  written, the status line and headers of a response as they are read, and
  the head a server writes.
- `src/websockets/` — SHA-1, base64, the opening handshake, frames, and a
  `Client` that frames and reads messages over bytes.
- `src/extras.rs` — the request that fetches a URL and the head of a
  response that serves a file.
- `src/text.rs` — the string operations the rest is written with, each with
  the meaning of its `std` counterpart.
- `app/` — sockets, TLS (`native-tls`), files and the server loop, around
  the library.

Each public function states in its contract what it returns; the laws that
tie functions together (what a reader gives back of a writer, what `get`
gives after `append`, `set` and `delete`, that `sha1` is SHA-1) are public
proof functions beside them.
