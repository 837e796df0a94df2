# rzgate

An HTTP/JSON gateway in front of the Roomzin inventory engine, which speaks a
binary protocol over TCP. Clients post `{"command", "segment", "body"}` to
`POST /api`; the gateway checks the body, encodes the engine request, frames
it (shard frame for a standalone engine, router frame with the segment and
the write flag for a router), waits for the answer and turns it into JSON.

## Layout

- `src/` — the library, verified with Verus:
  - `wire.rs`, `protocol/` — little-endian codecs, frames, the field reader,
    response headers, error replies and the generic decoders.
  - `request/` — the JSON model of a request, the request encoder, one encoder
    per command and the routing of a request to its command.
  - `processor/` — the decoders of the commands with structured answers
    (SEARCHPROP, SEARCHAVAIL, GETPROPROOMDAY, PROPROOMLIST, PROPROOMDATELIST, GETSEGMENTS,
    GETCODECS).
  - `helper.rs`, `bitmask.rs`, `text.rs`, `sort.rs` — property ids, packed
    dates, rate-feature masks and the codec table, text conversions.
  - `config.rs`, `auth.rs` — settings and access tokens.
  - `handler.rs`, `demux.rs`, `cluster.rs`, `discovery.rs` — the decisions of
    the connection pool: round-robin choice, retries, the table of waiting
    requests, leader and follower connections, leader election.
- `app/` — the program: command line, TCP connections, the HTTP server,
  metrics, and the file and network reads of tokens and discovery data.
- `tests/` — tests of the library on concrete inputs.
