# mineping

A REST service that reports the status of Minecraft servers, built around a
library verified with Verus.

- `src/` is the verified library:
  - `minecraft/common.rs`: VarInt and string encoding of the Minecraft
    protocol, with round-trip proofs; the report types.
  - `minecraft/modern_slp.rs`: handshake and framing of the modern Server
    List Ping, the status packet, and turning a status document into a
    report.
  - `minecraft/legacy_slp.rs`: the legacy ping: request, size limit, UTF-16
    decoding and the two response formats.
  - `minecraft/query.rs`: the Query protocol's packets, its handshake answer
    and its full stat answer.
  - `minecraft/mod.rs`: the steps of address resolution (IP literal, SRV,
    address records, system resolver) and the protocol fallback decisions.
  - `api.rs`: the ticket service (tickets, result cache, work queue,
    statistics) with its laws; `error.rs`: error responses.
  - `text.rs`: integer parsing and rendering, splitting and searching;
    `keyed.rs`: keyed lists read as maps; `tui.rs`: the text of the
    terminal dashboard (durations, the bounded log, the log panel with its
    level colours, the worker panel with its block colours, the quit keys);
    `sys.rs`: the calls into std that carry trusted contracts.
- `app/` is the HTTP server (axum, tokio), the DNS and socket I/O
  (trust-dns-resolver), JSON (serde), and the floating-point statistics.
- `tests/` runs the library on concrete values.

Routes: `GET /ping/{host}/{port}`, `GET /ping/{host}` (port 25565),
`GET /status/{ticket_id}`, `GET /health`, `GET /stats`. Tickets expire after
five minutes, results are cached for one minute, ten workers ping servers.
