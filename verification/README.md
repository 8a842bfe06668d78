# TLScope

TLScope is a local, explicit HTTP/HTTPS debugging proxy. It launches a program with
proxy settings, records the traffic that program sends through the proxy, and shows
requests, responses, TLS details and process logs in a terminal interface.

The decisions the program takes are written in Verus and proved against their
contracts; the sockets, files, terminal and child processes around them are
ordinary Rust.

## Layout

- `src/` — the verified library (`tlscope`):
  - `capture/` — the traffic model, filters and their suggestions, redaction,
    body decoding, previews and the text, cURL and HAR exports;
  - `proxy/` — request and response heads, upstream targets, the state machines of
    a client connection and of one exchange, body forwarding and HTTP/2 records;
  - `interactive.rs` — the launcher form, the file chooser and path completion;
  - `tui/` — the interface state, its key handling and what the screens show;
  - `process/` — child launch settings, output logs and process tracking;
  - `diagnostics/` — the program's own log store;
  - `certificates/` — certificate fingerprints and the per-host certificate cache;
  - `config.rs`, `recent.rs`, `text.rs` — settings checks, bounded logs and text.
- `app/` — the program: command line, terminal drawing, proxy sockets, TLS, child
  processes, CA files and trust stores. It runs the library's state machines and
  hands them what it reads.
- `tests/` — tests of the library on concrete values.

Laws that hold across calls (bounded logs keep the most recent lines, a cached
certificate is read back as written, redaction hides secrets and is idempotent,
blank filters keep everything and filter tokens combine with AND, captured bodies
keep their first bytes, sorts keep every item in order) are public proof functions
next to the code they are about.
