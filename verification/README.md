# p2p_chat

The verified core of a peer-to-peer messenger, written in Verus.

- `src/` is the library. Its logic is verified; the calls it makes into std
  and the outside crates (the system clock, random numbers, UTF-8 checks,
  base64, peer ids, lower-casing, building a string from characters, the
  time range chrono can show) go through small trusted wrappers, each with
  a doc comment that says what its contract claims:
  - `sync/backoff.rs` and `sync/retry.rs`: exponential backoff with jitter
    per peer, and the retry policy of network operations;
  - `sync/engine/`: the decisions of the synchronization engine — when to
    discover mailbox providers, which ones to admit, rank, fetch from,
    forward to and forget, and what to do on each network event;
  - `ui/`: the terminal interface — editing the input line, completion,
    chat and log modes, the log buffer and its filters, scrolling, and the
    commands typed by the user;
  - `types.rs`, `peers.rs`, `clock.rs`, `random.rs`: the messages, the sets
    and maps of peers, the clock and random numbers.
- `app/` is ordinary Rust around the library: conversions to the outside
  crates' types, the serialisable copies of the messages, terminal drawing
  and the terminal loop (`tui.rs`), the command runner (`commands.rs`), and
  the async driver of the engine (`driver.rs`: discovery with its DHT
  queries, outbox retries, mailbox fetches, event handling and the periodic
  sync loop, and the two floating-point steps of the original — the
  weighted average response time and the mailbox score — whose results the
  library takes as arguments). The node itself (network, storage, encryption) is reached
  through the traits these modules declare.
- `tests/` exercises the library on concrete values.

Times are millisecond clock readings and peers are the bytes of their ids.
