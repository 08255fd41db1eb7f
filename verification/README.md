# helius-stream

Session logic of a Helius account-subscription stream for Solana, verified
with Verus.

- `src/` — the verified library:
  - `health.rs`: `StreamHealth` (slot-gap detection, counters, staleness)
    and `ReconnectPolicy` (capped exponential backoff), with their laws;
  - `stream.rs`: `HeliusStream`, the state of one stream — subscription
    bookkeeping (request ids, pending requests, acknowledgements), account
    notifications turned into `AccountUpdate`s, and the circuit-breaker
    state — advanced one socket event at a time;
  - `protocol.rs`: the subscribe request text and the plain values read from
    incoming JSON messages;
  - `types.rs`, `error.rs`, `text.rs`: configuration, states, errors and
    decimal rendering;
  - `codec.rs`, `clock.rs`: the calls into `bs58`, `base64` and the clock.
- `app/` — the WebSocket connection (tungstenite), JSON decoding
  (serde_json), logging, error display (thiserror) and the read loop that
  performs what the library decides.
- `tests/` — tests of the library.
