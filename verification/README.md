# rsnano

A verified library with the data structures and decision logic of a Nano node, written
in Verus. Every function in `src/` is verified by Verus against its contract (a few
constructors of field-less types have none to state), except the few trusted wrappers
(marked `#[verifier::external_body]`) that call BLAKE2b, Ed25519, 256-bit arithmetic and two
std functions; their contracts state what those outside functions do.

## Layout

- `src/` — the library.
  - Numbers, blocks and keys: `primitives`, `crypto`, `blocks`, `encoding` (hex, decimal and
    account addresses, written and read), and the test builders `lattice`, `unsaved_lattice`,
    `open_builder`.
  - Messages: `messages` (header and payload framing), `message_deserializer`, `keepalive`.
  - Network: `network`, `channel`, `bandwidth_limiter`, `data_receiver` (the node ID handshake
    and what is done with incoming messages), `flooding`.
  - Block processing and the backlog: `block_processing`, `backlog_index`, `backlog_scan`,
    `bounded_backlog`, `bucketing`, `priority_scheduler`.
  - Bootstrapping: `bootstrap`, `ordered_heads`, `frontier_scan`, `peer_scoring`,
    `bootstrap_weights` (the text of initial representative weights).
  - Consensus and cementing: `confirmation_solicitor`, `ordered_blocks`, `confirming_set`,
    `online_weight`, `http_callbacks`.
  - Configuration and timing: `config`, `timer`.
  - Helpers for proofs over sequences and association lists: `seqs`, `assoc`.
- `tests/` — tests of the library, run against the compiled crate.
- `app/` — what stays outside the verified library: configuration sections with their serde
  derives, settings given as floating-point ratios, the bootstrap account sets (whose
  priorities are floating-point numbers), the blocking wait of a cancellation token
  and the JSON body of the HTTP callback.

Time is passed into the library as a value (`Timestamp`), and results of I/O (reads,
writes, ledger lookups, sampled peers) are passed in as plain values, so that every decision
the library makes is a function of its inputs.
