# monad-monitor

Tails the ledger of a consensus node and logs, as JSON lines, every quorum certificate and
timeout, every proposed and every finalized block, and every ten seconds how much stake is
online.

- `src/` is the library, verified with Verus. It holds no I/O: a tip is worked off in steps, and
  where a step needs a file or the leader of a round it says so and goes on with the reply.
- `app/` is the program around it: the command line, the files, the watch on the directories and
  the log.
- `tests/` runs the library, with the crates it calls.

What the library takes for granted of other crates stands in functions marked
`#[verifier::external_body]`, one for each function called: of `lru` in `src/cache.rs`, of
`alloy_primitives` in `src/u256.rs`, of `hex` in `src/pubkey.rs`, and of `std` in `src/peers.rs`.
The laws that relate several functions are the proof functions whose names start with `law_`.
