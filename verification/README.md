# velocity-engine

The decision logic of the Velocity Engine gaming daemon, written in Verus and
proved against its contracts: the configuration checks, profile lookup, game
detection, the parsers for what `/proc` and `/sys` report, and the optimizer
and engine state machines that decide which system settings to read, change
and later put back.

## Layout

- `src/` — the verified library.
  - `config/` — configuration types and the loader that validates them.
  - `profiles/` — profile and game-rule lookup.
  - `detector/` — which configured games run, given the process list.
  - `system/` — parsers for CPU lists, status and cmdline files, and the
    words passed to the affinity and I/O priority system calls.
  - `optimizer/` — the four optimizers, what they record, and the apply and
    restore runs, each a step function from a reply to the next request;
    `model.rs` runs them on a model of the system, where applying a profile
    and then restoring is proved to leave every setting as it was.
  - `daemon/` — the engine: detection, manual profile changes, game
    start/stop and restoration, as runs over the optimizer runs;
    `restoration.rs` steps engine runs on the same system model and proves
    that every run keeps the system restorable and that a game's exit gives
    it back.
  - `table.rs`, `text.rs` — keyed tables and the text functions the parsers use.
- `tests/` — tests of the library.
- `app/` — the daemon and `velocityctl`: file and process I/O, system calls,
  D-Bus, signals, logging, and the loop that performs what a run requests.
