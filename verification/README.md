# qubit_state_machine

A finite state machine library with immutable, validated transition tables.
Current states live in shared atomic cells and change by compare-and-swap.

- `src/standard/` — the generic machine over user state and event types,
  updating `qubit_atomic::AtomicRef` cells through a `qubit_cas` executor.
- `src/fast/` — the dense machine over integer codes, a row-major table
  updated through `qubit_fast_cas`; `src/fast/typed/` layers finite typed
  codebooks over it.
- `src/diagnostics.rs` — reachability analysis shared by both machines.
- `src/table.rs` — the map that a list of transition definitions describes.
- `src/cas.rs` — the declarations and contracts of the compare-and-swap
  engines.
- `src/conformance.rs` — bounded harnesses that decode byte strings into rule
  sets and check every backend against them.
- `app/` — `Display` messages for the error types.

Each builder's `build` states exactly which error a configuration yields, in
the order the checks run, and the table a valid configuration builds; the
runtime operations state their outcome in terms of that table.
