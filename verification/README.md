# pane_switcher

A Herdr plugin that switches panes across workspaces: it cycles through the
most recently used panes, and focuses or cycles through the panes whose agent
needs attention (`blocked`, `done`, `idle`, `working`, in that order).

The decisions are a library verified with Verus:

- `src/actions.rs` — the most-recently-used history (`promote`), recording
  host events, one press of the cycle action (`cycle_panes_logic`), the
  attention order and the attention actions, and the laws about them
  (history stays free of duplicates, a first press returns to the previous
  pane, repeated presses walk the captured order and wrap, attention order is
  by priority).
- `src/state.rs` — the persisted state and its binary file format, with the
  proof that decoding what was encoded gives the state back.
- `src/json.rs`, `src/herdr.rs`, `src/env.rs` — the JSON searches over host
  replies and event payloads, the handling of host replies, and the
  environment rules (socket path, state directory, which pane an invocation
  is about).
- `src/plugin.rs` — which job an invocation does.
- `src/bench.rs` — the benchmark driver's command line and fixtures.
- `src/mock.rs`, `src/support.rs` — the stand-in host that the benchmark
  runs the plugin against, and the environments of those runs.
- `src/text.rs`, `src/seqs.rs` — string helpers and sequence facts.

`app/` is the plugin binary around the library: environment, the host's Unix
socket, JSON parsing with serde, the locked state file, and the clock. It
also holds the benchmark program (`app/benchmark.rs`, entry point
`benchmark::main`) with the stand-in host's socket server and the runs of the
plugin binary (`app/harness.rs`); their timings are floating point.
