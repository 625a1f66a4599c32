# cue

The logic of Cue, a small always-on-top task widget: one main task and a
list of sub-tasks, routines that bring tasks back on a schedule, and sync
of the task lists between paired devices on the local network.

The library in `src/` is written in Verus: each public function carries a
contract, and the laws the widget relies on (no task lost by a move, a
date round trip, an operation applied once, what merging keeps) are proof
functions checked with it.

- `src/` — the verified library: calendar and schedule arithmetic, the
  project model and its moves, display order and clipboard text, the
  operation log and how a peer's operations are applied, the sync
  protocol's requests and answers, and the state of the editor screens.
- `app/` — the background scheduler program: files, the clock, the
  control socket; every decision it takes comes from the library. The
  window program itself (its drawing, and the threads that run sync, the
  HTTP server and discovery) is not part of this crate; the library holds
  the decisions those make.
- `tests/` — tests of the library on concrete values.
