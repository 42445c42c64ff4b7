# telemt

Health decisions for a pool of writers to middle proxies, control-plane requests
over HTTP, and a comparison of clocks.

- `src/` is the library. It is written in Verus: every function states what it
  returns or changes, and Verus proves it.
  - `health/` decides how many writers each data centre should keep, which
    writers to close, replace or rotate, and when to try again. The state from
    cycle to cycle is a `HealthMonitor`; the order of its steps is a
    `HealthCycle`. Files whose names end in `_laws`, and `plan_order`, hold what
    follows for every run.
  - `http/` takes addresses apart, writes requests and reads responses.
  - `time_sync` compares the local clock with that of a server.
  - `clock`, `key_map`, `ranking`, `sums`, `filters` and `types` serve the rest.
- `app/` does the input and output: it runs the loops, asks the pool and the
  network, and hands what comes back to the library.
- `tests/` runs the library on examples.

Outside code that the library calls stands behind functions marked
`#[verifier::external_body]`; their doc comments say what is taken on trust.
