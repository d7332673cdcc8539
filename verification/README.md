# airpcez

A node agent for running llama.cpp across a small cluster: each node reports its memory
and GPUs, and the host plans and launches `llama-server` over RPC workers.

- `src/` is the verified library (Verus): node statistics and their parsers, cluster
  memory totals and version checks, the launch planner, `llama-server` / `rpc-server`
  command lines, settings and their command-line overrides, saved profiles, and the
  decisions behind the HTTP API (node list edits, model file selection, readiness,
  settings saves, supervisor state).
- `app/` is the program around it: the HTTP server (axum), polling (reqwest), the process
  supervisor (tokio), TOML files, and sampling this machine (sysinfo, vendor tools).
- `tests/` exercises the library.
