# juncture_core

The core of a graph-based agent runtime, written in Verus: the parts that
decide and compute carry contracts, and Verus proves them.

## Layout

- `src/` — the verified library.
  - `text.rs`: text helpers (split, join, prefixes, decimals) with their laws.
  - `json.rs`: the JSON values the library reads and builds, through `serde_json`.
  - `error.rs`: the error type, its codes, messages and kind tests.
  - `edge.rs`: path maps, edges and the trigger table.
  - `graph/builder.rs`: the graph builder, key validation and compilation.
  - `graph/topology.rs`: topology validation (entry point, edge targets,
    reachability, isolated nodes, strongly connected components and cycles
    without an exit).
  - `graph/compiled.rs`: the compiled graph and its drawings (Mermaid, DOT, JSON).
  - `checkpoint.rs`: checkpoint namespaces and checkpoint ids.
  - `interrupt.rs`: interrupt ids, the scratchpad, resume coverage and the
    interrupt decision before a superstep.
  - `command.rs`, `chat.rs`, `llm.rs`, `client.rs`, `func.rs`, `node.rs`:
    commands, streaming-event parsing of model providers, structured-output
    helpers, request planning for the remote server, functional entrypoints
    and node wrappers.
  - `request.rs`: conversation messages and the request bodies of the model
    providers.
  - `response.rs`: reading the providers' whole replies, and cutting a
    streamed body into its records.
  - `stream.rs`: stream modes, stream events, and what the forwarding of a
    streaming run passes on.
  - `cache.rs`: the cache key of a model call.
  - `hashing.rs`: hashers that record what was written into them, so that
    contracts state what each hash was computed from.
  - `config.rs`: the plain-value configuration of a graph run.
- `tests/` — tests that run the library with the real outside crates.
- `app/` — what stays outside the verified library: HTTP transport (to the
  graph server and to the model providers, with their floating-point sampling
  settings), the
  retry policy with its floating-point backoff, the interrupt context with
  its channel, and the serde copies of the library's types.
