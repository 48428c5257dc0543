# pocketflow_rs

A flow-based programming framework in which nodes are joined by edges chosen
by the state each node reports, and `pi`, an interactive coding agent built on
it. The library is written in Verus and proved against its contracts.

Layout:

- `src/flow.rs`: flows, routing (`next_node`), the Mermaid chart, and the laws
  about them.
- `src/node.rs`: states, process results, plain nodes.
- `src/agent.rs`: the agent's states, flow and decisions.
- `src/session.rs`: the session log's line format.
- `src/config.rs`, `src/request.rs`: configuration paths, request addressing.
- `src/sorting.rs`, `src/text.rs`: ordered listing and text helpers.
- `app/`: the asynchronous runner, file and network I/O, and the `pi` binary.
