# agentgateway

Verified core of an MCP/HTTP agent gateway, written in Verus.

- `src/` is the library. Every function there is verified against its
  `requires`/`ensures`; the public `law_*` proof functions state properties that
  span several calls, or several steps of a state machine's model (for example: a validated registry has no dependency cycle,
  defaults never override arguments, a circuit opens after enough failures).
  - registry model, compilation and tool listing: `registry`, `compiled`,
    `validation`, `depgraph`, `runtime_hooks`, `relay`, `identity`, `client`
  - composition patterns: `pattern` (pattern kinds, referenced tools, execution
    graph), `pipeline`, `scatter_gather`, `filter`, `schema_map`,
    `output_transform`, `transform`, `tool_result`, `executors`, `enricher`,
    `saga`, `claimcheck`, `vision`
  - resilience patterns: `circuit`, `throttle`, `idempotent`, `deadletter`,
    `proxy`, `backoff`, `wiretap`
  - shared pieces: `json`, `jsonpath` (queries by `serde_json_path`), `text`,
    `duration`, `clock`, `registry_error`
- `tests/` exercises the library on concrete values.
- `app/` is ordinary Rust around the library: `serde_json` conversion, serde
  forms of configuration types, environment variables, float-based
  comparisons, sorting and rate limiting, random sampling,
  the async drivers that perform the calls the library's state machines ask
  for, the dispatch of a composition pattern to its driver, and the listing of
  the tools a caller sees.
