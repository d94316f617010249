# 9helius

A transparent Helius RPC load balancer. It pools several Helius api-keys behind a
single endpoint: round-robin routing, failover on rate limits, and per-key credit
accounting.

The decisions of the gateway are a library, written in Rust and verified with
[Verus](https://github.com/verus-lang/verus): what a function returns or changes is
stated in its contract and proved. The server around it is ordinary Rust.

| Where | What |
|-------|------|
| `src/credits.rs` | method classification, costs, reading of request bodies |
| `src/upstream.rs` | per-key state and the selection of a key |
| `src/ratelimit.rs` | token buckets and the backoff |
| `src/proxy.rs` | authentication, URL rewriting, the way of a request from key to key |
| `src/error.rs` | the gateway's own error replies |
| `src/stats.rs` | tallies, month and day rollovers, replay of totals |
| `src/persistence.rs` | snapshots of usage and their restoration |
| `src/keepalive.rs` | which keys are pinged, and what a ping costs |
| `src/metrics.rs` | metric names and the health status |
| `src/config.rs` | configuration, defaults and validation |
| `src/json.rs`, `src/name_map.rs`, `src/text.rs` | JSON members, maps by name, text |
| `app/` | the server: HTTP, files, environment, logging, metrics recorder |
| `tests/` | tests of the library |

## What is proved

Besides the contracts of the single functions, the library states laws that span
them, as public proof functions. Among them:

- In a round of selections every key comes up, and none twice; a selected key is
  enabled, within its cap, off cooldown and not among those to be skipped; a
  selection does not fail while a fit key has a token for sure (`upstream`).
- A charge within quota keeps the cap; a rate-limited key stays away for its backoff
  (`upstream`); only a serviced request is charged, no key is tried twice, and a
  request that cannot be served is answered with 429 or 502 (`proxy`).
- Of the URL's path and query, only the api-key is rewritten: everything else is copied,
  character for character (`proxy`).
- A month and a day are closed once, and the next one starts at zero; over any mix of
  charges and day rolls every credit is counted once (`stats`).
- Usage survives a restart within the month, and lifetime counters survive any
  (`persistence`).

Calls into other crates (`governor`, `serde_json`, `time`, `url`) and the clock stand
behind small functions marked `external_body`. What is taken for granted of each is in
its contract and in the comment above it.

## Running

```toml
# config.toml
[gateway]
bind = "0.0.0.0:8080"
api_key = "your-secret-gateway-key"   # clients present this
max_retries = 6                       # distinct keys to try per request

[[upstreams]]                         # one block per key
name = "helius-1"
api_key = "..."
credit_cap = 1000000
```

The path of the configuration defaults to `config.toml`; `NINEHELIUS_CONFIG` overrides
it, and any field can be set through the environment with the prefix `NINEHELIUS_` and
`__` for nesting.
