# market_analyzer

Collection and analysis of exchange market data: OHLCV candles and trades
from Binance Spot, stored as Parquet partitions queried through DuckDB,
served by a command-line tool and an HTTP/WebSocket API.

## Layout

- `src/` — the library, verified with Verus. It holds the domain types
  (symbols, intervals, exact decimals, candles, trades), the exchange's
  wire formats and the client's decisions (paging, retries with backoff,
  reconnects with gap-fill), the storage layout (partition paths, part
  files, deduplication keys, compaction manifests and checks, collector
  state), the HTTP API's parameter rules and error envelope, the query
  plans and the configuration rules. Every public function states what it
  returns in its `ensures`; the `lemma_*` proof functions state the laws
  that relate several functions.
- `tests/` — tests of the library on concrete values.
- `app/` — the program around the library: command-line parsing, the
  configuration file, the network clients (`reqwest`, `tokio-tungstenite`,
  `governor`), DuckDB and Parquet, the `axum` server, Prometheus metrics
  and terminal output. It performs what the library decides.

## Trusted items

The library calls `rust_decimal` and `chrono` through a few
`#[verifier::external_body]` wrappers whose contracts state what those
crates document; the clock and `std::time::Instant` are reached the same
way. Each wrapper's doc comment names the function it calls.
