# logger

A logger of Polymarket order books for crypto up-or-down markets, with a
replay back-tester. The decisions of the program are a library whose
behaviour is stated in `requires`/`ensures` contracts and proved with Verus;
the network, file and columnar-storage work is an ordinary Rust program around it.

## Layout

- `src/` — the verified library
  - `api/websocket.rs` — reading websocket payloads into book levels and trades,
    keep-alive and reconnection decisions
  - `api/gamma.rs` — market lookup addresses and answers
  - `models/` — the logged records, sides, activity records, market metadata
  - `storage/manager.rs` — market slugs (including New York wall-clock names),
    interval alignment, session plans, scheduler starts and wake times
  - `storage/parquet.rs` — row batching and column splitting for Parquet files
  - `storage/session.rs` — which rows a session writes, its step from what it meets to what it does, retry counting
  - `backtest/` — order-book replay over logged rows, snapshot processors
  - `numeric.rs`, `text.rs` — integer and price reading, decimal rendering
  - `error.rs` — the library's errors and their texts
- `app/` — the program: websocket and HTTP clients, JSON decoding, Parquet
  files, tokio scheduling, the back-tester's file scan
- `tests/` — tests of the library

Run `logger` to log every market, `logger watch <slug>` to print one market's
events, `logger backtest` to replay the logged BTC markets.
