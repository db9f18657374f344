# alpha_radar

A swing-entry confluence scanner: a watchlist (CSV or free text) is read,
missing OHLCV bars are fetched through a Python sidecar, every symbol is
scored for direction and entry imminence, and the results are ranked and
charted.

## Layout

- `src/` — the verified library (Verus). It holds the discrete logic of the
  scanner with contracts and proved laws:
  - `universe`, `watchlist`, `text`: symbol normalization, free-text ticker
    lists, watchlist decoding (UTF-8 / BOM / Shift_JIS) and lenient CSV
    parsing with per-row errors, de-duplication keeping the first row;
  - `freshness`, `scan`, `sidecar`: the differential-update plan of the bar
    cache, the batched fetch request, the row errors of a scan, and the
    sidecar client configuration;
  - `regime`, `scoring`, `proximity`, `chart`, `markers`, `eval`: regimes,
    the one-marker-per-leg BUY/SELL rule, multi-timeframe gate levels, the
    conviction-velocity label, the signal state machine (Triggered / Active /
    Primed / Neutral), Supertrend and Q-Trend flip and precursor events and
    their chart markers;
  - `models`, `config`: shared value types and integer defaults.
- `app/` — ordinary Rust around the library: the Tauri commands, the SQLite
  cache, the sidecar process, JSON shapes, and the floating-point indicator
  and scoring engine, which calls into the library for every discrete
  decision.
- `tests/` — tests of the library.

The outside crates `csv` and `encoding_rs` are called from `src/` through
trusted wrappers whose contracts are stated in `src/watchlist.rs`; std
string conversions without a vstd specification are wrapped in
`src/text.rs`.
