# trading_engine

A verified core for a paper-trading options strategy: minute bars from ticks,
technical indicators, market regimes, strike selection, risk management, and
the decisions of the server around them.

- `src/` holds the library. Every function carries a contract that Verus
  proves. Prices, amounts and percentages are decimals in millionths, and
  volumes are whole numbers. A quotient is rounded to the nearest millionth, or
  cut toward zero where it is held against a threshold. An indicator is rounded
  once, from exact sums (`src/natural.rs` has numbers of any size for them).
- `src/strategy/accuracy.rs` relates the moving averages, the Wilder averages,
  relative strength, VWAP, sigma, the standard deviation, the regression slope
  and the distance from VWAP to their formulas over the reals: each is the
  nearest millionth, or the formula cut to one. The bands and the ribbon's
  spread and direction are formed from such readings, and have no law of their
  own there.
- `tests/` runs the library.
- `app/` is ordinary Rust around it: SQLite storage, the HTTP API, the clock,
  and the conversions from and to floating point.

What the library takes from outside without proof: how `chrono` writes a date
(`src/date.rs`), and what `serde_json` reads (`src/server/db.rs`).
