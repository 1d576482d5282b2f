# hourly_brief

An hourly market digest for the bitbank exchange, delivered to a Discord
webhook from AWS Lambda, with a small settings API.

- `src/` is the verified library (Verus): ranking the listed pairs by
  turnover, choosing the candle files and candles, laying out the three-line
  digest of each pair, grouping digits by thousands, packing the digest into
  messages under the chat's length limit, the configuration (defaults, stored
  records, checking a change), the concurrency limit, and the settings API's
  access decisions. Calendar facts come from `chrono` and JSON string quoting
  from `serde_json`, behind small trusted wrappers.
- `app/` is the runtime around it: HTTP fetches (`ureq`), the floating-point
  price indicators (SMA, EMA, RSI, MACD, ATR), threads, DynamoDB and SSM
  access, and the two Lambda handlers.
- `tests/` exercises the library on concrete values.
