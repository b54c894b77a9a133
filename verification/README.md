# polymarket_hft

The verified core of a high-frequency execution engine for Polymarket's
CLOB v2 binary-option markets.

`src/` is the library, proved with Verus:

- `types`: order sides (wire codes and labels) and UP/DOWN token slots.
- `signals`: strategy signal sides, four-byte asset codes, log events and
  the bounded log channel.
- `calendar`: the proleptic Gregorian calendar as day numbers from
  1970-01-01, and the era arithmetic that turns a day number back into a
  date, proved correct and unique.
- `analytics`: wall-clock reads and the integer fields of the analytics
  records (ISO-8601 timestamps, hour, weekday, epoch boundaries).
- `logger`: the text of each log line.
- `oracle`: Chainlink feed addresses, the RPC endpoint list, the `eth_call`
  fields and the decoding of `latestRoundData()`.
- `event_buffer`: the dashboard's ring of the newest 5000 events and its
  NDJSON export.
- `text`: decimal, hexadecimal and JSON text, and the string operations the
  rest builds on.

`app/` holds what runs around it: threads, HTTP, mutexes, floating-point
fields of the analytics records, and the types that carry `serde`,
`thiserror` and `alloy` derives.
