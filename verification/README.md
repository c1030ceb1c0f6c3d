# Option arbitrage

Conversions and reversals between options and the spot market, in two forms:

- a monitor that pairs Deribit calls and puts with Binance spot books, prices
  every strategy after fees, and keeps a history of the opportunities that reach
  a threshold;
- a position scanner on Binance quotes that opens, marks, closes and settles
  positions round by round, and stores their lives in a database.

The library under `src/` holds the rules. Its functions have contracts that
Verus proves. What the contracts rest on besides are the few calls into `chrono`,
`serde_json`, `dashmap` and the standard library that are marked as such, each
with the facts that are taken for granted. The three calls that read the clock
have no contract: nothing is promised of what they return.

All calculations are written over the trait `Scalar`. `Fixed`, decimal numbers
with nine places, is the implementation whose arithmetic is proved too; the
program uses floating-point numbers.

| Module | What it holds |
| --- | --- |
| `scalar`, `fixed`, `decimal` | numbers and their texts |
| `text`, `env`, `table`, `rank`, `json`, `time` | texts, settings, sorted maps, sorting, JSON, points in time |
| `models`, `arb`, `exchanges`, `monitor`, `history` | the monitor |
| `config`, `model`, `scan`, `scanner`, `ledger`, `db`, `web`, `poller`, `binance` | the position scanner |

`app/` is the program around the library: it asks the exchanges, serves the
dashboard, and reads and writes files and the database. `tests/` runs the library.
