# kraken_execution

Live order execution on the Kraken spot exchange, verified with Verus.

The library in `src/` decides and computes; it does no input or output. An
operation such as `KrakenTrader::place_order` or `KrakenTrader::check_stops_live`
begins with a `Step`: how long to wait, and then either a `Call` to the exchange
or the result. What the exchange answers is handed to `resume`, which gives the
next step. `app/` holds the loop that sends the calls over HTTP, waits the
pauses, and converts between `f64`, JSON values and the types of the library.

- `double`, `natural`, `decimal`: IEEE 754 binary64 arithmetic, its text forms,
  and the big naturals it is computed over, with exact contracts.
- `table`, `text`, `json`, `types`, `error`, `clock`: the plain values.
- `crypto`, `request`: signing, requests, answers, steps.
- `trader`: the book, the settings, volumes, minimums and booking.
- `pairs`, `market`: metadata, prices and balances.
- `fill`, `entry`, `bracket`, `close`, `reconcile`, `exits`: the operations, each
  with a specification of every step it takes.
- `laws`: what holds across operations.

What is taken on trust is in `crypto` (the hashes and base64), in `clock` (the
current time), in `text` (`String::push`) and in `error` (how a list of texts is
written).
