# binance_quote_bridge

Keeps order books of cryptocurrency exchanges from their websocket feeds and
publishes the best bid and ask of each instrument to TCP clients.

- `src/` is the library, verified with Verus: the byte-stream framing of the
  TCP side (`event_sender_tcp_server`), exact reading of the numbers the
  feeds send (`number`, `integer`), the order books and message handling of
  each exchange (`binance_client_context`, `kraken_client_context`,
  `ftx_client_context`), the quote line and its timestamp
  (`bid_ask_handler`), and the keep-alive reply (`tcp`).
- `app/` is the program around it: websocket and TCP connections, the
  typed reading of Binance depth updates with serde, Prometheus metrics and
  their HTTP endpoint, and the FTX ticker feed, whose ticks are
  floating-point values. The reading of feed messages as JSON happens in
  `src/` (`json::parse_json_text`, with serde_json).

Design notes:

- Prices and quantities are exact decimals (`number::Number`), not `f64`.
  A quantity is negligible when its `f64` reading lies strictly within
  `±0.0001` (Binance) or `±0.00000001` (Kraken). The books decide this
  without floats: they compare the exact decimal with the midpoint between
  the `f64` of the bound and the `f64` just below it
  (`QTY_NEGLIGIBLE_DIGITS`, `VOLUME_NEGLIGIBLE_DIGITS`), which is where
  `f64::from_str`'s rounding to nearest, ties to even, crosses the bound.
- The library never panics. Input that cannot be handled (text that is not
  JSON, a Kraken update for a pair without a book, a quote time that cannot
  be written) is answered with an error value; the program stops on it.
- The books and the instrument mapping are kept in `str_map::StrMap`, a
  list of entries with the invariant that no key repeats, viewed as a
  `Map` from key text to value. vstd's specifications of std's `HashMap`
  hold only for key types that satisfy its `obeys_key_model` (granted for
  the primitive integer types and `bool`, and `Box`es of them), and those
  of `BTreeMap` only under `key_obeys_cmp_spec`; a `String` key gets
  neither without an assumption, so a `String`-keyed std map would leave
  the books' contracts with nothing to stand on. `StrMap` gives them a map
  they can speak of.
