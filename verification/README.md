# ftx_bot

A pairs-trading bot for FTX perpetual futures, split in two:

- `src/` is a Verus-verified library: the request signature (HMAC-SHA256
  through the `hmac`/`sha2` crates, hex through `hex`), decimal timestamps,
  websocket and REST request construction, the candidate and cointegrated
  pair lists, and the decisions of the trading loop.
- `app/` is the program around it: HTTP and websocket I/O with `reqwest`,
  the `data.json` trade log, and the floating-point statistics (z-scores,
  the cointegration test, position sizing).

`tests/` runs the library on concrete values.
