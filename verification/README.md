# rtcli

A command-line client for rtorrent that talks JSON-RPC over its SCGI port.

- `src/` is the library, verified with Verus: SCGI framing of requests and
  reading of replies (`scgi`), the JSON values exchanged (`json`), the calls
  made to rtorrent and how their replies are read (`rpc`), torrents, files,
  peers and trackers read from multicall rows (`torrent`), list filters
  (`filter`), and how sizes, rates, ratios and table cells are written
  (`format`). A size or a ratio is shown as an `f64` printed with one or
  three decimals would show it; the library computes that text with integers
  and states exactly what it is.
- `app/` is the program around it: argument parsing, the configuration file,
  sockets, JSON encoding and decoding, and printing tables.
- `tests/` exercises the library, including comparisons of the integer size
  and ratio texts with the `f64` formatting they stand for.
