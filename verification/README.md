# jedis

A small Redis-compatible key-value server. The library (`src/`) holds the
server's logic, verified with Verus; the binary (`app/`) holds the parts that
talk to the outside world.

## Layout

- `src/text.rs`: character-level helpers (trimming, decimal formatting and
  parsing, line splitting, case handling) with their models.
- `src/keymap.rs`: `KeyMap`, a map from string keys to values with a
  no-duplicate-keys invariant and a `Map` view. It stands where a server would
  keep a `HashMap<String, _>`: vstd's `HashMap` specifications hold only for
  key types that obey its key model (`obeys_key_model`), which vstd states for
  `bool` and the integer types but not for `String`; the crate would have to
  assume it. So the keyspace is kept in two vectors whose lookups compare keys
  by their characters. Keys are listed in insertion order, one of the orders a
  `HashMap` may give.
- `src/store/`: the keyspace (strings and hashes with optional expiry), the
  server counters, and the string, hash, server and CONFIG operations.
- `src/resp/`: reading a RESP command from bytes and writing RESP replies;
  `round_trip.rs` proves that what the writer produces reads back unchanged.
- `src/config.rs`: command-line and configuration-file settings, their merge,
  and the configuration file's text; `src/rewrite.rs` proves that lines the
  reader ignores change nothing, and that a rewritten file reads back as the
  running settings when the password has no line break and no whitespace at its
  ends, the log level is valid, and the lines that line breaks in the host name
  bring in are harmless (never refused, setting no password where none is
  written).
- `src/commands/`: command dispatch and the replies of each command family.
- `src/background/`: one round of active expiry over a random sample of keys.
- `src/server.rs`: per-connection decisions (admission, next step, MONITOR
  lines).
- `src/clock.rs`: the server clock.
- `app/main.rs`: command line, files, sockets, tasks and locks.

## Running

The binary listens on `--host`/`--port` (default `127.0.0.1:6379`) and reads
`jedis.conf` if present; see `--help` for the other options.
