# loradb

A store for LoRaWAN frames received from a ChirpStack network server, with an
HTTP API to list devices and query their frames.

## Layout

- `src/` is the library, verified with Verus: every function states in its
  `requires`/`ensures` what it does, and the proof functions (`lemma_*`)
  state the laws that hold across calls.
  - `config`: the service's configuration, read from a snapshot of the
    environment (numbers, flags and the bind address parsed in full), and
    its consistency checks.
  - `text`, `address`: reading numbers, flags and socket addresses as the
    standard library reads them.
  - `chirpstack`: uplink events into frames.
  - `storage`: the frame store (memtable, tables, flush, merge, range
    queries) and its laws: a write adds exactly its frame to the queries
    that select it, flushes and merges keep every answer, recovery from the
    write-ahead log and the tables answers every query as before, and a
    query's answer is the memtable's and each table's scan, sorted by time.
  - `executor`: queries (time window, kinds of frame, fields).
  - `registry`, `handlers`, `middleware`, `http`: the device registry and
    what the HTTP API answers.
- `app/` is the service around it: environment and disk I/O (write-ahead
  log and table files, written as each write's outcome asks), JSON, JWT
  signing, and the axum server. `loradb generate-token <user> [secret]`
  prints an API token.
- `tests/` runs the library on concrete values.
