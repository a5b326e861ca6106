# check_program

The core of a hub/edge SQL cluster, written in Verus and proved against its
contracts.

- `src/` is the verified library: the edge wire frames and their checksum,
  the signed session messages, ordering rules and the per-group stage
  scheduler, the SQL route clauses and their checks, cluster membership and
  compatibility rules, the coordinator's quorum and consistency decisions,
  the storage actor over SQLite, the edge device store over sled with its
  command runner, and the configuration defaults.
- `tests/` runs the library on concrete values.
- `app/` holds what stays outside the proofs: reading files, the storage
  actor thread and its write-ahead log, the tokio codec adapter, the clock
  and socket addresses, and the float cleanup ratio of the edge store.
