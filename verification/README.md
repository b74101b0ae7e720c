# heartbeat_store

The execution history of heartbeat tasks, with its rules verified by Verus.

A run is recorded with its output bounded to 16 KiB and the history bounded to
a configurable number of rows; the newest rows stay. Runs are listed newest
first, and counted by status.

- `src/` is the verified library. It works on plain values:
  - `output` bounds task output between two characters,
  - `timestamp` holds points in time and their RFC 3339 texts, which `chrono`
    writes and reads,
  - `text` is the byte order in which texts sort,
  - `row` holds stored rows and the runs that they tell of,
  - `history` orders, lists and prunes rows,
  - `store` has the operations: record, list, count,
  - `location` says where the history lies in a workspace,
  - `error` is what can go wrong,
  - `laws` is what holds of the history as a whole.
- `app/` keeps the history in an SQLite database: it reads the rows, lets the
  library decide, and writes what changed in one transaction.
- `tests/` runs the library.
