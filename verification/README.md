# simpledb_rs

A small relational database engine in the style of SimpleDB, written as a
Verus library whose behaviour is stated in `requires` / `ensures` contracts
and proved.

## Layout

- `src/` — the verified library.
  - `page`, `bytes`, `file`: pages of bytes with integer and string fields,
    byte encodings, block ids and their serialization.
  - `log`: log records and their byte form; the log page (records written
    from the end of a block towards its start) and the log buffer that
    decides when a block is full and when it must be saved.
  - `buffer`: the bookkeeping of the buffer pool (which block each buffer
    holds, pins, pending log flushes).
  - `record`, `scan`: values, field types, schemas, rows and in-memory scans.
  - `parser`: the lexer and the recursive-descent grammar of expressions,
    predicates and statements, each parser proved equal to its grammar.
  - `materialization`: temporary tables, sort (merge) scans, group-by scans,
    aggregates, record comparison and merge joins.
  - `metadata`: table statistics and their cache; the records of an index
    and the estimates of a lookup through it.
  - `driver`, `display`, `client`: what a result's columns look like (also
    as served to remote clients by result id), how result tables are laid
    out as text, and what a typed client line asks for.
- `tests/` — tests run against the compiled library.
- `app/` — the parts that deal with the outside world: block files, the log
  and buffer managers' I/O and waiting, the interactive client on a
  terminal, the shared metadata service, error types with outside derives,
  and the buffer estimates that use floating point.
