# surreal_lance

The decisions of a key-value backend over a versioned columnar dataset, written
and verified in Verus, with a catalog of table, field and index definitions and
the change events of live queries.

## Layout

- `src/kvs/lance/`: the backend.
  - `tx_buffer`, `transaction`, `scan`, `rows`: a transaction's pending writes,
    its reads through the layers, its range scans, save points and commit.
  - `memtable`, `wal`, `flusher`, `datastore`: the write buffer, the
    write-ahead log, the flush and recovery.
  - `commit_gate`: joining concurrent commits into one merge.
  - `schema`, `columns`: Arrow batches and the dataset's filter language.
  - `timeline`, `background_optimizer`, `cnf`: versions, maintenance, settings.
  - `laws`, `history`, `durability`: what holds of the backend as a whole, of
    whole histories of transactions, and across a restart.
- `src/kvs/`: key order, sorted maps, errors, configuration, version numbers.
- `src/cf/`, `src/live/`: change feeds, and the deltas of live queries.
- `src/catalog/`: definitions, their statements and descriptions, and the way
  from a generator's definitions to the catalog's.
- `app/`: files, tasks and channels around the library.
- `tests/`: tests, which run the library over a dataset held in memory.

The library decides and computes; it does no input or output. A read is a plan
for a scan and a function of what the scan brought. A commit is a plan and a
function of how it went. The loops of the background tasks are state machines:
an event goes in, an action comes out.

## What is taken on trust

Functions of `arrow-array`, `arrow-schema`, `dashmap`, `hex`, `revision` and
`uuid`, and a few of the standard library, are called through small wrappers.
Each has a comment that says what is claimed of the function.
