# ducklake

A verified core of a DuckLake catalog client, written in Verus.

- `src/` is the library; Verus checks every function in it against its contract.
  - `catalog`, `columns`, `load`, `flatten`, `sort`, `fields`, `arena`, `rows`: the in-memory
    catalog (schemas, tables, nested columns, partitioning) and how it is built from the rows
    of the catalog tables and changed by a transaction.
  - `metadata`, `snapshot`, `stats`, `tags`, `value`: settings resolution, the current snapshot,
    table and column statistics, tags and literal values.
  - `path`: catalog paths and the storage locations they resolve to.
  - `connection`, `dialect`, `postgres`, `sqlite`, `batch`, `copy`: which catalog database a
    connection URL names, what that database needs per SQL dialect, batching of bulk
    statements, and the text format of bulk `COPY` rows.
  - `conversion`, `evolve`: logical values and their physical (Arrow) encodings, and how the
    columns of read data are matched to a table's columns.
- `tests/` runs the library on concrete values.
- `app/` holds what the library leaves to its callers: object storage, Arrow column
  statistics, SQL builder types and float-valued settings.
