# icefalldb_query

The decisions of the IcefallDB query engine, verified with Verus.

IcefallDB tables are directories of Parquet files with JSON metadata. The engine
answers SQL over them through DataFusion, and runs `DELETE`, `UPDATE` and
`MERGE` on single rows. This crate proves what the engine decides on the way:

- `predicate`, `index_selector`, `provider::route`: which filters are pushed
  down, which row groups are dropped, and which reader a scan uses.
- `provider::locate`, `storage`: where a row is, from its id.
- `plan`, `provider::snapshot`, `catalog`: the scan plan of a table, and how a
  provider follows commits.
- `provider::rows`, `plan::reload`: models of what the readers return and of what
  is committed, over which it is stated that no path of a scan shows in its rows,
  and that following a commit is reloading.
- `sql`, `mutate`: what a statement asks for, which rows it changes, and what
  they are afterwards.
- `execution`: the lookup join and the group-by of sorted input.
- `encryption`: which keys a query needs.
- `parquet_exec`, `coalesce`, `metadata_cache`: file ranges, their grouping into
  partitions, and the cache of decoded footers.

`text`, `scalar`, `expr`, `sort` and `key_table` hold the types and data
structures that these share.

Laws that relate several functions are public proof functions, in the module of
the functions that they speak of. What is not proved is listed in the source
as such: the SQL parser of DataFusion and its tokenizer, the Parquet footer
decoder, the base64 decoder, and two functions of the standard library.

`app/` is the engine around the library: the storage trait, the table provider
and the operators that DataFusion runs. The manifest lists what the library and
its tests need, of DataFusion only the parser. An engine that builds `app/` adds
`datafusion` 54.1 with the features `sql`, `parquet` and `parquet_encryption`,
`datafusion-datasource` 54.1, and `datafusion-execution` with the feature
`parquet_encryption`. `tests/` runs the library on concrete
values.
