# iceberg_planner

The planning side of reading and changing Iceberg tables, verified with Verus.

- `src/arrow`: Arrow schemas as plain values, the notation of their types, and the time zones of the
  schemas of Parquet files.
- `src/expr`: predicates, and which row groups the bloom filters of a file rule out.
- `src/table`: table schemas, partition specs, sort orders and table metadata.
- `src/physical_expr.rs`: expressions, and the fields that `get_field` reads.
- `src/physical_plan`: plan trees, the scan of a table, row limits, and the ordering that a sort order
  gives to the rows of a file.
- `src/physical_optimizer`: the rule that pushes the projection of nested fields into scans.
- `src/transaction`: changes of a table's metadata.
- `app`: adapters to Arrow, Parquet and DataFusion; reading files and committing to a catalog are
  left to the traits there.

Names that start with `law_` are proof functions that state what holds of several functions
together. The functions of the `parquet` and `fnv` crates that the proofs rely on are declared at
the top of `src/expr/row_group_bloom_filter_evaluator.rs`, and the one of std at the top of
`src/arrow/notation.rs`.
