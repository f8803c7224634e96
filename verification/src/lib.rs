//! Planning of reads and metadata changes for tables of Parquet files.
//!
//! The crate decides what a query engine asks of a table: which files and fields a scan reads, how
//! a nested projection narrows it, which row groups bloom filters rule out, how a file's rows are
//! ordered, how the schema of a file is brought to the form of the table, and which changes of the
//! table's metadata a transaction asks for. Files, catalogs and query engines are left to callers.

pub mod arrow;
pub mod error;
pub mod expr;
pub mod physical_expr;
pub mod physical_optimizer;
pub mod physical_plan;
pub mod table;
pub mod text;
pub mod transaction;
