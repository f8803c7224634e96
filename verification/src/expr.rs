//! Predicates over table rows, and what the files' bloom filters say of them.

pub mod bloom_filter_bytes;
pub mod predicate;
pub mod row_group_bloom_filter_evaluator;
