//! Physical plans over tables.

pub mod ordering;
pub mod plan;
pub mod read_sort_order;
pub mod row_limit;
pub mod scan;
