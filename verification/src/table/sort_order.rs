//! Sort orders: by which fields the rows of a data file are sorted.

use vstd::prelude::*;

use crate::table::partition::Transform;

verus! {

/// The direction of a sort field.
#[derive(Debug, Clone, Copy, PartialEq, Eq, Structural)]
pub enum SortDirection {
    Ascending,
    Descending,
}

/// Where the nulls of a sort field stand.
#[derive(Debug, Clone, Copy, PartialEq, Eq, Structural)]
pub enum NullOrder {
    First,
    Last,
}

/// One field of a sort order.
#[derive(Debug, Clone, Copy, PartialEq, Eq, Structural)]
pub struct SortField {
    /// The id of the field that is sorted by.
    pub source_id: i32,
    pub transform: Transform,
    pub direction: SortDirection,
    pub null_order: NullOrder,
}

/// The fields by which rows are sorted, the most significant first.
#[derive(Debug, PartialEq, Eq)]
pub struct SortOrder {
    pub order_id: i64,
    pub fields: Vec<SortField>,
}

impl SortOrder {
    /// The order of rows that are not sorted.
    pub fn unsorted_order() -> (r: SortOrder)
        ensures
            r.order_id == 0,
            r.fields@.len() == 0,
    {
        SortOrder { order_id: 0, fields: Vec::new() }
    }

    /// Whether rows in this order are not sorted.
    pub fn is_unsorted(&self) -> (r: bool)
        ensures
            r == (self.fields@.len() == 0),
    {
        self.fields.is_empty()
    }
}

} // verus!
