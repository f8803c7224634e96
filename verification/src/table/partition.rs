//! Partition specs and the transforms that they and sort orders use.

use vstd::prelude::*;

use std::sync::Arc;

verus! {

/// How a partition or sort value is derived from a column.
#[derive(Debug, Clone, Copy, PartialEq, Eq, Structural)]
pub enum Transform {
    Identity,
    Bucket(u32),
    Truncate(u32),
    Year,
    Month,
    Day,
    Hour,
    Void,
    Unknown,
}

/// One field of a partition spec that is not yet part of a table.
#[derive(Debug, PartialEq, Eq)]
pub struct UnboundPartitionField {
    pub source_id: i32,
    pub field_id: Option<i32>,
    pub name: String,
    pub transform: Transform,
}

/// A partition spec that is not yet part of a table.
#[derive(Debug, PartialEq, Eq)]
pub struct UnboundPartitionSpec {
    pub spec_id: Option<i32>,
    pub fields: Arc<Vec<UnboundPartitionField>>,
}

impl Clone for UnboundPartitionSpec {
    fn clone(&self) -> (r: UnboundPartitionSpec)
        ensures
            r == *self,
    {
        UnboundPartitionSpec { spec_id: self.spec_id, fields: self.fields.clone() }
    }
}

} // verus!
