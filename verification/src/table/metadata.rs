//! Tables as a plan sees them.

use vstd::prelude::*;

use std::sync::Arc;

use crate::table::schema::{FieldEntry, Schema};

verus! {

/// The state of a table.
#[derive(Debug, PartialEq, Eq)]
pub struct TableMetadata {
    pub current_schema: Schema,
    pub default_partition_spec_id: i32,
}

impl TableMetadata {
    /// The schema that new data is written with.
    pub fn current_schema(&self) -> (r: &Schema)
        ensures
            *r == self.current_schema,
    {
        &self.current_schema
    }

    /// The id of the schema that new data is written with.
    pub fn current_schema_id(&self) -> (r: i32)
        ensures
            r == self.current_schema.id(),
    {
        self.current_schema.schema_id()
    }
}

/// A table in a catalog.
#[derive(Debug, PartialEq, Eq)]
pub struct Table {
    pub identifier: String,
    pub metadata: Arc<TableMetadata>,
}

impl Table {
    /// All fields of the current schema, each under its dotted name.
    pub open spec fn current_entries(self) -> Seq<FieldEntry> {
        self.metadata.current_schema.entries()
    }

    /// The state of the table.
    pub fn metadata(&self) -> (r: &TableMetadata)
        ensures
            *r == *self.metadata,
    {
        &self.metadata
    }
}

impl Clone for Table {
    fn clone(&self) -> (r: Table)
        ensures
            r == *self,
    {
        Table { identifier: self.identifier.clone(), metadata: self.metadata.clone() }
    }
}

} // verus!
