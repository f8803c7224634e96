//! What the actions of a transaction ask of the catalog.

use vstd::prelude::*;

use crate::table::metadata::Table;
use crate::table::partition::UnboundPartitionSpec;
use crate::table::schema::Schema;
use crate::transaction::update_metadata::UpdateMetadataAction;

verus! {

/// A change to a table's metadata.
#[derive(Debug, PartialEq, Eq)]
pub enum TableUpdate {
    AddSchema { schema: Schema },
    SetCurrentSchema { schema_id: i32 },
    AddSpec { spec: UnboundPartitionSpec },
    SetDefaultSpec { spec_id: i32 },
}

impl Clone for TableUpdate {
    fn clone(&self) -> (r: TableUpdate)
        ensures
            r == *self,
    {
        match self {
            TableUpdate::AddSchema { schema } => TableUpdate::AddSchema { schema: schema.clone() },
            TableUpdate::SetCurrentSchema { schema_id } => TableUpdate::SetCurrentSchema {
                schema_id: *schema_id,
            },
            TableUpdate::AddSpec { spec } => TableUpdate::AddSpec { spec: spec.clone() },
            TableUpdate::SetDefaultSpec { spec_id } => TableUpdate::SetDefaultSpec {
                spec_id: *spec_id,
            },
        }
    }
}

/// A condition on a table's metadata that must hold when a change is committed.
#[derive(Debug, Clone, Copy, PartialEq, Eq, Structural)]
pub enum TableRequirement {
    CurrentSchemaIdMatch { current_schema_id: i32 },
    DefaultSpecIdMatch { default_spec_id: i32 },
}

/// What one action contributes to a commit.
#[derive(Debug, PartialEq, Eq)]
pub struct ActionCommit {
    pub updates: Vec<TableUpdate>,
    pub requirements: Vec<TableRequirement>,
}

impl ActionCommit {
    /// Takes the updates out.
    pub fn take_updates(&mut self) -> (r: Vec<TableUpdate>)
        ensures
            r@ == old(self).updates@,
            final(self).updates@.len() == 0,
            final(self).requirements == old(self).requirements,
    {
        let mut updates: Vec<TableUpdate> = Vec::new();
        std::mem::swap(&mut updates, &mut self.updates);
        updates
    }

    /// Takes the requirements out.
    pub fn take_requirements(&mut self) -> (r: Vec<TableRequirement>)
        ensures
            r@ == old(self).requirements@,
            final(self).requirements@.len() == 0,
            final(self).updates == old(self).updates,
    {
        let mut requirements: Vec<TableRequirement> = Vec::new();
        std::mem::swap(&mut requirements, &mut self.requirements);
        requirements
    }
}

/// Actions on one table, in the order in which they were applied.
#[derive(Debug, PartialEq, Eq)]
pub struct Transaction {
    pub table: Table,
    pub actions: Vec<UpdateMetadataAction>,
}

impl Transaction {
    /// A transaction on `table` without actions.
    pub fn new(table: &Table) -> (r: Transaction)
        ensures
            r.table == *table,
            r.actions@.len() == 0,
    {
        Transaction { table: table.clone(), actions: Vec::new() }
    }

    /// An action that checks and updates metadata, not yet part of the transaction.
    pub fn update_metadata(&self) -> (r: UpdateMetadataAction)
        ensures
            r.updates@.len() == 0,
            r.requirements@.len() == 0,
    {
        UpdateMetadataAction::new()
    }
}

} // verus!
