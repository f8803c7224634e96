//! Checks and updates of a table's schemas and partition specs.

use vstd::prelude::*;

use crate::error::{Error, ErrorKind};
use crate::table::partition::UnboundPartitionSpec;
use crate::table::schema::Schema;
use crate::transaction::action::{ActionCommit, TableRequirement, TableUpdate, Transaction};

verus! {

/// The id by which an update refers to the schema or spec that was added last.
pub const LAST_ADDED: i32 = -1;

/// A transaction action that checks and updates table metadata.
///
/// Each method adds one [`TableRequirement`] or one [`TableUpdate`]. Updates take effect in the
/// order in which they were added, also when a transaction is tried again on newer metadata.
#[derive(Debug, PartialEq, Eq)]
pub struct UpdateMetadataAction {
    pub updates: Vec<TableUpdate>,
    pub requirements: Vec<TableRequirement>,
}

/// The message for an action that asks for nothing.
pub const EMPTY_ACTION: &'static str =
    "At least one current schema check or schema metadata update is required for UpdateMetadataAction";

impl Default for UpdateMetadataAction {
    fn default() -> (r: UpdateMetadataAction)
        ensures
            r.updates@ == Seq::<TableUpdate>::empty(),
            r.requirements@ == Seq::<TableRequirement>::empty(),
    {
        UpdateMetadataAction { updates: Vec::new(), requirements: Vec::new() }
    }
}

impl UpdateMetadataAction {
    /// An action without updates or requirements.
    pub fn new() -> (r: UpdateMetadataAction)
        ensures
            r.updates@ == Seq::<TableUpdate>::empty(),
            r.requirements@ == Seq::<TableRequirement>::empty(),
    {
        UpdateMetadataAction::default()
    }

    /// Requires that the table's current schema still is the one with the given id.
    pub fn check_current_schema(self, current_schema_id: i32) -> (r: UpdateMetadataAction)
        ensures
            r.updates@ == self.updates@,
            r.requirements@ == self.requirements@.push(
                TableRequirement::CurrentSchemaIdMatch { current_schema_id },
            ),
    {
        let mut requirements: Vec<TableRequirement> = self.requirements;
        requirements.push(TableRequirement::CurrentSchemaIdMatch { current_schema_id });
        UpdateMetadataAction { updates: self.updates, requirements }
    }

    /// Adds a schema to the table.
    pub fn add_schema(self, schema: Schema) -> (r: UpdateMetadataAction)
        ensures
            r.updates@ == self.updates@.push(TableUpdate::AddSchema { schema }),
            r.requirements@ == self.requirements@,
    {
        self.update(TableUpdate::AddSchema { schema })
    }

    /// Makes the schema with the given id the current one. [`LAST_ADDED`] stands for the schema
    /// that this action added last.
    pub fn set_current_schema(self, schema_id: i32) -> (r: UpdateMetadataAction)
        ensures
            r.updates@ == self.updates@.push(TableUpdate::SetCurrentSchema { schema_id }),
            r.requirements@ == self.requirements@,
            schema_id == LAST_ADDED ==> selected_schema(r.updates@, self.updates@.len() as int)
                == last_added_schema(self.updates@),
    {
        let ghost before = self.updates@;
        let next: UpdateMetadataAction = self.update(TableUpdate::SetCurrentSchema { schema_id });
        assert(next.updates@.take(before.len() as int) =~= before);
        next
    }

    /// Requires that the table's default partition spec still is the one with the given id.
    pub fn check_default_partition_spec(self, default_spec_id: i32) -> (r: UpdateMetadataAction)
        ensures
            r.updates@ == self.updates@,
            r.requirements@ == self.requirements@.push(
                TableRequirement::DefaultSpecIdMatch { default_spec_id },
            ),
    {
        let mut requirements: Vec<TableRequirement> = self.requirements;
        requirements.push(TableRequirement::DefaultSpecIdMatch { default_spec_id });
        UpdateMetadataAction { updates: self.updates, requirements }
    }

    /// Adds a partition spec to the table.
    pub fn add_partition_spec(self, spec: UnboundPartitionSpec) -> (r: UpdateMetadataAction)
        ensures
            r.updates@ == self.updates@.push(TableUpdate::AddSpec { spec }),
            r.requirements@ == self.requirements@,
    {
        self.update(TableUpdate::AddSpec { spec })
    }

    /// Makes the partition spec with the given id the default one. [`LAST_ADDED`] stands for the
    /// spec that this action added last.
    pub fn set_default_partition_spec(self, spec_id: i32) -> (r: UpdateMetadataAction)
        ensures
            r.updates@ == self.updates@.push(TableUpdate::SetDefaultSpec { spec_id }),
            r.requirements@ == self.requirements@,
            spec_id == LAST_ADDED ==> selected_spec(r.updates@, self.updates@.len() as int)
                == last_added_spec(self.updates@),
    {
        let ghost before = self.updates@;
        let next: UpdateMetadataAction = self.update(TableUpdate::SetDefaultSpec { spec_id });
        assert(next.updates@.take(before.len() as int) =~= before);
        next
    }

    fn update(self, update: TableUpdate) -> (r: UpdateMetadataAction)
        ensures
            r.updates@ == self.updates@.push(update),
            r.requirements@ == self.requirements@,
    {
        let mut updates: Vec<TableUpdate> = self.updates;
        updates.push(update);
        UpdateMetadataAction { updates, requirements: self.requirements }
    }

    /// Adds the action to a transaction, behind the actions that it already has.
    pub fn apply(self, tx: Transaction) -> (r: Result<Transaction, Error>)
        ensures
            r matches Ok(next) && next.table == tx.table && next.actions@ == tx.actions@.push(self),
    {
        let mut actions: Vec<UpdateMetadataAction> = tx.actions;
        actions.push(self);
        Ok(Transaction { table: tx.table, actions })
    }

    /// What the action contributes to a commit: all of its updates and requirements, in the order
    /// in which they were added. An action that asks for nothing is an error.
    pub fn commit(&self) -> (r: Result<ActionCommit, Error>)
        ensures
            r is Err <==> self.updates@.len() == 0 && self.requirements@.len() == 0,
            match r {
                Ok(commit) => commit.updates@ == self.updates@ && commit.requirements@
                    == self.requirements@,
                Err(error) => error.kind == ErrorKind::DataInvalid && error.message@
                    == EMPTY_ACTION@,
            },
    {
        if self.updates.is_empty() && self.requirements.is_empty() {
            return Err(Error::new(ErrorKind::DataInvalid, EMPTY_ACTION));
        }
        let mut updates: Vec<TableUpdate> = Vec::new();
        let mut i: usize = 0;
        while i < self.updates.len()
            invariant
                i <= self.updates@.len(),
                updates@ == self.updates@.take(i as int),
            decreases self.updates@.len() - i,
        {
            updates.push(self.updates[i].clone());
            i += 1;
            assert(updates@ =~= self.updates@.take(i as int));
        }
        assert(updates@ =~= self.updates@);
        let mut requirements: Vec<TableRequirement> = Vec::new();
        let mut j: usize = 0;
        while j < self.requirements.len()
            invariant
                j <= self.requirements@.len(),
                requirements@ == self.requirements@.take(j as int),
            decreases self.requirements@.len() - j,
        {
            requirements.push(self.requirements[j]);
            j += 1;
            assert(requirements@ =~= self.requirements@.take(j as int));
        }
        assert(requirements@ =~= self.requirements@);
        Ok(ActionCommit { updates, requirements })
    }
}

/// The schema that was added last by a list of updates, if one was.
pub open spec fn last_added_schema(updates: Seq<TableUpdate>) -> Option<Schema>
    decreases updates.len(),
{
    if updates.len() == 0 {
        None
    } else {
        match updates.last() {
            TableUpdate::AddSchema { schema } => Some(schema),
            _ => last_added_schema(updates.drop_last()),
        }
    }
}

/// The partition spec that was added last by a list of updates, if one was.
pub open spec fn last_added_spec(updates: Seq<TableUpdate>) -> Option<UnboundPartitionSpec>
    decreases updates.len(),
{
    if updates.len() == 0 {
        None
    } else {
        match updates.last() {
            TableUpdate::AddSpec { spec } => Some(spec),
            _ => last_added_spec(updates.drop_last()),
        }
    }
}

/// The schema that the update at position `i` makes the current one, where it refers to the
/// schema that was added last before it.
pub open spec fn selected_schema(updates: Seq<TableUpdate>, i: int) -> Option<Schema> {
    match updates[i] {
        TableUpdate::SetCurrentSchema { schema_id } => if schema_id == LAST_ADDED {
            last_added_schema(updates.take(i))
        } else {
            None
        },
        _ => None,
    }
}

/// The partition spec that the update at position `i` makes the default one, where it refers to
/// the spec that was added last before it.
pub open spec fn selected_spec(updates: Seq<TableUpdate>, i: int) -> Option<UnboundPartitionSpec> {
    match updates[i] {
        TableUpdate::SetDefaultSpec { spec_id } => if spec_id == LAST_ADDED {
            last_added_spec(updates.take(i))
        } else {
            None
        },
        _ => None,
    }
}

/// [`LAST_ADDED`] selects the last of the schemas that an action added: of `earlier` updates, one
/// more schema and then updates that add none, it is that schema.
pub proof fn law_last_added_schema_is_selected(
    earlier: Seq<TableUpdate>,
    schema: Schema,
    between: Seq<TableUpdate>,
)
    requires
        forall|i: int| 0 <= i < between.len() ==> !((#[trigger] between[i]) is AddSchema),
    ensures
        ({
            let added = earlier.push(TableUpdate::AddSchema { schema }) + between;
            let updates = added.push(TableUpdate::SetCurrentSchema { schema_id: LAST_ADDED });
            selected_schema(updates, added.len() as int) == Some(schema)
        }),
    decreases between.len(),
{
    let start = earlier.push(TableUpdate::AddSchema { schema });
    let added = start + between;
    let updates = added.push(TableUpdate::SetCurrentSchema { schema_id: LAST_ADDED });
    assert(updates.take(added.len() as int) =~= added);
    if between.len() == 0 {
        assert(added =~= start);
    } else {
        let shorter = between.drop_last();
        law_last_added_schema_is_selected(earlier, schema, shorter);
        let before = start + shorter;
        let updates_before = before.push(
            TableUpdate::SetCurrentSchema { schema_id: LAST_ADDED },
        );
        assert(updates_before.take(before.len() as int) =~= before);
        assert(added.drop_last() =~= before);
        assert(added.last() == between.last());
    }
}

/// [`LAST_ADDED`] selects the last of the partition specs that an action added.
pub proof fn law_last_added_spec_is_selected(
    earlier: Seq<TableUpdate>,
    spec: UnboundPartitionSpec,
    between: Seq<TableUpdate>,
)
    requires
        forall|i: int| 0 <= i < between.len() ==> !((#[trigger] between[i]) is AddSpec),
    ensures
        ({
            let added = earlier.push(TableUpdate::AddSpec { spec }) + between;
            let updates = added.push(TableUpdate::SetDefaultSpec { spec_id: LAST_ADDED });
            selected_spec(updates, added.len() as int) == Some(spec)
        }),
    decreases between.len(),
{
    let start = earlier.push(TableUpdate::AddSpec { spec });
    let added = start + between;
    let updates = added.push(TableUpdate::SetDefaultSpec { spec_id: LAST_ADDED });
    assert(updates.take(added.len() as int) =~= added);
    if between.len() == 0 {
        assert(added =~= start);
    } else {
        let shorter = between.drop_last();
        law_last_added_spec_is_selected(earlier, spec, shorter);
        let before = start + shorter;
        let updates_before = before.push(TableUpdate::SetDefaultSpec { spec_id: LAST_ADDED });
        assert(updates_before.take(before.len() as int) =~= before);
        assert(added.drop_last() =~= before);
        assert(added.last() == between.last());
    }
}

/// [`LAST_ADDED`] selects nothing where nothing was added before it, and an id of its own is none of
/// those that were added.
pub proof fn law_selection_needs_an_addition(updates: Seq<TableUpdate>, i: int)
    requires
        0 <= i < updates.len(),
    ensures
        LAST_ADDED == -1,
        (forall|k: int| 0 <= k < i ==> !((#[trigger] updates[k]) is AddSchema))
            ==> selected_schema(updates, i) is None,
        (forall|k: int| 0 <= k < i ==> !((#[trigger] updates[k]) is AddSpec)) ==> selected_spec(
            updates,
            i,
        ) is None,
        updates[i] matches TableUpdate::SetCurrentSchema { schema_id } && schema_id != -1
            ==> selected_schema(updates, i) is None,
        updates[i] matches TableUpdate::SetDefaultSpec { spec_id } && spec_id != -1
            ==> selected_spec(updates, i) is None,
{
    let before = updates.take(i);
    if forall|k: int| 0 <= k < i ==> !((#[trigger] updates[k]) is AddSchema) {
        assert forall|k: int| 0 <= k < before.len() implies !((#[trigger] before[k]) is AddSchema) by {
            assert(before[k] == updates[k]);
        }
        lemma_no_schema_added(before);
    }
    if forall|k: int| 0 <= k < i ==> !((#[trigger] updates[k]) is AddSpec) {
        assert forall|k: int| 0 <= k < before.len() implies !((#[trigger] before[k]) is AddSpec) by {
            assert(before[k] == updates[k]);
        }
        lemma_no_spec_added(before);
    }
}

proof fn lemma_no_schema_added(updates: Seq<TableUpdate>)
    requires
        forall|k: int| 0 <= k < updates.len() ==> !((#[trigger] updates[k]) is AddSchema),
    ensures
        last_added_schema(updates) is None,
    decreases updates.len(),
{
    if updates.len() > 0 {
        let shorter = updates.drop_last();
        assert(!(updates[updates.len() - 1] is AddSchema));
        assert forall|k: int| 0 <= k < shorter.len() implies !((#[trigger] shorter[k]) is AddSchema) by {
            assert(shorter[k] == updates[k]);
        }
        lemma_no_schema_added(shorter);
    }
}

proof fn lemma_no_spec_added(updates: Seq<TableUpdate>)
    requires
        forall|k: int| 0 <= k < updates.len() ==> !((#[trigger] updates[k]) is AddSpec),
    ensures
        last_added_spec(updates) is None,
    decreases updates.len(),
{
    if updates.len() > 0 {
        let shorter = updates.drop_last();
        assert(!(updates[updates.len() - 1] is AddSpec));
        assert forall|k: int| 0 <= k < shorter.len() implies !((#[trigger] shorter[k]) is AddSpec) by {
            assert(shorter[k] == updates[k]);
        }
        lemma_no_spec_added(shorter);
    }
}

} // verus!
