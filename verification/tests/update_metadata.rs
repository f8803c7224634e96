use std::sync::Arc;

use iceberg_planner::error::ErrorKind;
use iceberg_planner::table::metadata::{Table, TableMetadata};
use iceberg_planner::table::partition::{Transform, UnboundPartitionField, UnboundPartitionSpec};
use iceberg_planner::table::schema::{NestedField, PrimitiveType, Schema, Type};
use iceberg_planner::transaction::action::{TableRequirement, TableUpdate, Transaction};
use iceberg_planner::transaction::update_metadata::{UpdateMetadataAction, EMPTY_ACTION, LAST_ADDED};

fn make_v2_table() -> Table {
    let schema = Schema::new(
        1,
        vec![
            Arc::new(NestedField::required(1, "x", Type::Primitive(PrimitiveType::Long))),
            Arc::new(NestedField::required(2, "y", Type::Primitive(PrimitiveType::Long))),
            Arc::new(NestedField::required(3, "z", Type::Primitive(PrimitiveType::Long))),
        ],
    );
    Table {
        identifier: "ns1.test1".to_string(),
        metadata: Arc::new(TableMetadata { current_schema: schema, default_partition_spec_id: 0 }),
    }
}

fn partition_spec() -> UnboundPartitionSpec {
    UnboundPartitionSpec {
        spec_id: None,
        fields: Arc::new(vec![UnboundPartitionField {
            source_id: 1,
            field_id: None,
            name: "foo_identity".to_string(),
            transform: Transform::Identity,
        }]),
    }
}

#[test]
fn test_update_metadata_action() {
    let table = make_v2_table();
    let tx = Transaction::new(&table);
    let requirement = TableRequirement::CurrentSchemaIdMatch {
        current_schema_id: table.metadata().current_schema_id(),
    };
    let schema = Schema::new(7, vec![]);
    let updates = vec![
        TableUpdate::AddSchema { schema: schema.clone() },
        TableUpdate::SetCurrentSchema { schema_id: -1 },
    ];

    let tx = tx
        .update_metadata()
        .check_current_schema(table.metadata().current_schema_id())
        .add_schema(schema)
        .set_current_schema(-1)
        .apply(tx)
        .unwrap();

    assert_eq!(tx.actions.len(), 1);

    let action = &tx.actions[0];

    assert_eq!(action.updates, updates);
    assert_eq!(action.requirements, vec![requirement]);
}

#[test]
fn test_update_metadata_commit() {
    let table = make_v2_table();
    let requirement = TableRequirement::CurrentSchemaIdMatch {
        current_schema_id: table.metadata().current_schema_id(),
    };
    let schema = Schema::new(7, vec![]);
    let updates = vec![
        TableUpdate::AddSchema { schema: schema.clone() },
        TableUpdate::SetCurrentSchema { schema_id: -1 },
    ];

    let mut action_commit = UpdateMetadataAction::new()
        .check_current_schema(table.metadata().current_schema_id())
        .add_schema(schema)
        .set_current_schema(-1)
        .commit()
        .unwrap();

    assert_eq!(action_commit.take_updates(), updates);
    assert_eq!(action_commit.take_requirements(), vec![requirement]);
}

#[test]
fn test_update_metadata_check_current_schema_only() {
    let table = make_v2_table();
    let requirement = TableRequirement::CurrentSchemaIdMatch {
        current_schema_id: table.metadata().current_schema_id(),
    };

    let mut action_commit = UpdateMetadataAction::new()
        .check_current_schema(table.metadata().current_schema_id())
        .commit()
        .unwrap();

    assert!(action_commit.take_updates().is_empty());
    assert_eq!(action_commit.take_requirements(), vec![requirement]);
}

#[test]
fn test_update_metadata_commit_requires_check_or_update() {
    let result = UpdateMetadataAction::new().commit();
    assert!(result.is_err());
    let err = result.err().unwrap();

    assert_eq!(err.kind(), ErrorKind::DataInvalid);
    assert_eq!(err.message, EMPTY_ACTION);
}

#[test]
fn default_action_asks_for_nothing() {
    assert_eq!(UpdateMetadataAction::default(), UpdateMetadataAction::new());
    assert!(UpdateMetadataAction::default().commit().is_err());
}

#[test]
fn partition_spec_changes_are_committed_in_order() {
    let table = make_v2_table();
    let mut commit = UpdateMetadataAction::new()
        .check_current_schema(table.metadata().current_schema_id())
        .check_default_partition_spec(table.metadata().default_partition_spec_id)
        .add_partition_spec(partition_spec())
        .set_default_partition_spec(LAST_ADDED)
        .commit()
        .unwrap();
    assert_eq!(
        commit.take_updates(),
        vec![
            TableUpdate::AddSpec { spec: partition_spec() },
            TableUpdate::SetDefaultSpec { spec_id: -1 },
        ]
    );
    assert_eq!(
        commit.take_requirements(),
        vec![
            TableRequirement::CurrentSchemaIdMatch { current_schema_id: 1 },
            TableRequirement::DefaultSpecIdMatch { default_spec_id: 0 },
        ]
    );
    assert!(commit.take_updates().is_empty());
}

#[test]
fn several_schemas_keep_their_order() {
    let action = UpdateMetadataAction::new()
        .add_schema(Schema::new(10, vec![]))
        .add_schema(Schema::new(20, vec![]))
        .set_current_schema(LAST_ADDED);
    let first = action.commit().unwrap();
    let second = action.commit().unwrap();
    assert_eq!(first, second);
    assert_eq!(first.updates.len(), 3);
    assert_eq!(first.updates[0], TableUpdate::AddSchema { schema: Schema::new(10, vec![]) });
    assert_eq!(first.updates[1], TableUpdate::AddSchema { schema: Schema::new(20, vec![]) });
    assert_eq!(first.updates[2], TableUpdate::SetCurrentSchema { schema_id: LAST_ADDED });
    assert!(first.requirements.is_empty());
}

#[test]
fn actions_are_applied_in_order() {
    let table = make_v2_table();
    let tx = Transaction::new(&table);
    let one = tx.update_metadata().check_current_schema(1);
    let two = tx.update_metadata().set_current_schema(2);
    let tx = two.apply(one.apply(tx).unwrap()).unwrap();
    assert_eq!(tx.table, table);
    assert_eq!(tx.actions.len(), 2);
    assert_eq!(tx.actions[0].requirements.len(), 1);
    assert_eq!(tx.actions[1].updates, vec![TableUpdate::SetCurrentSchema { schema_id: 2 }]);
}
