use std::sync::Arc;

use iceberg_planner::arrow::metadata::Metadata;
use iceberg_planner::arrow::schema::{ArrowSchema, DataType, Field, LeafType};
use iceberg_planner::error::{Error, ErrorKind};
use iceberg_planner::physical_plan::row_limit::RowLimit;
use iceberg_planner::physical_plan::scan::{
    get_column_names, Boundedness, EmissionType, FileScanTask, IcebergTableScan, Predicate,
    ScanPartition,
};
use iceberg_planner::table::metadata::{Table, TableMetadata};
use iceberg_planner::table::schema::{NestedField, PrimitiveType, Schema, Type};

fn table() -> Table {
    let inner = Type::Struct(vec![Arc::new(NestedField::optional(
        3,
        "b",
        Type::Primitive(PrimitiveType::Long),
    ))]);
    let schema = Schema::new(
        4,
        vec![
            Arc::new(NestedField::required(1, "x", Type::Primitive(PrimitiveType::Int))),
            Arc::new(NestedField::optional(2, "a", inner)),
        ],
    );
    Table {
        identifier: "ns.t".to_string(),
        metadata: Arc::new(TableMetadata { current_schema: schema, default_partition_spec_id: 0 }),
    }
}

fn columns() -> ArrowSchema {
    let inner =
        DataType::Struct(Arc::new(vec![Arc::new(Field::new("b", DataType::Leaf(LeafType::Int64), true))]));
    ArrowSchema::new_with_metadata(
        vec![
            Arc::new(Field::new("x", DataType::Leaf(LeafType::Int32), false)),
            Arc::new(Field::new("a", inner, true)),
        ],
        Metadata::from_entries(vec![("k".to_string(), "v".to_string())]),
    )
}

fn task(path: &str) -> FileScanTask {
    FileScanTask {
        data_file_path: path.to_string(),
        start: 4,
        length: 100,
        record_count: Some(10),
        predicate: None,
        deletes: Arc::new(vec!["d".to_string()]),
        project_field_ids: vec![1, 2],
    }
}

fn scan(limit: Option<usize>, files: &[&str]) -> IcebergTableScan {
    IcebergTableScan::try_new(
        table(),
        Some(7),
        &columns(),
        None,
        Some(Predicate { text: "x > 3".to_string() }),
        limit,
        Ok(files.iter().map(|path| task(path)).collect()),
    )
    .unwrap()
}

#[test]
fn a_scan_holds_what_it_was_made_with() {
    let scan = scan(Some(5), &["f1", "f2"]);
    assert_eq!(scan.table(), &table());
    assert_eq!(scan.snapshot_id(), Some(7));
    assert!(scan.projection().is_none());
    assert_eq!(scan.predicates().unwrap().text, "x > 3");
    assert_eq!(scan.limit(), Some(5));
    assert_eq!(scan.file_scan_tasks(), [task("f1"), task("f2")]);
    assert_eq!(scan.schema(), &columns());
    assert_eq!(scan.name(), "IcebergTableScan");
    assert_eq!(scan.properties().partitions, 2);
    assert_eq!(scan.properties().emission, EmissionType::Incremental);
    assert_eq!(scan.properties().boundedness, Boundedness::Bounded);
}

#[test]
fn a_projection_selects_columns_in_its_order() {
    let projection = vec![1, 0, 1];
    let scan = IcebergTableScan::try_new(
        table(),
        None,
        &columns(),
        Some(&projection),
        None,
        None,
        Ok(vec![]),
    )
    .unwrap();
    assert_eq!(scan.projection().unwrap(), ["a", "x", "a"]);
    let names: Vec<&str> = scan.schema().fields.iter().map(|f| f.name.as_str()).collect();
    assert_eq!(names, ["a", "x", "a"]);
    assert_eq!(scan.schema().metadata, columns().metadata);
    assert_eq!(scan.properties().partitions, 1);
    assert!(scan.predicates().is_none());
    assert_eq!(get_column_names(&columns(), None), None);
    assert_eq!(get_column_names(&columns(), Some(&vec![])), Some(vec![]));
}

#[test]
fn a_failed_file_plan_is_handed_on() {
    let error = Error::new(ErrorKind::Unexpected, "no manifest");
    let result =
        IcebergTableScan::try_new(table(), None, &columns(), None, None, None, Err(error));
    assert_eq!(result.unwrap_err(), Error::new(ErrorKind::Unexpected, "no manifest"));
}

#[test]
fn a_nested_projection_keeps_the_files() {
    let before = scan(Some(5), &["f1", "f2"]);
    let narrowed = ArrowSchema::new(vec![columns().fields[1].clone()]);
    let after =
        before.with_nested_projection(vec!["a.b".to_string(), "x".to_string()], narrowed.clone());
    let after = after.unwrap();
    assert_eq!(after.table(), before.table());
    assert_eq!(after.snapshot_id(), before.snapshot_id());
    assert_eq!(after.predicates(), before.predicates());
    assert_eq!(after.limit(), before.limit());
    assert_eq!(after.projection().unwrap(), ["a.b", "x"]);
    assert_eq!(after.schema(), &narrowed);
    assert_eq!(after.properties().partitions, 2);
    assert_eq!(
        after.file_scan_tasks(),
        [
            FileScanTask { project_field_ids: vec![3, 1], ..task("f1") },
            FileScanTask { project_field_ids: vec![3, 1], ..task("f2") },
        ]
    );
}

#[test]
fn a_path_that_the_table_does_not_have_is_an_error() {
    let paths = vec!["a.b".to_string(), "a.c".to_string(), "z".to_string()];
    let error = scan(None, &["f"]).with_nested_projection(paths, columns()).unwrap_err();
    assert_eq!(error.kind, ErrorKind::Plan);
    assert_eq!(error.message, "Column `a.c` not found in iceberg table schema");
}

#[test]
fn each_partition_reads_its_file() {
    let two = scan(Some(5), &["f1", "f2"]);
    let Ok(ScanPartition::File { task, limit }) = two.execute(1) else {
        panic!("a file to read");
    };
    assert_eq!(task.data_file_path, "f2");
    assert_eq!(&task.clone(), task);
    assert_eq!(limit, None, "with two partitions the limit is left to a plan above");
    let one = scan(Some(5), &["f1"]);
    let Ok(ScanPartition::File { limit, .. }) = one.execute(0) else {
        panic!("a file to read");
    };
    assert_eq!(limit, Some(5));
}

#[test]
fn a_scan_without_files_has_one_empty_partition() {
    let empty = scan(None, &[]);
    assert_eq!(empty.properties().partitions, 1);
    assert!(matches!(empty.execute(0), Ok(ScanPartition::Empty)));
    let Err(error) = empty.execute(12) else {
        panic!("there is no such partition");
    };
    assert_eq!(error.kind, ErrorKind::Execution);
    assert_eq!(error.message, "IcebergTableScan: requested partition 12 but scan is empty");
}

#[test]
fn every_declared_partition_can_be_executed() {
    for files in [&[][..], &["f1"][..], &["f1", "f2", "f3"][..]] {
        let scan = scan(Some(2), files);
        assert!(scan.properties().partitions > 0);
        for partition in 0..scan.properties().partitions {
            assert!(scan.execute(partition).is_ok());
        }
    }
}

#[test]
fn scans_are_displayed_with_what_they_read() {
    assert_eq!(
        scan(None, &[]).fmt_as(),
        "IcebergTableScan projection:[] predicate:[x > 3]"
    );
    let narrowed = scan(Some(1050), &["f"])
        .with_nested_projection(vec!["a.b".to_string(), "x".to_string()], columns())
        .unwrap();
    assert_eq!(
        narrowed.fmt_as(),
        "IcebergTableScan projection:[a.b,x] predicate:[x > 3] limit:[1050]"
    );
}

#[test]
fn a_limit_returns_the_first_rows() {
    let mut limit = RowLimit::new(7);
    assert_eq!(limit.take_rows(3), Some(3));
    assert_eq!(limit.take_rows(0), Some(0));
    assert_eq!(limit.take_rows(9), Some(4));
    assert_eq!(limit.take_rows(1), None);
    assert_eq!(limit.remaining, 0);
    let mut exact = RowLimit::new(3);
    assert_eq!(exact.take_rows(3), Some(3));
    assert_eq!(exact.take_rows(3), None);
    assert_eq!(RowLimit::new(0).take_rows(5), None);
    for n in 0..20 {
        let mut limit = RowLimit::new(n);
        let returned: usize =
            [4, 0, 5, 3].into_iter().map(|rows| limit.take_rows(rows).unwrap_or(0)).sum();
        assert_eq!(returned, n.min(12));
    }
}
