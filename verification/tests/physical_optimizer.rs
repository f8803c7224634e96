use std::sync::Arc;

use iceberg_planner::arrow::metadata::Metadata;
use iceberg_planner::arrow::schema::{ArrowSchema, DataType, Field, LeafType};
use iceberg_planner::arrow::timestamp_tz::PARQUET_FIELD_ID_META_KEY;
use iceberg_planner::error::ErrorKind;
use iceberg_planner::physical_expr::{
    access_field, move_columns, Column, PhysicalExpr, ScalarFunctionExpr, ScalarValue,
};
use iceberg_planner::physical_optimizer::get_field_chain::extract_get_field_chain;
use iceberg_planner::physical_optimizer::narrowing::narrow_field;
use iceberg_planner::physical_optimizer::nested_field_projection::{
    find_iceberg_scan, try_rewrite, NestedFieldProjectionPushdown, ScanWrapper,
};
use iceberg_planner::physical_plan::plan::{ExecutionPlan, ProjectionExec, ProjectionExpr};
use iceberg_planner::physical_plan::scan::{FileScanTask, IcebergTableScan};
use iceberg_planner::table::metadata::{Table, TableMetadata};
use iceberg_planner::table::schema::{NestedField, PrimitiveType, Schema, Type};

fn leaf(leaf: LeafType) -> DataType {
    DataType::Leaf(leaf)
}

fn field_with_id(name: &str, data_type: DataType, id: u32) -> Field {
    Field::new(name, data_type, true).with_metadata(Metadata::from_entries(vec![(
        PARQUET_FIELD_ID_META_KEY.to_string(),
        id.to_string(),
    )]))
}

/// Schema with a nested struct:
/// ```text
/// outer: struct {
///   a: int,
///   b: struct {
///     c: bigint,
///     d: string,
///   },
/// }
/// ```
fn nested_arrow_schema() -> ArrowSchema {
    let inner = Arc::new(vec![
        Arc::new(field_with_id("c", leaf(LeafType::Int64), 7)),
        Arc::new(field_with_id("d", leaf(LeafType::Utf8), 8)),
    ]);
    let outer_children = Arc::new(vec![
        Arc::new(field_with_id("a", leaf(LeafType::Int32), 5)),
        Arc::new(field_with_id("b", DataType::Struct(inner), 6)),
    ]);
    ArrowSchema::new(vec![Arc::new(field_with_id("outer", DataType::Struct(outer_children), 10))])
}

fn path(segments: &[&str]) -> Vec<String> {
    segments.iter().map(|segment| segment.to_string()).collect()
}

fn children(field: &Field) -> &Vec<Arc<Field>> {
    let DataType::Struct(children) = &field.data_type else {
        panic!("{} should be a struct", field.name);
    };
    children
}

fn child_names(field: &Field) -> Vec<&str> {
    children(field).iter().map(|child| child.name.as_str()).collect()
}

#[test]
fn narrow_field_keeps_only_requested_paths() {
    let schema = nested_arrow_schema();
    let outer = &schema.fields[0];
    let paths = vec![vec!["b".to_string(), "c".to_string()]];
    let narrowed = narrow_field(outer, &paths).unwrap();
    let DataType::Struct(top_children) = &narrowed.data_type else {
        panic!("outer should still be a struct");
    };
    assert_eq!(top_children.len(), 1, "only `b` should survive");
    let b = &top_children[0];
    assert_eq!(b.name, "b");
    let DataType::Struct(b_children) = &b.data_type else {
        panic!("b should still be a struct");
    };
    assert_eq!(b_children.len(), 1, "only `b.c` should survive under `b`");
    assert_eq!(b_children[0].name, "c");
}

#[test]
fn narrow_field_unions_sibling_paths() {
    let schema = nested_arrow_schema();
    let outer = &schema.fields[0];
    let paths = vec![
        vec!["b".to_string(), "c".to_string()],
        vec!["b".to_string(), "d".to_string()],
    ];
    let narrowed = narrow_field(outer, &paths).unwrap();
    let DataType::Struct(top_children) = &narrowed.data_type else {
        panic!();
    };
    assert_eq!(top_children.len(), 1);
    let DataType::Struct(b_children) = &top_children[0].data_type else {
        panic!();
    };
    let names: Vec<&str> = b_children.iter().map(|f| f.name.as_str()).collect();
    assert_eq!(names, vec!["c", "d"]);
}

fn column(name: &str, index: usize) -> Arc<PhysicalExpr> {
    Arc::new(PhysicalExpr::Column(Column::new(name, index)))
}

fn name_literal(name: &str) -> Arc<PhysicalExpr> {
    Arc::new(PhysicalExpr::Literal(ScalarValue::Utf8(Some(name.to_string()))))
}

fn call(name: &str, args: Vec<Arc<PhysicalExpr>>, return_field: Field) -> Arc<PhysicalExpr> {
    Arc::new(PhysicalExpr::ScalarFunction(ScalarFunctionExpr {
        name: name.to_string(),
        args,
        return_field: Arc::new(return_field),
    }))
}

/// A `get_field` call inside a `get_field` call for each segment of a path.
fn build_get_field_chain(
    input_schema: &ArrowSchema,
    col_name: &str,
    segments: &[&str],
) -> Arc<PhysicalExpr> {
    let index = input_schema.column_with_name(col_name).unwrap();
    let mut expr = column(col_name, index);
    let mut field: Field = (*input_schema.fields[index]).clone();
    for segment in segments {
        field = access_field(&field, &path(&[segment]), 0).unwrap();
        expr = call("get_field", vec![expr, name_literal(segment)], field.clone());
    }
    expr
}

#[test]
fn extract_chain_recovers_path_from_nested_get_field_calls() {
    let schema = nested_arrow_schema();
    let expr = build_get_field_chain(&schema, "outer", &["b", "c"]);
    let (column, path) = extract_get_field_chain(&expr).expect("chain should be recognized");
    assert_eq!(column.name(), "outer");
    assert_eq!(column.index(), 0);
    assert_eq!(path, vec!["b".to_string(), "c".to_string()]);
}

#[test]
fn extract_chain_handles_variadic_form() {
    let args = vec![column("outer", 0), name_literal("b"), name_literal("c")];
    let expr = call("get_field", args, Field::new("ignored", leaf(LeafType::Int64), true));
    let (col, path) = extract_get_field_chain(&expr).expect("variadic chain recognized");
    assert_eq!(col.name(), "outer");
    assert_eq!(path, vec!["b".to_string(), "c".to_string()]);
}

#[test]
fn extract_chain_rejects_bare_column() {
    let column = column("outer", 0);
    let (col, path) = extract_get_field_chain(&column).unwrap();
    assert_eq!(col.name(), "outer");
    assert!(path.is_empty());
}

fn empty_exec(schema: ArrowSchema) -> Arc<ExecutionPlan> {
    Arc::new(ExecutionPlan::Other { name: "EmptyExec".to_string(), schema, children: vec![] })
}

fn project(
    exprs: Vec<(Arc<PhysicalExpr>, &str)>,
    input: Arc<ExecutionPlan>,
) -> Arc<ExecutionPlan> {
    let exprs = exprs
        .into_iter()
        .map(|(expr, alias)| ProjectionExpr { expr, alias: alias.to_string() })
        .collect();
    Arc::new(ExecutionPlan::Projection(ProjectionExec::new(exprs, input).unwrap()))
}

#[test]
fn rule_leaves_unrelated_plans_alone() {
    // A projection over a plan that is no scan must be returned unchanged by the rule.
    let projection = project(vec![(column("outer", 0), "outer")], empty_exec(nested_arrow_schema()));
    let rule = NestedFieldProjectionPushdown;
    let optimized = rule.optimize(projection.clone()).unwrap();
    assert!(Arc::ptr_eq(&projection, &optimized));
}

#[test]
fn coalesce_partitions_is_not_an_iceberg_scan_wrapper() {
    let wrapped = Arc::new(ExecutionPlan::Other {
        name: "CoalescePartitionsExec".to_string(),
        schema: nested_arrow_schema(),
        children: vec![empty_exec(nested_arrow_schema())],
    });
    assert!(find_iceberg_scan(&wrapped).is_none());
}

fn nested_table() -> Table {
    // outer: struct<a: int, b: struct<c: bigint, d: string>>
    let inner = Type::Struct(vec![
        Arc::new(NestedField::optional(7, "c", Type::Primitive(PrimitiveType::Long))),
        Arc::new(NestedField::optional(8, "d", Type::Primitive(PrimitiveType::Text))),
    ]);
    let outer_struct = Type::Struct(vec![
        Arc::new(NestedField::optional(5, "a", Type::Primitive(PrimitiveType::Int))),
        Arc::new(NestedField::optional(6, "b", inner)),
    ]);
    let schema = Schema::new(0, vec![Arc::new(NestedField::optional(10, "outer", outer_struct))]);
    Table {
        identifier: "ns.t".to_string(),
        metadata: Arc::new(TableMetadata { current_schema: schema, default_partition_spec_id: 0 }),
    }
}

fn empty_nested_iceberg_scan() -> IcebergTableScan {
    IcebergTableScan::try_new(
        nested_table(),
        None,
        &nested_arrow_schema(),
        None,
        None,
        None,
        Ok(vec![]),
    )
    .unwrap()
}

fn scan_plan(scan: IcebergTableScan) -> Arc<ExecutionPlan> {
    Arc::new(ExecutionPlan::IcebergScan(Arc::new(scan)))
}

fn as_projection(plan: &ExecutionPlan) -> &ProjectionExec {
    match plan {
        ExecutionPlan::Projection(projection) => projection,
        _ => panic!("should be a projection"),
    }
}

fn as_scan(plan: &ExecutionPlan) -> &IcebergTableScan {
    match plan {
        ExecutionPlan::IcebergScan(scan) => scan,
        _ => panic!("should be a scan"),
    }
}

#[test]
fn rule_rewrites_scan_to_dotted_path() {
    let scan = empty_nested_iceberg_scan();
    let leaf = build_get_field_chain(scan.schema(), "outer", &["b", "c"]);
    let projection = project(vec![(leaf, "leaf")], scan_plan(scan));

    let optimized = NestedFieldProjectionPushdown.optimize(projection).unwrap();

    // The new plan should still be a projection; its child must be the rewritten scan with
    // `outer.b.c` in its projection().
    let new_proj = as_projection(&optimized);
    let new_scan = as_scan(new_proj.input());
    let paths = new_scan.projection().expect("projection set after rewrite");
    assert_eq!(paths, ["outer.b.c"], "scan should select only the leaf");
}

#[test]
fn rule_walks_through_cooperative_wrapper() {
    let scan = empty_nested_iceberg_scan();
    let leaf = build_get_field_chain(scan.schema(), "outer", &["b", "d"]);
    let coop = Arc::new(ExecutionPlan::Cooperative(scan_plan(scan)));
    let projection = project(vec![(leaf, "leaf")], coop);

    let optimized = NestedFieldProjectionPushdown.optimize(projection).unwrap();

    let new_proj = as_projection(&optimized);
    let ExecutionPlan::Cooperative(inner) = &**new_proj.input() else {
        panic!("CooperativeExec wrapper re-attached");
    };
    let paths = as_scan(inner).projection().unwrap();
    assert_eq!(paths, ["outer.b.d"]);
}

#[test]
fn rule_skips_when_any_expression_is_bare_column() {
    let scan = empty_nested_iceberg_scan();
    let leaf = build_get_field_chain(scan.schema(), "outer", &["b", "c"]);
    let bare = column("outer", 0);
    let projection = project(vec![(leaf, "leaf"), (bare, "outer")], scan_plan(scan));

    let optimized = NestedFieldProjectionPushdown.optimize(projection).unwrap();
    let new_scan = as_scan(as_projection(&optimized).input());
    // No narrowing happened — projection stays None (all top-level columns).
    assert!(
        new_scan.projection().is_none(),
        "scan should not have been narrowed when a bare column is present"
    );
}

#[test]
fn rule_combines_multiple_paths_from_same_column() {
    let scan = empty_nested_iceberg_scan();
    let c = build_get_field_chain(scan.schema(), "outer", &["b", "c"]);
    let d = build_get_field_chain(scan.schema(), "outer", &["b", "d"]);
    let projection = project(vec![(c, "c"), (d, "d")], scan_plan(scan));

    let optimized = NestedFieldProjectionPushdown.optimize(projection).unwrap();
    let new_scan = as_scan(as_projection(&optimized).input());
    let paths = new_scan.projection().unwrap();
    assert_eq!(paths, ["outer.b.c", "outer.b.d"]);
}

#[test]
fn narrowing_keeps_what_is_read_and_nothing_else() {
    let schema = nested_arrow_schema();
    let outer = &schema.fields[0];
    let narrowed = narrow_field(outer, &vec![path(&["b", "c"]), path(&["a"])]).unwrap();
    assert_eq!(child_names(&narrowed), ["a", "b"]);
    assert_eq!(child_names(&children(&narrowed)[1]), ["c"]);
    assert_eq!(narrowed.name, "outer");
    assert_eq!(narrowed.nullable, outer.nullable);
    assert_eq!(narrowed.metadata, outer.metadata);
    for p in [path(&["b", "c"]), path(&["a"])] {
        assert_eq!(access_field(&narrowed, &p, 0), access_field(outer, &p, 0));
    }
    assert!(access_field(&narrowed, &path(&["b", "d"]), 0).is_none());
    // The same again changes nothing.
    assert_eq!(
        narrow_field(&narrowed, &vec![path(&["b", "c"]), path(&["a"])]),
        Some(narrowed)
    );
}

#[test]
fn order_and_repetition_of_paths_make_no_difference() {
    let schema = nested_arrow_schema();
    let outer = &schema.fields[0];
    let once = narrow_field(outer, &vec![path(&["b", "c"]), path(&["a"])]);
    let again = vec![path(&["a"]), path(&["b", "c"]), path(&["a"]), path(&["b", "c"])];
    assert!(once.is_some());
    assert_eq!(narrow_field(outer, &again), once);
}

#[test]
fn a_path_to_a_struct_keeps_all_of_it() {
    let schema = nested_arrow_schema();
    let outer = &schema.fields[0];
    let narrowed = narrow_field(outer, &vec![path(&["b", "c"]), path(&["b"])]).unwrap();
    assert_eq!(child_names(&narrowed), ["b"]);
    assert_eq!(children(&narrowed)[0], children(outer)[1]);
    assert_eq!(narrow_field(outer, &vec![path(&[])]), Some((**outer).clone()));
}

#[test]
fn a_path_that_does_not_exist_cannot_be_narrowed_to() {
    let schema = nested_arrow_schema();
    let outer = &schema.fields[0];
    assert_eq!(narrow_field(outer, &vec![path(&["z"])]), None);
    assert_eq!(narrow_field(outer, &vec![path(&["b", "c"]), path(&["z"])]), None);
    assert_eq!(narrow_field(outer, &vec![path(&["b", "c"]), path(&["b", "z"])]), None);
    assert_eq!(narrow_field(outer, &vec![path(&["a", "c"])]), None);
    assert_eq!(narrow_field(outer, &vec![path(&[]), path(&["z"])]), None);
    assert_eq!(narrow_field(outer, &vec![]), None);
}

#[test]
fn other_expressions_are_no_chains() {
    let field = Field::new("f", leaf(LeafType::Int64), true);
    let one_arg = call("get_field", vec![column("outer", 0)], field.clone());
    assert!(extract_get_field_chain(&one_arg).is_none());
    let other_name = call("abs", vec![column("outer", 0), name_literal("b")], field.clone());
    assert!(extract_get_field_chain(&other_name).is_none());
    let computed = call("get_field", vec![column("outer", 0), column("k", 1)], field.clone());
    assert!(extract_get_field_chain(&computed).is_none());
    let null = Arc::new(PhysicalExpr::Literal(ScalarValue::Utf8(None)));
    assert!(extract_get_field_chain(&call("get_field", vec![column("outer", 0), null], field.clone()))
        .is_none());
    let number = Arc::new(PhysicalExpr::Literal(ScalarValue::Other {
        text: "1".to_string(),
        data_type: leaf(LeafType::Int64),
        is_null: false,
    }));
    assert!(extract_get_field_chain(&number).is_none());
    let rooted = call("get_field", vec![number, name_literal("b")], field.clone());
    assert!(extract_get_field_chain(&rooted).is_none());
    for value in [
        ScalarValue::LargeUtf8(Some("b".to_string())),
        ScalarValue::Utf8View(Some("b".to_string())),
    ] {
        let literal = Arc::new(PhysicalExpr::Literal(value));
        let expr = call("get_field", vec![column("outer", 0), literal], field.clone());
        assert_eq!(extract_get_field_chain(&expr).unwrap().1, path(&["b"]));
    }
}

#[test]
fn nested_and_flat_calls_are_the_same_chain() {
    let schema = nested_arrow_schema();
    let nested = build_get_field_chain(&schema, "outer", &["b", "c"]);
    let flat = ScalarFunctionExpr::try_get_field(
        &schema.fields,
        Column::new("outer", 0),
        &path(&["b", "c"]),
    )
    .unwrap();
    let flat = PhysicalExpr::ScalarFunction(flat);
    assert_eq!(extract_get_field_chain(&nested), extract_get_field_chain(&flat));
    assert!(ScalarFunctionExpr::try_get_field(
        &schema.fields,
        Column::new("outer", 0),
        &path(&["b", "z"])
    )
    .is_none());
}

fn task(path: &str) -> FileScanTask {
    FileScanTask {
        data_file_path: path.to_string(),
        start: 0,
        length: 10,
        record_count: None,
        predicate: None,
        deletes: Arc::new(vec![]),
        project_field_ids: vec![10],
    }
}

#[test]
fn a_narrowed_scan_reads_the_same_files() {
    let scan = IcebergTableScan::try_new(
        nested_table(),
        Some(3),
        &nested_arrow_schema(),
        None,
        None,
        Some(9),
        Ok(vec![task("f1"), task("f2")]),
    )
    .unwrap();
    let d = build_get_field_chain(scan.schema(), "outer", &["b", "d"]);
    let a = build_get_field_chain(scan.schema(), "outer", &["a"]);
    let projection = project(vec![(d, "d"), (a, "a")], scan_plan(scan));
    let before = projection.schema();

    let optimized = NestedFieldProjectionPushdown.optimize(projection).unwrap();
    assert_eq!(optimized.schema(), before);
    let scan = as_scan(as_projection(&optimized).input());
    assert_eq!(scan.projection().unwrap(), ["outer.b.d", "outer.a"]);
    assert_eq!(scan.snapshot_id(), Some(3));
    assert_eq!(scan.limit(), Some(9));
    assert_eq!(
        scan.file_scan_tasks(),
        [
            FileScanTask { project_field_ids: vec![8, 5], ..task("f1") },
            FileScanTask { project_field_ids: vec![8, 5], ..task("f2") },
        ]
    );
    assert_eq!(child_names(&scan.schema().fields[0]), ["a", "b"]);
    assert_eq!(child_names(&children(&scan.schema().fields[0])[1]), ["d"]);

    // A second pass finds nothing more to narrow.
    let again = NestedFieldProjectionPushdown.optimize(optimized.clone()).unwrap();
    assert_eq!(again, optimized);
}

#[test]
fn plans_deep_in_a_tree_are_rewritten() {
    let scan = empty_nested_iceberg_scan();
    let c = build_get_field_chain(scan.schema(), "outer", &["b", "c"]);
    let inner = project(vec![(c, "c")], scan_plan(scan));
    let outer = project(vec![(column("c", 0), "renamed")], inner);
    let plain = empty_exec(nested_arrow_schema());
    let tree = Arc::new(ExecutionPlan::Other {
        name: "UnionExec".to_string(),
        schema: outer.schema(),
        children: vec![plain.clone(), Arc::new(ExecutionPlan::Cooperative(outer))],
    });
    let optimized = NestedFieldProjectionPushdown.optimize(tree.clone()).unwrap();
    assert_eq!(optimized.schema(), tree.schema());
    let ExecutionPlan::Other { name, children, .. } = &*optimized else {
        panic!("the root stays");
    };
    assert_eq!(name, "UnionExec");
    assert!(Arc::ptr_eq(&children[0], &plain));
    let ExecutionPlan::Cooperative(below) = &*children[1] else {
        panic!("the wrapper stays");
    };
    let outer = as_projection(below);
    assert_eq!(outer.expr()[0].alias, "renamed");
    let scan = as_scan(as_projection(outer.input()).input());
    assert_eq!(scan.projection().unwrap(), ["outer.b.c"]);
}

fn two_column_schema() -> ArrowSchema {
    let mut fields = vec![Arc::new(field_with_id("x", leaf(LeafType::Int32), 1))];
    fields.push(nested_arrow_schema().fields[0].clone());
    let second = Field::new("second", nested_arrow_schema().fields[0].data_type.clone(), true);
    fields.push(Arc::new(second));
    ArrowSchema::new(fields)
}

fn two_column_scan() -> IcebergTableScan {
    let inner = |a: i32, b: i32, c: i32, d: i32| {
        let pair = Type::Struct(vec![
            Arc::new(NestedField::optional(c, "c", Type::Primitive(PrimitiveType::Long))),
            Arc::new(NestedField::optional(d, "d", Type::Primitive(PrimitiveType::Text))),
        ]);
        Type::Struct(vec![
            Arc::new(NestedField::optional(a, "a", Type::Primitive(PrimitiveType::Int))),
            Arc::new(NestedField::optional(b, "b", pair)),
        ])
    };
    let schema = Schema::new(
        0,
        vec![
            Arc::new(NestedField::optional(1, "x", Type::Primitive(PrimitiveType::Int))),
            Arc::new(NestedField::optional(10, "outer", inner(5, 6, 7, 8))),
            Arc::new(NestedField::optional(20, "second", inner(15, 16, 17, 18))),
        ],
    );
    let table = Table {
        identifier: "ns.t".to_string(),
        metadata: Arc::new(TableMetadata { current_schema: schema, default_partition_spec_id: 0 }),
    };
    IcebergTableScan::try_new(table, None, &two_column_schema(), None, None, None, Ok(vec![]))
        .unwrap()
}

/// The columns that the expressions of a projection read, as they are called in its input.
fn columns_read(projection: &ProjectionExec) -> Vec<(usize, String)> {
    let input = projection.input().schema();
    let columns = projection.expr().iter().map(|projected| {
        let (column, _) = extract_get_field_chain(&projected.expr).unwrap();
        assert_eq!(input.fields[column.index()].name, column.name());
        (column.index(), column.name().to_string())
    });
    columns.collect()
}

#[test]
fn columns_are_read_where_they_stand_in_the_narrowed_scan() {
    // Nothing is read of `x`, so `outer` and `second` move to the front.
    let scan = two_column_scan();
    let outer = build_get_field_chain(scan.schema(), "outer", &["a"]);
    let second = build_get_field_chain(scan.schema(), "second", &["b", "d"]);
    let projection = project(vec![(outer, "o"), (second, "s")], scan_plan(scan));
    let before = projection.schema();
    let optimized = NestedFieldProjectionPushdown.optimize(projection).unwrap();
    assert_eq!(optimized.schema(), before);
    let narrowed = as_projection(&optimized);
    assert_eq!(as_scan(narrowed.input()).projection().unwrap(), ["outer.a", "second.b.d"]);
    assert_eq!(columns_read(narrowed), [(0, "outer".to_string()), (1, "second".to_string())]);
    let aliases: Vec<&str> = narrowed.expr().iter().map(|e| e.alias.as_str()).collect();
    assert_eq!(aliases, ["o", "s"]);
    let (_, path) = extract_get_field_chain(&narrowed.expr()[1].expr).unwrap();
    assert_eq!(path, ["b", "d"]);
    assert_eq!(NestedFieldProjectionPushdown.optimize(optimized.clone()).unwrap(), optimized);
}

#[test]
fn a_column_behind_unread_ones_is_found_again() {
    // Nothing is read of `x` and `outer`, so `second` is the only column that is left.
    let scan = two_column_scan();
    let second = build_get_field_chain(scan.schema(), "second", &["a"]);
    let again = build_get_field_chain(scan.schema(), "second", &["b"]);
    let coop = Arc::new(ExecutionPlan::Cooperative(scan_plan(scan)));
    let projection = project(vec![(second, "s"), (again, "t")], coop);
    let rewritten = try_rewrite(projection.clone()).unwrap();
    assert!(rewritten.transformed);
    assert_eq!(rewritten.data.schema(), projection.schema());
    let narrowed = as_projection(&rewritten.data);
    assert_eq!(narrowed.input().schema().fields.len(), 1);
    assert_eq!(columns_read(narrowed), [(0, "second".to_string()), (0, "second".to_string())]);
}

#[test]
fn one_unread_column_before_a_read_one_is_left_out() {
    let columns = ArrowSchema::new(vec![
        Arc::new(Field::new("x", leaf(LeafType::Int32), true)),
        Arc::new(Field::new(
            "outer",
            DataType::Struct(Arc::new(vec![Arc::new(Field::new("b", leaf(LeafType::Int64), true))])),
            true,
        )),
    ]);
    let b = NestedField::optional(3, "b", Type::Primitive(PrimitiveType::Long));
    let schema = Schema::new(
        0,
        vec![
            Arc::new(NestedField::optional(1, "x", Type::Primitive(PrimitiveType::Int))),
            Arc::new(NestedField::optional(2, "outer", Type::Struct(vec![Arc::new(b)]))),
        ],
    );
    let table = Table {
        identifier: "ns.t".to_string(),
        metadata: Arc::new(TableMetadata { current_schema: schema, default_partition_spec_id: 0 }),
    };
    let scan =
        IcebergTableScan::try_new(table, None, &columns, None, None, None, Ok(vec![])).unwrap();
    let b = build_get_field_chain(scan.schema(), "outer", &["b"]);
    let rewritten = try_rewrite(project(vec![(b, "b")], scan_plan(scan))).unwrap();
    assert!(rewritten.transformed);
    assert_eq!(columns_read(as_projection(&rewritten.data)), [(0, "outer".to_string())]);
}

#[test]
fn first_columns_keep_their_positions() {
    let scan = empty_nested_iceberg_scan();
    let c = build_get_field_chain(scan.schema(), "outer", &["b", "c"]);
    let projection = project(vec![(c.clone(), "c")], scan_plan(scan));
    let rewritten = try_rewrite(projection).unwrap();
    assert_eq!(as_projection(&rewritten.data).expr()[0].expr, c);
}

#[test]
fn columns_move_wherever_they_stand_in_an_expression() {
    let field = Field::new("f", leaf(LeafType::Boolean), true);
    let expr = |a: usize, b: usize, c: usize| {
        let inner = call("abs", vec![column("a", a), name_literal("k")], field.clone());
        Arc::new(PhysicalExpr::Other {
            text: "between".to_string(),
            children: vec![inner, column("b", b), column("c", c)],
            return_field: Arc::new(field.clone()),
        })
    };
    assert_eq!(move_columns(&expr(0, 2, 3), &vec![5, 6, 1]), expr(5, 1, 3));
    assert_eq!(move_columns(&expr(0, 2, 1), &vec![0, 1, 2]), expr(0, 2, 1));
}

#[test]
fn projections_look_for_their_columns() {
    let exprs = |name: &str, index: usize| {
        vec![ProjectionExpr { expr: column(name, index), alias: "e".to_string() }]
    };
    let input = || empty_exec(two_column_schema());
    assert!(ProjectionExec::new(exprs("second", 2), input()).is_some());
    assert!(ProjectionExec::new(exprs("second", 3), input()).is_none());
    assert!(ProjectionExec::new(exprs("second", 0), input()).is_none());
    // Columns inside other expressions are looked for as well.
    let inside = |index: usize| {
        let expr = PhysicalExpr::Other {
            text: "second IS NULL".to_string(),
            children: vec![column("second", index)],
            return_field: Arc::new(Field::new("c", leaf(LeafType::Boolean), false)),
        };
        vec![ProjectionExpr { expr: Arc::new(expr), alias: "e".to_string() }]
    };
    assert!(ProjectionExec::new(inside(7), input()).is_none());
    assert!(ProjectionExec::new(inside(2), input()).is_some());
}

#[test]
fn one_plan_is_rewritten_without_its_inputs() {
    let scan = empty_nested_iceberg_scan();
    let c = build_get_field_chain(scan.schema(), "outer", &["b", "c"]);
    let inner = project(vec![(c, "c")], scan_plan(scan));
    let outer = project(vec![(column("c", 0), "renamed")], inner.clone());
    let unchanged = try_rewrite(outer.clone()).unwrap();
    assert!(!unchanged.transformed);
    assert!(Arc::ptr_eq(&unchanged.data, &outer));
    let changed = try_rewrite(inner).unwrap();
    assert!(changed.transformed);
    assert_eq!(
        as_scan(as_projection(&changed.data).input()).projection().unwrap(),
        ["outer.b.c"]
    );
}

#[test]
fn paths_are_asked_for_column_by_column() {
    let scan = two_column_scan();
    let d = build_get_field_chain(scan.schema(), "second", &["b", "d"]);
    let c = build_get_field_chain(scan.schema(), "outer", &["b", "c"]);
    let a = build_get_field_chain(scan.schema(), "second", &["a"]);
    let projection = project(vec![(d, "1"), (c, "2"), (a, "3")], scan_plan(scan));
    let rewritten = try_rewrite(projection).unwrap().data;
    let projection = as_projection(&rewritten);
    let narrowed = as_scan(projection.input());
    assert_eq!(narrowed.projection().unwrap(), ["outer.b.c", "second.b.d", "second.a"]);
    let names: Vec<&str> = narrowed.schema().fields.iter().map(|f| f.name.as_str()).collect();
    assert_eq!(names, ["outer", "second"]);
    let indices: Vec<usize> = columns_read(projection).into_iter().map(|(i, _)| i).collect();
    assert_eq!(indices, [1, 0, 1]);
}

#[test]
fn a_projection_of_nothing_is_left_alone() {
    let projection = project(vec![], scan_plan(two_column_scan()));
    let outcome = try_rewrite(projection.clone()).unwrap();
    assert!(!outcome.transformed);
    assert!(Arc::ptr_eq(&outcome.data, &projection));
}

#[test]
fn a_path_that_the_columns_lack_is_left_alone() {
    let field = Field::new("f", leaf(LeafType::Int32), true);
    let missing = call("get_field", vec![column("outer", 1), name_literal("z")], field);
    let projection = project(vec![(missing, "e")], scan_plan(two_column_scan()));
    assert!(!try_rewrite(projection).unwrap().transformed);
}

#[test]
fn a_path_that_the_table_lacks_is_an_error() {
    // The scan's columns have the field, the table's current schema does not.
    let schema = Schema::new(
        0,
        vec![Arc::new(NestedField::optional(10, "outer", Type::Struct(vec![])))],
    );
    let table = Table {
        identifier: "ns.t".to_string(),
        metadata: Arc::new(TableMetadata { current_schema: schema, default_partition_spec_id: 0 }),
    };
    let scan = IcebergTableScan::try_new(
        table,
        None,
        &nested_arrow_schema(),
        None,
        None,
        None,
        Ok(vec![]),
    )
    .unwrap();
    let leaf = build_get_field_chain(scan.schema(), "outer", &["b", "c"]);
    let projection = project(vec![(leaf, "leaf")], scan_plan(scan));
    let error = NestedFieldProjectionPushdown.optimize(projection).unwrap_err();
    assert_eq!(error.kind, ErrorKind::Plan);
    assert_eq!(error.message, "Column `outer.b.c` not found in iceberg table schema");
}

#[test]
fn scans_are_found_directly_or_below_one_wrapper() {
    let direct = scan_plan(empty_nested_iceberg_scan());
    let site = find_iceberg_scan(&direct).unwrap();
    assert_eq!(site.wrapper, ScanWrapper::Direct);
    let wrapped = Arc::new(ExecutionPlan::Cooperative(direct));
    let site = find_iceberg_scan(&wrapped).unwrap();
    assert_eq!(site.wrapper, ScanWrapper::Cooperative);
    assert_eq!(site.rewrap(scan_plan(empty_nested_iceberg_scan())), wrapped);
    let twice = Arc::new(ExecutionPlan::Cooperative(wrapped));
    assert!(find_iceberg_scan(&twice).is_none());
}

#[test]
fn the_rule_has_a_name_and_no_schema_check() {
    let rule = NestedFieldProjectionPushdown;
    assert_eq!(rule.name(), "iceberg_nested_field_projection_pushdown");
    assert!(!rule.schema_check());
}
