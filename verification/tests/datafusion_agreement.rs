//! Holds what the library says of expressions and projections against DataFusion.

use std::collections::HashMap;
use std::sync::Arc;

use datafusion::arrow::datatypes as df;
use datafusion::common::config::ConfigOptions;
use datafusion::common::ScalarValue as DfScalar;
use datafusion::physical_expr::expressions::{Column as DfColumn, Literal as DfLiteral};
use datafusion::physical_expr::{
    LexOrdering as DfLexOrdering, PhysicalExpr as DfExpr, PhysicalSortExpr as DfSortExpr,
    ScalarFunctionExpr as DfCall,
};
use datafusion::physical_plan::empty::EmptyExec;
use datafusion::physical_plan::projection::ProjectionExec as DfProjection;
use datafusion::physical_plan::ExecutionPlan as DfPlan;
use iceberg_planner::arrow::metadata::Metadata;
use iceberg_planner::arrow::schema::{ArrowSchema, DataType, Field, LeafType};
use iceberg_planner::physical_expr::{Column, PhysicalExpr, ScalarFunctionExpr, ScalarValue};
use iceberg_planner::physical_plan::ordering::{LexOrdering, PhysicalSortExpr, SortOptions};
use iceberg_planner::physical_plan::plan::{ExecutionPlan, ProjectionExec, ProjectionExpr};

fn df_type(data_type: &DataType) -> df::DataType {
    match data_type {
        DataType::Leaf(LeafType::Null) => df::DataType::Null,
        DataType::Leaf(LeafType::Int32) => df::DataType::Int32,
        DataType::Leaf(LeafType::Int64) => df::DataType::Int64,
        DataType::Leaf(LeafType::Utf8) => df::DataType::Utf8,
        DataType::List(element) => df::DataType::List(Arc::new(df_field(element))),
        DataType::Struct(children) => {
            df::DataType::Struct(children.iter().map(|child| Arc::new(df_field(child))).collect())
        }
        DataType::MapOf(entries, sorted) => df::DataType::Map(Arc::new(df_field(entries)), *sorted),
        other => panic!("{other:?} is not used here"),
    }
}

fn df_field(field: &Field) -> df::Field {
    let metadata: HashMap<String, String> = field.metadata.entries().iter().cloned().collect();
    df::Field::new(&field.name, df_type(&field.data_type), field.nullable).with_metadata(metadata)
}

fn df_schema(schema: &ArrowSchema) -> Arc<df::Schema> {
    let fields: Vec<df::Field> = schema.fields.iter().map(|field| df_field(field)).collect();
    let metadata: HashMap<String, String> = schema.metadata.entries().iter().cloned().collect();
    Arc::new(df::Schema::new_with_metadata(fields, metadata))
}

fn leaf(leaf: LeafType) -> DataType {
    DataType::Leaf(leaf)
}

fn structure(children: Vec<Field>) -> DataType {
    DataType::Struct(Arc::new(children.into_iter().map(Arc::new).collect()))
}

fn wide_schema() -> ArrowSchema {
    let tagged = Field::new("c", leaf(LeafType::Int64), false).with_metadata(
        Metadata::from_entries(vec![("id".to_string(), "7".to_string())]),
    );
    let entries = Field::new(
        "entries",
        structure(vec![
            Field::new("k", leaf(LeafType::Utf8), false),
            Field::new("v", structure(vec![tagged.clone()]), false),
        ]),
        false,
    );
    let odd_entries =
        Field::new("entries", structure(vec![Field::new("k", leaf(LeafType::Utf8), false)]), false);
    ArrowSchema::new_with_metadata(
        vec![
            Arc::new(Field::new("plain", structure(vec![tagged.clone()]), false)),
            Arc::new(Field::new(
                "deep",
                structure(vec![
                    Field::new("b", structure(vec![tagged.clone()]), false),
                    Field::new("b", leaf(LeafType::Int32), false),
                    Field::new("", leaf(LeafType::Int32), false),
                ]),
                true,
            )),
            Arc::new(Field::new("map", DataType::MapOf(Arc::new(entries), false), false)),
            Arc::new(Field::new("odd", DataType::MapOf(Arc::new(odd_entries), false), false)),
            Arc::new(Field::new("nothing", leaf(LeafType::Null), true)),
            Arc::new(Field::new("list", DataType::List(Arc::new(tagged)), false)),
            Arc::new(Field::new("number", leaf(LeafType::Int32), false)),
        ],
        Metadata::from_entries(vec![("s".to_string(), "t".to_string())]),
    )
}

fn segments(path: &[&str]) -> Vec<String> {
    path.iter().map(|segment| segment.to_string()).collect()
}

fn df_get_field(schema: &df::Schema, index: usize, path: &[&str]) -> Option<DfCall> {
    let mut args: Vec<Arc<dyn DfExpr>> =
        vec![Arc::new(DfColumn::new(schema.field(index).name(), index))];
    for segment in path {
        args.push(Arc::new(DfLiteral::new(DfScalar::Utf8(Some(segment.to_string())))));
    }
    let udf = datafusion::functions::core::get_field();
    DfCall::try_new(udf, args, schema, Arc::new(ConfigOptions::default())).ok()
}

#[test]
fn get_field_reads_the_same_fields() {
    let schema = wide_schema();
    let outside = df_schema(&schema);
    let paths: [&[&str]; 9] = [
        &["c"],
        &["b"],
        &["b", "c"],
        &["b", "z"],
        &[""],
        &["x", "c"],
        &["x"],
        &["x", "y", "z"],
        &["c", "c"],
    ];
    let mut accepted = 0;
    for index in 0..schema.fields.len() {
        for path in paths {
            let column = Column::new(&schema.fields[index].name, index);
            let ours = ScalarFunctionExpr::try_get_field(&schema.fields, column, &segments(path));
            let theirs = df_get_field(&outside, index, path);
            match (ours, theirs) {
                (Some(ours), Some(theirs)) => {
                    accepted += 1;
                    assert_eq!(ours.name, theirs.name());
                    assert_eq!(ours.args.len(), theirs.args().len());
                    let field = theirs.return_field(&outside).unwrap();
                    assert_eq!(df_field(&ours.return_field), *field, "{index} {path:?}");
                }
                (None, None) => {}
                (ours, theirs) => panic!("{index} {path:?}: {ours:?} {theirs:?}"),
            }
        }
    }
    assert!(accepted > 15);
}

fn column(name: &str, index: usize) -> Arc<PhysicalExpr> {
    Arc::new(PhysicalExpr::Column(Column::new(name, index)))
}

fn get_field(schema: &ArrowSchema, index: usize, path: &[&str]) -> Arc<PhysicalExpr> {
    let column = Column::new(&schema.fields[index].name, index);
    let call = ScalarFunctionExpr::try_get_field(&schema.fields, column, &segments(path)).unwrap();
    Arc::new(PhysicalExpr::ScalarFunction(call))
}

fn input(schema: ArrowSchema) -> Arc<ExecutionPlan> {
    Arc::new(ExecutionPlan::Other { name: "EmptyExec".to_string(), schema, children: vec![] })
}

#[test]
fn projections_return_the_same_columns() {
    let schema = wide_schema();
    let outside = df_schema(&schema);
    let literal = PhysicalExpr::Literal(ScalarValue::Utf8(Some("q".to_string())));
    let null = PhysicalExpr::Literal(ScalarValue::Utf8(None));
    let ours = ProjectionExec::new(
        vec![
            ProjectionExpr { expr: column("deep", 1), alias: "renamed".to_string() },
            ProjectionExpr { expr: get_field(&schema, 1, &["b", "c"]), alias: "leaf".to_string() },
            ProjectionExpr { expr: Arc::new(literal), alias: "text".to_string() },
            ProjectionExpr { expr: Arc::new(null), alias: "null".to_string() },
        ],
        input(schema),
    )
    .unwrap();
    let theirs: Vec<(Arc<dyn DfExpr>, String)> = vec![
        (Arc::new(DfColumn::new("deep", 1)), "renamed".to_string()),
        (Arc::new(df_get_field(&outside, 1, &["b", "c"]).unwrap()), "leaf".to_string()),
        (Arc::new(DfLiteral::new(DfScalar::Utf8(Some("q".to_string())))), "text".to_string()),
        (Arc::new(DfLiteral::new(DfScalar::Utf8(None))), "null".to_string()),
    ];
    let theirs = DfProjection::try_new(theirs, Arc::new(EmptyExec::new(outside))).unwrap();
    let ours = ExecutionPlan::Projection(ours);
    assert_eq!(df_schema(&ours.schema()), theirs.schema());
}

#[test]
fn columns_under_other_names_are_refused_alike() {
    let schema = wide_schema();
    let outside = df_schema(&schema);
    let ours = ProjectionExec::new(
        vec![
            ProjectionExpr { expr: get_field(&schema, 0, &["c"]), alias: "ok".to_string() },
            ProjectionExpr { expr: column("other", 2), alias: "bad".to_string() },
        ],
        input(schema),
    );
    let theirs: Vec<(Arc<dyn DfExpr>, String)> = vec![
        (Arc::new(df_get_field(&outside, 0, &["c"]).unwrap()), "ok".to_string()),
        (Arc::new(DfColumn::new("other", 2)), "bad".to_string()),
    ];
    let theirs = DfProjection::try_new(theirs, Arc::new(EmptyExec::new(outside)));
    assert!(ours.is_none() && theirs.is_err());
}

#[test]
fn orderings_leave_out_the_same_repeats() {
    let schema = wide_schema();
    let outside = df_schema(&schema);
    let up = SortOptions { descending: false, nulls_first: true };
    let down = SortOptions { descending: true, nulls_first: false };
    let ours = LexOrdering::new(vec![
        PhysicalSortExpr { expr: column("number", 6), options: up },
        PhysicalSortExpr { expr: get_field(&schema, 1, &["b", "c"]), options: down },
        PhysicalSortExpr { expr: column("number", 6), options: down },
        PhysicalSortExpr { expr: column("number", 5), options: up },
        PhysicalSortExpr { expr: get_field(&schema, 1, &["b", "c"]), options: up },
        PhysicalSortExpr { expr: get_field(&schema, 0, &["c"]), options: up },
    ])
    .unwrap();
    let df_up = datafusion::arrow::compute::SortOptions { descending: false, nulls_first: true };
    let df_down = datafusion::arrow::compute::SortOptions { descending: true, nulls_first: false };
    let deep = || Arc::new(df_get_field(&outside, 1, &["b", "c"]).unwrap());
    let theirs = DfLexOrdering::new(vec![
        DfSortExpr { expr: Arc::new(DfColumn::new("number", 6)), options: df_up },
        DfSortExpr { expr: deep(), options: df_down },
        DfSortExpr { expr: Arc::new(DfColumn::new("number", 6)), options: df_down },
        DfSortExpr { expr: Arc::new(DfColumn::new("number", 5)), options: df_up },
        DfSortExpr { expr: deep(), options: df_up },
        DfSortExpr {
            expr: Arc::new(df_get_field(&outside, 0, &["c"]).unwrap()),
            options: df_up,
        },
    ])
    .unwrap();
    assert_eq!(ours.len(), theirs.len());
    for (a, b) in ours.exprs().iter().zip(theirs.iter()) {
        assert_eq!(a.options.descending, b.options.descending);
        assert_eq!(a.options.nulls_first, b.options.nulls_first);
    }
    assert_eq!(ours.len(), 4);
}
