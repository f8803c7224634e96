use std::sync::Arc;

use iceberg_planner::arrow::schema::{ArrowSchema, DataType, Field, LeafType, TimeUnit};
use iceberg_planner::physical_expr::{PhysicalExpr, ScalarValue};
use iceberg_planner::physical_optimizer::get_field_chain::extract_get_field_chain;
use iceberg_planner::physical_plan::ordering::LexOrdering;
use iceberg_planner::physical_plan::read_sort_order::translate_sort_order;
use iceberg_planner::table::partition::Transform;
use iceberg_planner::table::schema::{NestedField, PrimitiveType, Schema, Type};
use iceberg_planner::table::sort_order::{NullOrder, SortDirection, SortField, SortOrder};

fn int64() -> DataType {
    DataType::Leaf(LeafType::Int64)
}

fn id_and_ts_schema() -> Schema {
    Schema::new(
        0,
        vec![
            Arc::new(NestedField::required(1, "id", Type::Primitive(PrimitiveType::Long))),
            Arc::new(NestedField::required(2, "ts", Type::Primitive(PrimitiveType::TimestamptzNs))),
        ],
    )
}

fn id_and_ts_columns() -> ArrowSchema {
    ArrowSchema::new(vec![
        Arc::new(Field::new("id", int64(), false)),
        Arc::new(Field::new("ts", DataType::Timestamp(TimeUnit::Nanosecond, None), false)),
    ])
}

fn ascending(source_id: i32, transform: Transform) -> SortField {
    SortField {
        source_id,
        transform,
        direction: SortDirection::Ascending,
        null_order: NullOrder::Last,
    }
}

fn column_names(ordering: &LexOrdering) -> Vec<&str> {
    ordering
        .exprs()
        .iter()
        .map(|key| match &*key.expr {
            PhysicalExpr::Column(column) => column.name(),
            _ => "",
        })
        .collect()
}

#[test]
fn unsorted_order_yields_none() {
    let schema = Schema::new(
        0,
        vec![Arc::new(NestedField::required(1, "id", Type::Primitive(PrimitiveType::Long)))],
    );
    let arrow = ArrowSchema::new(vec![Arc::new(Field::new("id", int64(), false))]);
    assert!(translate_sort_order(&SortOrder::unsorted_order(), &schema, &arrow).is_none());
}

#[test]
fn top_level_identity_sort_produces_column_ordering() {
    let schema = id_and_ts_schema();
    let arrow = id_and_ts_columns();

    let order = SortOrder {
        order_id: 1,
        fields: vec![
            SortField {
                source_id: 1,
                transform: Transform::Identity,
                direction: SortDirection::Ascending,
                null_order: NullOrder::Last,
            },
            SortField {
                source_id: 2,
                transform: Transform::Identity,
                direction: SortDirection::Descending,
                null_order: NullOrder::First,
            },
        ],
    };

    let lex = translate_sort_order(&order, &schema, &arrow).unwrap();
    assert_eq!(lex.len(), 2);

    let first = &lex.exprs()[0];
    let PhysicalExpr::Column(col) = &*first.expr else {
        panic!("a top-level field is a column");
    };
    assert_eq!(col.name(), "id");
    assert_eq!(col.index(), 0);
    assert!(!first.options.descending);
    assert!(!first.options.nulls_first);

    let second = &lex.exprs()[1];
    let PhysicalExpr::Column(col) = &*second.expr else {
        panic!("a top-level field is a column");
    };
    assert_eq!(col.name(), "ts");
    assert!(second.options.descending);
    assert!(second.options.nulls_first);
}

#[test]
fn non_identity_transform_truncates_prefix() {
    let schema = id_and_ts_schema();
    let arrow = id_and_ts_columns();

    // `days(ts)` is a partition transform, not an in-file ordering. It appears AFTER an identity
    // prefix on `id`, so the translator should yield just the `id` ordering.
    let order = SortOrder {
        order_id: 1,
        fields: vec![ascending(1, Transform::Identity), ascending(2, Transform::Day)],
    };

    let lex = translate_sort_order(&order, &schema, &arrow).unwrap();
    assert_eq!(lex.len(), 1, "only the identity prefix survives");
}

fn payload_schema() -> Schema {
    let payload = NestedField::required(
        1,
        "payload",
        Type::Struct(vec![Arc::new(NestedField::required(
            2,
            "user_uid",
            Type::Primitive(PrimitiveType::Long),
        ))]),
    );
    Schema::new(0, vec![Arc::new(payload)])
}

#[test]
fn nested_leaf_sort_produces_get_field_expr() {
    // Build a schema with `payload: struct { user_uid: long }`. The sort key references the nested
    // leaf by its field id.
    let schema = payload_schema();
    let arrow = ArrowSchema::new(vec![Arc::new(Field::new(
        "payload",
        DataType::Struct(Arc::new(vec![Arc::new(Field::new("user_uid", int64(), false))])),
        false,
    ))]);

    let order = SortOrder { order_id: 1, fields: vec![ascending(2, Transform::Identity)] };

    let lex = translate_sort_order(&order, &schema, &arrow).unwrap();
    assert_eq!(lex.len(), 1);

    let PhysicalExpr::ScalarFunction(sf) = &*lex.exprs()[0].expr else {
        panic!("nested access must be a ScalarFunctionExpr");
    };
    assert_eq!(sf.name, "get_field");

    let args = &sf.args;
    assert_eq!(args.len(), 2);
    let PhysicalExpr::Column(base) = &*args[0] else {
        panic!("the call starts at a column");
    };
    assert_eq!(base.name(), "payload");
    let PhysicalExpr::Literal(path) = &*args[1] else {
        panic!("the call goes on through names");
    };
    assert_eq!(path, &ScalarValue::Utf8(Some("user_uid".to_string())));
    assert_eq!(*sf.return_field, Field::new("user_uid", int64(), false));
}

fn dotted_schema() -> Schema {
    let inner = Type::Struct(vec![
        Arc::new(NestedField::required(3, "b", Type::Primitive(PrimitiveType::Long))),
        Arc::new(NestedField::required(4, "c.d", Type::Primitive(PrimitiveType::Long))),
    ]);
    Schema::new(
        0,
        vec![
            Arc::new(NestedField::required(1, "a.b", Type::Primitive(PrimitiveType::Long))),
            Arc::new(NestedField::required(2, "a", inner)),
        ],
    )
}

#[test]
fn a_top_level_field_is_a_column_whatever_its_name_is() {
    let order = SortOrder { order_id: 1, fields: vec![ascending(1, Transform::Identity)] };
    let alone = Schema::new(
        0,
        vec![Arc::new(NestedField::required(1, "a.b", Type::Primitive(PrimitiveType::Long)))],
    );
    let arrow = ArrowSchema::new(vec![Arc::new(Field::new("a.b", int64(), false))]);
    let lex = translate_sort_order(&order, &alone, &arrow).unwrap();
    let PhysicalExpr::Column(column) = &*lex.exprs()[0].expr else {
        panic!("a top-level field is a column");
    };
    assert_eq!((column.name(), column.index()), ("a.b", 0));

    // A nested field with the same dotted name is another one.
    let inner = vec![
        Arc::new(Field::new("b", int64(), false)),
        Arc::new(Field::new("c.d", int64(), false)),
    ];
    let arrow = ArrowSchema::new(vec![
        Arc::new(Field::new("a", DataType::Struct(Arc::new(inner)), false)),
        Arc::new(Field::new("a.b", int64(), false)),
    ]);
    let order = SortOrder {
        order_id: 1,
        fields: vec![
            ascending(1, Transform::Identity),
            ascending(3, Transform::Identity),
            ascending(4, Transform::Identity),
        ],
    };
    let lex = translate_sort_order(&order, &dotted_schema(), &arrow).unwrap();
    assert_eq!(lex.len(), 3);
    assert_eq!(column_names(&lex), ["a.b", "", ""]);
    for (key, name) in [(1, "b"), (2, "c.d")] {
        let PhysicalExpr::ScalarFunction(call) = &*lex.exprs()[key].expr else {
            panic!("a nested field is read by a call");
        };
        let PhysicalExpr::Literal(literal) = &*call.args[1] else {
            panic!("the call goes on through names");
        };
        assert_eq!(call.args.len(), 2);
        assert_eq!(literal, &ScalarValue::Utf8(Some(name.to_string())));
    }
}

#[test]
fn sort_expressions_lead_back_to_their_fields() {
    let schema = payload_schema();
    let arrow = ArrowSchema::new(vec![
        Arc::new(Field::new("first", int64(), false)),
        Arc::new(Field::new(
            "payload",
            DataType::Struct(Arc::new(vec![Arc::new(Field::new("user_uid", int64(), false))])),
            false,
        )),
    ]);
    for id in [1, 2] {
        let order = SortOrder { order_id: 1, fields: vec![ascending(id, Transform::Identity)] };
        let lex = translate_sort_order(&order, &schema, &arrow).unwrap();
        let (column, rest) = extract_get_field_chain(&lex.exprs()[0].expr).unwrap();
        let mut path = vec![column.name().to_string()];
        path.extend(rest);
        assert_eq!(path, schema.field_by_id(id).unwrap().path);
        assert_eq!(column.index(), 1);
    }
}

#[test]
fn fields_are_found_by_id_with_their_paths() {
    let schema = dotted_schema();
    let found = |id: i32| {
        let field = schema.field_by_id(id).unwrap();
        (field.name.as_str(), field.path.iter().map(|name| name.as_str()).collect::<Vec<_>>())
    };
    assert_eq!(found(1), ("a.b", vec!["a.b"]));
    assert_eq!(found(2), ("a", vec!["a"]));
    assert_eq!(found(3), ("a.b", vec!["a", "b"]));
    assert_eq!(found(4), ("a.c.d", vec!["a", "c.d"]));
    assert!(schema.field_by_id(5).is_none());
    assert_eq!(schema.field_id_by_name("a.c.d"), Some(4));
}

#[test]
fn each_usable_field_gives_one_key() {
    let schema = id_and_ts_schema();
    let arrow = id_and_ts_columns();
    let fields = vec![
        ascending(2, Transform::Identity),
        SortField { direction: SortDirection::Descending, ..ascending(1, Transform::Identity) },
        ascending(9, Transform::Identity),
    ];
    let translate = |count: usize| {
        let order = SortOrder { order_id: 1, fields: fields[..count].to_vec() };
        translate_sort_order(&order, &schema, &arrow)
    };
    assert!(translate(0).is_none());
    assert_eq!(column_names(&translate(1).unwrap()), ["ts"]);
    assert_eq!(column_names(&translate(2).unwrap()), ["ts", "id"]);
    assert_eq!(translate(3), translate(2));
    let lex = translate(3).unwrap();
    assert_eq!(lex.exprs()[0], translate(1).unwrap().exprs()[0]);
    assert!(lex.exprs()[1].options.descending && !lex.exprs()[1].options.nulls_first);
}

#[test]
fn fields_that_the_columns_do_not_hold_end_the_prefix() {
    let schema = id_and_ts_schema();
    let order = SortOrder {
        order_id: 1,
        fields: vec![ascending(2, Transform::Identity), ascending(1, Transform::Identity)],
    };
    // `id` is not projected: the prefix ends behind `ts`.
    let only_ts = ArrowSchema::new(vec![Arc::new(Field::new(
        "ts",
        DataType::Timestamp(TimeUnit::Nanosecond, None),
        false,
    ))]);
    let lex = translate_sort_order(&order, &schema, &only_ts).unwrap();
    assert_eq!(column_names(&lex), ["ts"]);
    // `ts` is not projected: there is no prefix.
    let only_id = ArrowSchema::new(vec![Arc::new(Field::new("id", int64(), false))]);
    assert!(translate_sort_order(&order, &schema, &only_id).is_none());
    // An id that the table does not have.
    let unknown = SortOrder { order_id: 1, fields: vec![ascending(9, Transform::Identity)] };
    assert!(translate_sort_order(&unknown, &schema, &id_and_ts_columns()).is_none());
    // The nested field is gone from its struct.
    let narrowed = ArrowSchema::new(vec![Arc::new(Field::new(
        "payload",
        DataType::Struct(Arc::new(vec![Arc::new(Field::new("other", int64(), false))])),
        false,
    ))]);
    let nested = SortOrder { order_id: 1, fields: vec![ascending(2, Transform::Identity)] };
    assert!(translate_sort_order(&nested, &payload_schema(), &narrowed).is_none());
}

#[test]
fn what_stands_behind_an_unusable_field_does_not_matter() {
    let schema = id_and_ts_schema();
    let arrow = id_and_ts_columns();
    let order = SortOrder {
        order_id: 1,
        fields: vec![
            ascending(2, Transform::Identity),
            ascending(1, Transform::Bucket(4)),
            ascending(1, Transform::Identity),
        ],
    };
    assert_eq!(column_names(&translate_sort_order(&order, &schema, &arrow).unwrap()), ["ts"]);
    let first = SortOrder {
        order_id: 1,
        fields: vec![ascending(1, Transform::Hour), ascending(1, Transform::Identity)],
    };
    assert!(translate_sort_order(&first, &schema, &arrow).is_none());
}

#[test]
fn a_repeated_field_is_left_out() {
    let schema = id_and_ts_schema();
    let arrow = id_and_ts_columns();
    let order = SortOrder {
        order_id: 1,
        fields: vec![
            ascending(2, Transform::Identity),
            ascending(1, Transform::Identity),
            SortField { direction: SortDirection::Descending, ..ascending(2, Transform::Identity) },
        ],
    };
    let lex = translate_sort_order(&order, &schema, &arrow).unwrap();
    assert_eq!(column_names(&lex), ["ts", "id"]);
    assert!(!lex.exprs()[0].options.descending);
}

#[test]
fn rows_in_the_sort_order_are_in_the_ordering() {
    let schema = id_and_ts_schema();
    let arrow = id_and_ts_columns();
    let order = SortOrder {
        order_id: 1,
        fields: vec![
            SortField { direction: SortDirection::Descending, ..ascending(2, Transform::Identity) },
            ascending(2, Transform::Identity),
            ascending(1, Transform::Bucket(4)),
        ],
    };
    // Rows (id, ts) by falling ts and then by the bucket of the id.
    let mut rows: Vec<[i64; 2]> = vec![[5, 1], [2, 9], [7, 9], [1, 4], [4, 4], [8, 1]];
    rows.sort_by_key(|row| (-row[1], row[1], row[0] % 4));
    let lex = translate_sort_order(&order, &schema, &arrow).unwrap();
    assert_eq!(column_names(&lex), ["ts"]);
    let key = |row: &[i64; 2]| -> Vec<i64> {
        let value = |index: usize, descending: bool| if descending { -row[index] } else { row[index] };
        let keys = lex.exprs().iter().map(|key| match &*key.expr {
            PhysicalExpr::Column(column) => value(column.index(), key.options.descending),
            _ => 0,
        });
        keys.collect()
    };
    assert!(rows.windows(2).all(|pair| key(&pair[0]) <= key(&pair[1])));
}

#[test]
fn no_keys_make_no_ordering() {
    assert!(LexOrdering::new(vec![]).is_none());
}
