use std::sync::Arc;

use iceberg_planner::arrow::metadata::Metadata;
use iceberg_planner::arrow::schema::{ArrowSchema, DataType, Field, LeafType, TimeUnit};
use iceberg_planner::arrow::timestamp_tz::{
    coerce_timestamp_tz, TimestampTzCoercionVisitor, PARQUET_FIELD_ID_META_KEY, UTC_TIME_ZONE,
};
use iceberg_planner::error::ErrorKind;
use iceberg_planner::table::schema::{NestedField, PrimitiveType, Schema, Type};

fn field_id_meta(id: i32) -> Metadata {
    Metadata::from_entries(vec![(PARQUET_FIELD_ID_META_KEY.to_string(), id.to_string())])
}

fn zoned(unit: TimeUnit, zone: &str) -> DataType {
    DataType::Timestamp(unit, Some(zone.to_string()))
}

fn int32() -> DataType {
    DataType::Leaf(LeafType::Int32)
}

fn iceberg_schema_with_timestamptz() -> Schema {
    Schema::new(
        1,
        vec![
            Arc::new(NestedField::optional(
                1,
                "ts",
                Type::Primitive(PrimitiveType::Timestamptz),
            )),
            Arc::new(NestedField::required(2, "id", Type::Primitive(PrimitiveType::Int))),
        ],
    )
}

#[test]
fn test_coerce_utc_to_canonical() {
    let arrow_schema = ArrowSchema::new(vec![
        Arc::new(
            Field::new("ts", zoned(TimeUnit::Microsecond, "UTC"), true)
                .with_metadata(field_id_meta(1)),
        ),
        Arc::new(Field::new("id", int32(), false).with_metadata(field_id_meta(2))),
    ]);

    let coerced = coerce_timestamp_tz(&arrow_schema, &iceberg_schema_with_timestamptz()).unwrap();
    assert_eq!(coerced.fields[0].data_type, zoned(TimeUnit::Microsecond, UTC_TIME_ZONE));
    // Non-timestamp field unchanged.
    assert_eq!(coerced.fields[1].data_type, int32());
}

#[test]
fn test_no_change_when_already_canonical() {
    let arrow_schema = ArrowSchema::new(vec![Arc::new(
        Field::new("ts", zoned(TimeUnit::Microsecond, UTC_TIME_ZONE), true)
            .with_metadata(field_id_meta(1)),
    )]);

    assert!(coerce_timestamp_tz(&arrow_schema, &iceberg_schema_with_timestamptz()).is_none());
}

#[test]
fn test_no_change_when_iceberg_is_not_timestamptz() {
    // The table field has no zone, the file's field has one: it is left alone.
    let iceberg = Schema::new(
        1,
        vec![Arc::new(NestedField::optional(1, "ts", Type::Primitive(PrimitiveType::Timestamp)))],
    );

    let arrow_schema = ArrowSchema::new(vec![Arc::new(
        Field::new("ts", zoned(TimeUnit::Microsecond, "UTC"), true).with_metadata(field_id_meta(1)),
    )]);

    assert!(coerce_timestamp_tz(&arrow_schema, &iceberg).is_none());
}

#[test]
fn test_coerce_inside_struct() {
    let iceberg = Schema::new(
        1,
        vec![Arc::new(NestedField::optional(
            1,
            "payload",
            Type::Struct(vec![Arc::new(NestedField::optional(
                2,
                "ts",
                Type::Primitive(PrimitiveType::Timestamptz),
            ))]),
        ))],
    );

    let arrow_schema = ArrowSchema::new(vec![Arc::new(
        Field::new(
            "payload",
            DataType::Struct(Arc::new(vec![Arc::new(
                Field::new("ts", zoned(TimeUnit::Microsecond, "UTC"), true)
                    .with_metadata(field_id_meta(2)),
            )])),
            true,
        )
        .with_metadata(field_id_meta(1)),
    )]);

    let coerced = coerce_timestamp_tz(&arrow_schema, &iceberg).unwrap();
    let DataType::Struct(fields) = &coerced.fields[0].data_type else {
        panic!("expected struct");
    };
    assert_eq!(fields[0].data_type, zoned(TimeUnit::Microsecond, UTC_TIME_ZONE));
}

fn nested_ts_schema(primitive: PrimitiveType) -> Schema {
    Schema::new(1, vec![Arc::new(NestedField::optional(2, "ts", Type::Primitive(primitive)))])
}

fn ts_field(name: &str) -> Arc<Field> {
    Arc::new(
        Field::new(name, zoned(TimeUnit::Nanosecond, "UTC"), true).with_metadata(field_id_meta(2)),
    )
}

fn coerced_ts(name: &str) -> Arc<Field> {
    Arc::new(
        Field::new(name, zoned(TimeUnit::Nanosecond, "+00:00"), true)
            .with_metadata(field_id_meta(2)),
    )
}

fn coerce_one(data_type: DataType) -> Option<DataType> {
    let schema = ArrowSchema::new_with_metadata(
        vec![Arc::new(Field::new("top", data_type, false))],
        Metadata::from_entries(vec![("owner".to_string(), "me".to_string())]),
    );
    let coerced = coerce_timestamp_tz(&schema, &nested_ts_schema(PrimitiveType::TimestamptzNs))?;
    assert_eq!(coerced.metadata, schema.metadata);
    assert_eq!(coerced.fields[0].name, "top");
    assert!(!coerced.fields[0].nullable);
    Some(coerced.fields[0].data_type.clone())
}

#[test]
fn zones_in_lists_are_replaced() {
    assert_eq!(
        coerce_one(DataType::List(ts_field("element"))),
        Some(DataType::List(coerced_ts("element")))
    );
    assert_eq!(
        coerce_one(DataType::LargeList(ts_field("element"))),
        Some(DataType::LargeList(coerced_ts("element")))
    );
    assert_eq!(
        coerce_one(DataType::FixedSizeList(ts_field("element"), 3)),
        Some(DataType::FixedSizeList(coerced_ts("element"), 3))
    );
}

#[test]
fn maps_keep_their_entries_field() {
    let key = Arc::new(Field::new("k", DataType::Leaf(LeafType::Utf8), false));
    let entries = |value: Arc<Field>| {
        Field::new("pairs", DataType::Struct(Arc::new(vec![key.clone(), value])), true)
            .with_metadata(field_id_meta(9))
    };
    assert_eq!(
        coerce_one(DataType::MapOf(Arc::new(entries(ts_field("v"))), true)),
        Some(DataType::MapOf(Arc::new(entries(coerced_ts("v"))), true))
    );
}

#[test]
fn types_that_cannot_be_walked_leave_the_schema_alone() {
    assert_eq!(coerce_one(DataType::ListView(ts_field("element"))), None);
    let fields = vec![ts_field("a"), Arc::new(Field::new("n", DataType::Leaf(LeafType::Null), true))];
    assert_eq!(coerce_one(DataType::Struct(Arc::new(fields))), None);
}

#[test]
fn a_second_pass_changes_nothing() {
    let schema = ArrowSchema::new(vec![ts_field("ts"), Arc::new(Field::new("id", int32(), false))]);
    let table = nested_ts_schema(PrimitiveType::Timestamptz);
    let coerced = coerce_timestamp_tz(&schema, &table).unwrap();
    assert_eq!(coerced.fields[0], coerced_ts("ts"));
    assert!(coerce_timestamp_tz(&coerced, &table).is_none());
}

#[test]
fn only_zones_change() {
    // A map and a dictionary beside a timestamp stay as they are, and so do the annotations.
    let key = Arc::new(Field::new("k", DataType::Leaf(LeafType::Utf8), false));
    let pair = DataType::Struct(Arc::new(vec![key, Arc::new(Field::new("v", int32(), true))]));
    let map = DataType::MapOf(Arc::new(Field::new("pairs", pair, true)), false);
    let dictionary = DataType::Dictionary(
        Arc::new(int32()),
        Arc::new(zoned(TimeUnit::Nanosecond, "UTC")),
    );
    let schema = ArrowSchema::new_with_metadata(
        vec![
            ts_field("ts"),
            Arc::new(Field::new("m", map, false)),
            Arc::new(Field::new("coded", dictionary, true).with_metadata(field_id_meta(2))),
        ],
        Metadata::from_entries(vec![("s".to_string(), "t".to_string())]),
    );
    let table = nested_ts_schema(PrimitiveType::TimestamptzNs);
    let coerced = coerce_timestamp_tz(&schema, &table).unwrap();
    assert_eq!(coerced.fields[0], coerced_ts("ts"));
    assert_eq!(coerced.fields[1], schema.fields[1]);
    assert_eq!(coerced.fields[2], schema.fields[2]);
    assert!(coerced.metadata == schema.metadata);
    assert!(coerce_timestamp_tz(&coerced, &table).is_none());
}

#[test]
fn fields_inside_dictionaries_are_rewritten() {
    let coded = |field: Arc<Field>| {
        DataType::Dictionary(Arc::new(int32()), Arc::new(DataType::Struct(Arc::new(vec![field]))))
    };
    assert_eq!(coerce_one(coded(ts_field("t"))), Some(coded(coerced_ts("t"))));
}

#[test]
fn fields_without_a_usable_id_are_left_alone() {
    let table = nested_ts_schema(PrimitiveType::Timestamptz);
    for id in ["", "+", "two", "2.0", "99999999999", "3", " 2"] {
        let metadata = Metadata::from_entries(vec![(
            PARQUET_FIELD_ID_META_KEY.to_string(),
            id.to_string(),
        )]);
        let field = Field::new("ts", zoned(TimeUnit::Second, "UTC"), true).with_metadata(metadata);
        let schema = ArrowSchema::new(vec![Arc::new(field)]);
        assert!(coerce_timestamp_tz(&schema, &table).is_none(), "{id:?}");
    }
    for id in ["2", "+2", "002"] {
        let metadata = Metadata::from_entries(vec![(
            PARQUET_FIELD_ID_META_KEY.to_string(),
            id.to_string(),
        )]);
        let field = Field::new("ts", zoned(TimeUnit::Second, "UTC"), true).with_metadata(metadata);
        let schema = ArrowSchema::new(vec![Arc::new(field)]);
        assert!(coerce_timestamp_tz(&schema, &table).is_some(), "{id:?}");
    }
}

#[test]
fn the_field_id_key_is_that_of_parquet() {
    assert_eq!(PARQUET_FIELD_ID_META_KEY, parquet::arrow::PARQUET_FIELD_ID_META_KEY);
}

#[test]
fn a_visitor_without_fields_reports_an_underflow() {
    let table = iceberg_schema_with_timestamptz();
    let mut visitor = TimestampTzCoercionVisitor::new(&table);
    let error = visitor.primitive(&int32()).unwrap_err();
    assert_eq!(error.kind, ErrorKind::Unexpected);
    assert_eq!(error.message, "Field stack underflow in primitive");
    assert_eq!(visitor.structure(vec![]).unwrap_err().message, "Field stack underflow in struct");
    let element = || Field::new("element", int32(), true);
    assert_eq!(
        visitor.list(&int32(), element()).unwrap_err().message,
        "Field stack underflow in list"
    );
    assert_eq!(
        visitor.map(&int32(), element(), element()).unwrap_err().message,
        "Field stack underflow in map"
    );
    // Leaving a field when none has been entered does nothing.
    visitor.after_field();
    let field = Field::new("top", DataType::List(ts_field("element")), true);
    visitor.before_field(&field);
    assert_eq!(visitor.list(&int32(), element()).unwrap_err().message, "Expected list type, got Int32");
    assert_eq!(
        visitor.map(&int32(), element(), element()).unwrap_err().message,
        "Expected map type, got Int32"
    );
    let pair = DataType::Struct(Arc::new(vec![Arc::new(Field::new("a", int32(), false))]));
    assert_eq!(
        visitor.list(&pair, element()).unwrap_err().message,
        "Expected list type, got Struct(\"a\": non-null Int32)"
    );
    assert_eq!(
        visitor.map(&zoned(TimeUnit::Second, "UTC"), element(), element()).unwrap_err().message,
        "Expected map type, got Timestamp(s, \"UTC\")"
    );
    assert_eq!(visitor.primitive(&int32()).unwrap(), Field::new("top", int32(), true));
}

#[test]
fn annotations_are_looked_up_and_compared_by_content() {
    let one = Metadata::from_entries(vec![
        ("a".to_string(), "1".to_string()),
        ("b".to_string(), "2".to_string()),
        ("a".to_string(), "3".to_string()),
    ]);
    let two = Metadata::from_entries(vec![
        ("b".to_string(), "2".to_string()),
        ("a".to_string(), "3".to_string()),
    ]);
    assert_eq!(one.get("a"), Some(&"3".to_string()));
    assert_eq!(one.get("c"), None);
    assert!(one == two);
    assert!(one != Metadata::empty());
    assert_eq!(two.entries().len(), 2);
}
