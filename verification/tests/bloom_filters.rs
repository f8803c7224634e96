use std::collections::HashMap;
use std::sync::Arc;

use iceberg_planner::expr::bloom_filter_bytes::{
    datum_to_bloom_filter_bytes, ColumnDescriptor, PhysicalType,
};
use iceberg_planner::expr::predicate::{
    BinaryOperator, BoundPredicate, BoundReference, Datum, PrimitiveLiteral, SetOperator,
    UnaryOperator,
};
use iceberg_planner::expr::row_group_bloom_filter_evaluator::{
    collect_bloom_filterable_column_indices, RowGroupBloomFilterEvaluator, RowGroupBloomFilters,
};
use iceberg_planner::table::schema::PrimitiveType;
use parquet::bloom_filter::Sbbf;
use parquet::data_type::{ByteArray, FixedLenByteArray};
use parquet::schema::parser::parse_message_type;
use parquet::schema::types::SchemaDescriptor;

fn parquet_schema_with_nested_decimal_value() -> SchemaDescriptor {
    // nested.value is a decimal(20, 0) stored as a 9-byte fixed-len byte array, mirroring what
    // parquet writes for a 20-digit decimal.
    let message_type = "
message schema {
  required int32 id = 1;
  required group nested = 2 {
    required fixed_len_byte_array(9) value (DECIMAL(20,0)) = 3;
  }
}
        ";
    let parquet_type = parse_message_type(message_type).expect("parse message type");
    SchemaDescriptor::new(Arc::new(parquet_type))
}

fn describe(column: &parquet::schema::types::ColumnDescriptor) -> ColumnDescriptor {
    let physical_type = match column.physical_type() {
        parquet::basic::Type::BOOLEAN => PhysicalType::Boolean,
        parquet::basic::Type::INT32 => PhysicalType::Int32,
        parquet::basic::Type::INT64 => PhysicalType::Int64,
        parquet::basic::Type::INT96 => PhysicalType::Int96,
        parquet::basic::Type::FLOAT => PhysicalType::Float,
        parquet::basic::Type::DOUBLE => PhysicalType::Double,
        parquet::basic::Type::BYTE_ARRAY => PhysicalType::ByteArray,
        parquet::basic::Type::FIXED_LEN_BYTE_ARRAY => PhysicalType::FixedLenByteArray,
    };
    ColumnDescriptor { physical_type, type_length: column.type_length() }
}

fn describe_all(schema: &SchemaDescriptor) -> Vec<ColumnDescriptor> {
    schema.columns().iter().map(|column| describe(column)).collect()
}

fn decimal(mantissa: i128) -> Datum {
    Datum {
        data_type: PrimitiveType::Decimal { precision: 20, scale: 0 },
        literal: PrimitiveLiteral::Int128(mantissa),
    }
}

fn integer(value: i32) -> Datum {
    Datum { data_type: PrimitiveType::Int, literal: PrimitiveLiteral::Int(value) }
}

fn long(value: i64) -> Datum {
    Datum { data_type: PrimitiveType::Long, literal: PrimitiveLiteral::Long(value) }
}

fn text(value: &str) -> Datum {
    Datum { data_type: PrimitiveType::Text, literal: PrimitiveLiteral::Text(value.to_string()) }
}

fn value_column() -> BoundReference {
    BoundReference { column_name: "nested.value".to_string(), field_id: 3 }
}

fn id_column() -> BoundReference {
    BoundReference { column_name: "id".to_string(), field_id: 1 }
}

fn equals(reference: BoundReference, datum: Datum) -> BoundPredicate {
    BoundPredicate::Binary(BinaryOperator::Eq, reference, datum)
}

fn field_ids() -> HashMap<i32, usize> {
    let mut field_id_map = HashMap::new();
    // id (field 1) -> parquet column 0
    field_id_map.insert(1_i32, 0);
    // nested.value (field 3) -> parquet column 1
    field_id_map.insert(3_i32, 1);
    field_id_map
}

#[test]
fn datum_encoding_matches_parquet_writer_for_decimal_flb() {
    let schema = parquet_schema_with_nested_decimal_value();
    let value_descr =
        schema.columns().iter().find(|col| col.name() == "value").expect("value column");

    // Parquet writes Decimal128 as the 9 trailing big-endian bytes of the i128 mantissa for a
    // 20-digit decimal.
    let mantissa: i128 = 12_345_678_901_234_567_890_i128;
    let datum = decimal(mantissa);

    let our_bytes = datum_to_bloom_filter_bytes(&datum, &describe(value_descr))
        .expect("encoder should support decimal(20,0) FLB");

    let writer_bytes = mantissa.to_be_bytes()[16 - 9..].to_vec();
    assert_eq!(our_bytes, writer_bytes);
}

#[test]
fn datum_encoding_supports_native_ints_and_strings() {
    let schema_str = "
message schema {
  required int32 i32_col = 1;
  required int64 i64_col = 2;
  required binary str_col (STRING) = 3;
}
        ";
    let parquet_type = parse_message_type(schema_str).expect("parse");
    let schema = SchemaDescriptor::new(Arc::new(parquet_type));
    let i32_descr = describe(&schema.columns()[0]);
    let i64_descr = describe(&schema.columns()[1]);
    let str_descr = describe(&schema.columns()[2]);

    assert_eq!(
        datum_to_bloom_filter_bytes(&integer(42), &i32_descr).expect("i32"),
        42_i32.to_ne_bytes().to_vec(),
    );
    assert_eq!(
        datum_to_bloom_filter_bytes(&long(42_i64), &i64_descr).expect("i64"),
        42_i64.to_ne_bytes().to_vec(),
    );
    assert_eq!(
        datum_to_bloom_filter_bytes(&text("hello"), &str_descr).expect("string"),
        b"hello".to_vec(),
    );
}

#[test]
fn evaluator_skips_row_group_when_bloom_filter_definitely_excludes_value() {
    let parquet_schema = parquet_schema_with_nested_decimal_value();
    let value_column_idx = parquet_schema
        .columns()
        .iter()
        .position(|col| col.name() == "value")
        .expect("value column index");
    let parquet_columns = describe_all(&parquet_schema);

    // Build a bloom filter that contains value = 1234 but not 9999.
    let mut sbbf = Sbbf::new_with_ndv_fpp(8, 0.01).expect("build sbbf");
    let present_bytes =
        datum_to_bloom_filter_bytes(&decimal(1234), &parquet_columns[value_column_idx]).unwrap();
    sbbf.insert(&FixedLenByteArray::from(ByteArray::from(present_bytes)));

    let mut bloom_filters = RowGroupBloomFilters::new();
    bloom_filters.insert(value_column_idx, sbbf);

    let field_id_map = field_ids();

    // Predicate that the bloom filter can prove false.
    let bound = equals(value_column(), decimal(9999));
    let result =
        RowGroupBloomFilterEvaluator::eval(&bound, &bloom_filters, &field_id_map, &parquet_columns)
            .unwrap();
    assert!(!result, "9999 not in bloom -> row group should be skipped");

    // Predicate that the bloom filter cannot disprove (1234 is present).
    let bound_present = equals(value_column(), decimal(1234));
    let result_present = RowGroupBloomFilterEvaluator::eval(
        &bound_present,
        &bloom_filters,
        &field_id_map,
        &parquet_columns,
    )
    .unwrap();
    assert!(result_present, "1234 in bloom -> row group must be kept (no false negatives)");
}

#[test]
fn collector_records_eq_and_in_columns_only() {
    let field_id_map = field_ids();

    // nested.value = 5 AND id > 0 — only the equality should land in the bloom-filterable set.
    let bound = BoundPredicate::And(
        Box::new(equals(value_column(), decimal(5))),
        Box::new(BoundPredicate::Binary(BinaryOperator::GreaterThan, id_column(), integer(0))),
    );

    let collected =
        collect_bloom_filterable_column_indices(&bound, &field_id_map).expect("collect");
    assert_eq!(collected.len(), 1);
    assert!(collected.contains(&1_usize));
}

#[test]
fn collector_looks_into_every_part_of_a_predicate() {
    let field_id_map = field_ids();
    let unknown = BoundReference { column_name: "gone".to_string(), field_id: 99 };
    let bound = BoundPredicate::Or(
        Box::new(BoundPredicate::Not(Box::new(BoundPredicate::Membership(
            SetOperator::In,
            id_column(),
            vec![integer(1)],
        )))),
        Box::new(BoundPredicate::And(
            Box::new(equals(unknown, integer(3))),
            Box::new(equals(value_column(), decimal(5))),
        )),
    );
    let collected = collect_bloom_filterable_column_indices(&bound, &field_id_map).unwrap();
    assert_eq!(collected.len(), 2);
    assert!(collected.contains(&0_usize) && collected.contains(&1_usize));

    let other = BoundPredicate::Membership(SetOperator::NotIn, id_column(), vec![integer(1)]);
    assert!(collect_bloom_filterable_column_indices(&other, &field_id_map).unwrap().is_empty());
}

fn column(physical_type: PhysicalType, type_length: i32) -> ColumnDescriptor {
    ColumnDescriptor { physical_type, type_length }
}

fn encode(literal: PrimitiveLiteral, descriptor: ColumnDescriptor) -> Option<Vec<u8>> {
    let datum = Datum { data_type: PrimitiveType::Binary, literal };
    datum_to_bloom_filter_bytes(&datum, &descriptor)
}

#[test]
fn every_supported_pair_has_its_bytes() {
    assert_eq!(encode(PrimitiveLiteral::Boolean(true), column(PhysicalType::Boolean, 0)), Some(vec![1]));
    assert_eq!(encode(PrimitiveLiteral::Boolean(false), column(PhysicalType::Boolean, 0)), Some(vec![0]));
    assert_eq!(
        encode(PrimitiveLiteral::Int(-2), column(PhysicalType::Int32, 0)),
        Some(vec![0xfe, 0xff, 0xff, 0xff])
    );
    assert_eq!(
        encode(PrimitiveLiteral::Long(i64::MIN), column(PhysicalType::Int64, 0)),
        Some(i64::MIN.to_le_bytes().to_vec())
    );
    assert_eq!(
        encode(PrimitiveLiteral::Float(1.5_f32.to_bits()), column(PhysicalType::Float, 0)),
        Some(1.5_f32.to_le_bytes().to_vec())
    );
    assert_eq!(
        encode(PrimitiveLiteral::Double((-0.25_f64).to_bits()), column(PhysicalType::Double, 0)),
        Some((-0.25_f64).to_le_bytes().to_vec())
    );
    assert_eq!(
        encode(PrimitiveLiteral::Text("h\u{e9}\u{20ac}".to_string()), column(PhysicalType::ByteArray, 0)),
        Some("h\u{e9}\u{20ac}".as_bytes().to_vec())
    );
    assert_eq!(
        encode(PrimitiveLiteral::Binary(vec![1, 2]), column(PhysicalType::ByteArray, 0)),
        Some(vec![1, 2])
    );
    assert_eq!(
        encode(PrimitiveLiteral::Int128(-5), column(PhysicalType::Int32, 0)),
        Some((-5_i32).to_le_bytes().to_vec())
    );
    assert_eq!(
        encode(PrimitiveLiteral::Int128(-5), column(PhysicalType::Int64, 0)),
        Some((-5_i64).to_le_bytes().to_vec())
    );
    assert_eq!(
        encode(PrimitiveLiteral::Int128(-5), column(PhysicalType::FixedLenByteArray, 3)),
        Some(vec![0xff, 0xff, 0xfb])
    );
    assert_eq!(
        encode(PrimitiveLiteral::Int128(i128::MIN), column(PhysicalType::FixedLenByteArray, 16)),
        Some(i128::MIN.to_be_bytes().to_vec())
    );
    assert_eq!(
        encode(PrimitiveLiteral::Binary(vec![7; 4]), column(PhysicalType::FixedLenByteArray, 4)),
        Some(vec![7; 4])
    );
}

#[test]
fn unsupported_pairs_have_no_bytes() {
    assert_eq!(encode(PrimitiveLiteral::Int128(1 << 31), column(PhysicalType::Int32, 0)), None);
    assert_eq!(encode(PrimitiveLiteral::Int128(1 << 63), column(PhysicalType::Int64, 0)), None);
    assert_eq!(encode(PrimitiveLiteral::Int128(1), column(PhysicalType::FixedLenByteArray, 0)), None);
    assert_eq!(encode(PrimitiveLiteral::Int128(1), column(PhysicalType::FixedLenByteArray, 17)), None);
    assert_eq!(encode(PrimitiveLiteral::Int128(1), column(PhysicalType::FixedLenByteArray, -1)), None);
    assert_eq!(encode(PrimitiveLiteral::Binary(vec![1]), column(PhysicalType::FixedLenByteArray, 2)), None);
    assert_eq!(encode(PrimitiveLiteral::Binary(vec![]), column(PhysicalType::FixedLenByteArray, 0)), None);
    assert_eq!(encode(PrimitiveLiteral::Int(1), column(PhysicalType::Int64, 0)), None);
    assert_eq!(encode(PrimitiveLiteral::Long(1), column(PhysicalType::Int96, 0)), None);
    assert_eq!(encode(PrimitiveLiteral::UInt128(1), column(PhysicalType::ByteArray, 0)), None);
    assert_eq!(encode(PrimitiveLiteral::AboveMax, column(PhysicalType::Int32, 0)), None);
}

fn filters_with(values: &[i128]) -> (RowGroupBloomFilters, Vec<ColumnDescriptor>) {
    let columns = describe_all(&parquet_schema_with_nested_decimal_value());
    let mut sbbf = Sbbf::new_with_ndv_fpp(64, 0.0001).unwrap();
    for value in values {
        let bytes = datum_to_bloom_filter_bytes(&decimal(*value), &columns[1]).unwrap();
        sbbf.insert(&FixedLenByteArray::from(ByteArray::from(bytes)));
    }
    let mut filters = RowGroupBloomFilters::new();
    filters.insert(1, sbbf);
    (filters, columns)
}

fn might_match(predicate: &BoundPredicate, values: &[i128]) -> bool {
    let (filters, columns) = filters_with(values);
    RowGroupBloomFilterEvaluator::eval(predicate, &filters, &field_ids(), &columns).unwrap()
}

#[test]
fn membership_is_ruled_out_only_with_every_literal() {
    let predicate = |values: &[i128]| {
        BoundPredicate::Membership(
            SetOperator::In,
            value_column(),
            values.iter().map(|v| decimal(*v)).collect(),
        )
    };
    assert!(might_match(&predicate(&[5, 6, 7]), &[7]));
    assert!(might_match(&predicate(&[7, 5, 7]), &[7]));
    assert!(!might_match(&predicate(&[5, 6]), &[7]));
    assert!(!might_match(&predicate(&[]), &[7]));
}

#[test]
fn connectives_combine_what_the_filters_say() {
    let absent = || Box::new(equals(value_column(), decimal(9999)));
    let present = || Box::new(equals(value_column(), decimal(7)));
    assert!(!might_match(&BoundPredicate::And(present(), absent()), &[7]));
    assert!(might_match(&BoundPredicate::Or(present(), absent()), &[7]));
    assert!(!might_match(&BoundPredicate::Or(absent(), absent()), &[7]));
    assert!(might_match(&BoundPredicate::Not(absent()), &[7]));
    assert!(might_match(&BoundPredicate::Not(present()), &[7]));
    assert!(might_match(&BoundPredicate::AlwaysTrue, &[7]));
    assert!(!might_match(&BoundPredicate::AlwaysFalse, &[7]));
}

#[test]
fn other_operators_and_unknown_columns_are_never_ruled_out() {
    for operator in [
        BinaryOperator::LessThan,
        BinaryOperator::LessThanOrEq,
        BinaryOperator::GreaterThan,
        BinaryOperator::GreaterThanOrEq,
        BinaryOperator::NotEq,
        BinaryOperator::StartsWith,
        BinaryOperator::NotStartsWith,
    ] {
        let predicate = BoundPredicate::Binary(operator, value_column(), decimal(9999));
        assert!(might_match(&predicate, &[7]));
    }
    for operator in
        [UnaryOperator::IsNull, UnaryOperator::NotNull, UnaryOperator::IsNan, UnaryOperator::NotNan]
    {
        assert!(might_match(&BoundPredicate::Unary(operator, value_column()), &[7]));
    }
    let not_in =
        BoundPredicate::Membership(SetOperator::NotIn, value_column(), vec![decimal(9999)]);
    assert!(might_match(&not_in, &[7]));
    // No filter for the column, no column for the field, no bytes for the literal.
    assert!(might_match(&equals(id_column(), integer(9999)), &[7]));
    let unknown = BoundReference { column_name: "gone".to_string(), field_id: 99 };
    assert!(might_match(&equals(unknown, integer(9999)), &[7]));
    assert!(might_match(&equals(value_column(), integer(9999)), &[7]));
}

#[test]
fn filters_of_other_columns_do_not_matter() {
    let (mut filters, columns) = filters_with(&[7]);
    let absent = equals(value_column(), decimal(9999));
    let before =
        RowGroupBloomFilterEvaluator::eval(&absent, &filters, &field_ids(), &columns).unwrap();
    filters.insert(0, Sbbf::new_with_ndv_fpp(8, 0.01).unwrap());
    let after =
        RowGroupBloomFilterEvaluator::eval(&absent, &filters, &field_ids(), &columns).unwrap();
    assert_eq!(before, after);
    assert!(!after);
    // The filter of column 0 holds nothing, so that an equality on it is ruled out now.
    assert!(!RowGroupBloomFilterEvaluator::eval(
        &equals(id_column(), integer(1)),
        &filters,
        &field_ids(),
        &columns
    )
    .unwrap());
}

#[test]
fn filters_without_blocks_are_not_asked() {
    let (_, columns) = filters_with(&[]);
    let mut filters = RowGroupBloomFilters::new();
    filters.insert(1, Sbbf::new(&[]));
    let among = |literals: Vec<Datum>| {
        let predicate = BoundPredicate::Membership(SetOperator::In, value_column(), literals);
        RowGroupBloomFilterEvaluator::eval(&predicate, &filters, &field_ids(), &columns).unwrap()
    };
    // There is a filter for the column, and no literal that it would have to be asked about.
    assert!(!among(vec![]));
    assert!(among(vec![integer(1)]));
    assert!(among(vec![decimal(7)]));
    let equality = equals(value_column(), decimal(7));
    assert!(RowGroupBloomFilterEvaluator::eval(&equality, &filters, &field_ids(), &columns)
        .unwrap());
}
