//! Holds the notation of data types against Arrow.

use std::collections::HashMap;
use std::sync::Arc;

use arrow_schema as arrow;
use iceberg_planner::arrow::metadata::Metadata;
use iceberg_planner::arrow::schema::{
    DataType, Field, IntervalUnit, LeafType, TimeUnit, UnionMode,
};

const UNITS: [(TimeUnit, arrow::TimeUnit); 4] = [
    (TimeUnit::Second, arrow::TimeUnit::Second),
    (TimeUnit::Millisecond, arrow::TimeUnit::Millisecond),
    (TimeUnit::Microsecond, arrow::TimeUnit::Microsecond),
    (TimeUnit::Nanosecond, arrow::TimeUnit::Nanosecond),
];

/// The types without child fields in both forms.
fn leaves() -> Vec<(LeafType, arrow::DataType)> {
    let mut leaves = vec![
        (LeafType::Null, arrow::DataType::Null),
        (LeafType::Boolean, arrow::DataType::Boolean),
        (LeafType::Int8, arrow::DataType::Int8),
        (LeafType::Int16, arrow::DataType::Int16),
        (LeafType::Int32, arrow::DataType::Int32),
        (LeafType::Int64, arrow::DataType::Int64),
        (LeafType::UInt8, arrow::DataType::UInt8),
        (LeafType::UInt16, arrow::DataType::UInt16),
        (LeafType::UInt32, arrow::DataType::UInt32),
        (LeafType::UInt64, arrow::DataType::UInt64),
        (LeafType::Float16, arrow::DataType::Float16),
        (LeafType::Float32, arrow::DataType::Float32),
        (LeafType::Float64, arrow::DataType::Float64),
        (LeafType::Date32, arrow::DataType::Date32),
        (LeafType::Date64, arrow::DataType::Date64),
        (LeafType::Binary, arrow::DataType::Binary),
        (LeafType::LargeBinary, arrow::DataType::LargeBinary),
        (LeafType::BinaryView, arrow::DataType::BinaryView),
        (LeafType::Utf8, arrow::DataType::Utf8),
        (LeafType::LargeUtf8, arrow::DataType::LargeUtf8),
        (LeafType::Utf8View, arrow::DataType::Utf8View),
        (LeafType::Interval(IntervalUnit::YearMonth), interval(arrow::IntervalUnit::YearMonth)),
        (LeafType::Interval(IntervalUnit::DayTime), interval(arrow::IntervalUnit::DayTime)),
        (
            LeafType::Interval(IntervalUnit::MonthDayNano),
            interval(arrow::IntervalUnit::MonthDayNano),
        ),
    ];
    for (ours, theirs) in UNITS {
        leaves.push((LeafType::Time32(ours), arrow::DataType::Time32(theirs)));
        leaves.push((LeafType::Time64(ours), arrow::DataType::Time64(theirs)));
        leaves.push((LeafType::Duration(ours), arrow::DataType::Duration(theirs)));
    }
    for size in [0, 7, -1, i32::MAX, i32::MIN] {
        leaves.push((LeafType::FixedSizeBinary(size), arrow::DataType::FixedSizeBinary(size)));
    }
    for (p, s) in [(9, 2), (38, -5), (0, 0), (255, -128)] {
        leaves.push((LeafType::Decimal32(p, s), arrow::DataType::Decimal32(p, s)));
        leaves.push((LeafType::Decimal64(p, s), arrow::DataType::Decimal64(p, s)));
        leaves.push((LeafType::Decimal128(p, s), arrow::DataType::Decimal128(p, s)));
        leaves.push((LeafType::Decimal256(p, s), arrow::DataType::Decimal256(p, s)));
    }
    leaves
}

fn interval(unit: arrow::IntervalUnit) -> arrow::DataType {
    arrow::DataType::Interval(unit)
}

/// A field in both forms.
fn field(
    name: &str,
    data_type: (DataType, arrow::DataType),
    nullable: bool,
    annotations: &[(&str, &str)],
) -> (Arc<Field>, Arc<arrow::Field>) {
    let entries = annotations.iter().map(|(k, v)| (k.to_string(), v.to_string()));
    let map: HashMap<String, String> = entries.clone().collect();
    let metadata = Metadata::from_entries(entries.collect());
    (
        Arc::new(Field::new(name, data_type.0, nullable).with_metadata(metadata)),
        Arc::new(arrow::Field::new(name, data_type.1, nullable).with_metadata(map)),
    )
}

fn int64() -> (DataType, arrow::DataType) {
    (DataType::Leaf(LeafType::Int64), arrow::DataType::Int64)
}

fn text() -> (DataType, arrow::DataType) {
    (DataType::Leaf(LeafType::Utf8), arrow::DataType::Utf8)
}

/// Fields that differ in each part that the notation shows.
fn fields() -> Vec<(Arc<Field>, Arc<arrow::Field>)> {
    vec![
        field("item", int64(), true, &[]),
        field("item", int64(), false, &[("a", "1")]),
        field("other", text(), true, &[]),
        field("", text(), false, &[("z", "last"), ("a", "first"), ("m", ""), ("a", "again")]),
        field("b", int64(), true, &[("b", "2"), ("ab", "1"), ("a", "0"), ("\u{e9}", "3"), ("B", "4")]),
        field("say \"it's\"", text(), true, &[("tab\t", "back\\slash")]),
        field("\u{e9}\u{301}\n\u{200b}", text(), true, &[("\u{ff}", "\u{1f600}")]),
    ]
}

fn same(ours: &DataType, theirs: &arrow::DataType) {
    assert_eq!(ours.notation(), theirs.to_string());
}

#[test]
fn types_without_children_are_written_as_arrow_writes_them() {
    for (ours, theirs) in leaves() {
        same(&DataType::Leaf(ours), &theirs);
    }
    for (ours, theirs) in UNITS {
        same(&DataType::Timestamp(ours, None), &arrow::DataType::Timestamp(theirs, None));
        for zone in ["UTC", "+00:00", "", "Europe/\"B\""] {
            same(
                &DataType::Timestamp(ours, Some(zone.to_string())),
                &arrow::DataType::Timestamp(theirs, Some(Arc::from(zone))),
            );
        }
    }
}

#[test]
fn types_with_children_are_written_as_arrow_writes_them() {
    for (ours, theirs) in fields() {
        same(&DataType::List(ours.clone()), &arrow::DataType::List(theirs.clone()));
        same(&DataType::ListView(ours.clone()), &arrow::DataType::ListView(theirs.clone()));
        same(&DataType::LargeList(ours.clone()), &arrow::DataType::LargeList(theirs.clone()));
        same(
            &DataType::LargeListView(ours.clone()),
            &arrow::DataType::LargeListView(theirs.clone()),
        );
        for size in [0, 3, -1] {
            same(
                &DataType::FixedSizeList(ours.clone(), size),
                &arrow::DataType::FixedSizeList(theirs.clone(), size),
            );
        }
        for sorted in [true, false] {
            same(
                &DataType::MapOf(ours.clone(), sorted),
                &arrow::DataType::Map(theirs.clone(), sorted),
            );
        }
        let (ends, arrow_ends) = field("ends", int64(), false, &[("k", "v")]);
        same(
            &DataType::RunEndEncoded(ends, ours.clone()),
            &arrow::DataType::RunEndEncoded(arrow_ends, theirs.clone()),
        );
    }
}

#[test]
fn structs_and_unions_are_written_as_arrow_writes_them() {
    for count in 0..=fields().len() {
        let (ours, theirs): (Vec<_>, Vec<_>) = fields().into_iter().take(count).unzip();
        let ids: Vec<i8> = (0..count as i8).map(|i| i * 11).collect();
        let members = ids.iter().copied().zip(ours.iter().cloned()).collect();
        let arrow_members: arrow::UnionFields =
            ids.iter().copied().zip(theirs.iter().cloned()).collect();
        let members = Arc::new(members);
        same(
            &DataType::Union(Arc::clone(&members), UnionMode::Sparse),
            &arrow::DataType::Union(arrow_members.clone(), arrow::UnionMode::Sparse),
        );
        same(
            &DataType::Union(members, UnionMode::Dense),
            &arrow::DataType::Union(arrow_members, arrow::UnionMode::Dense),
        );
        let inner = DataType::Struct(Arc::new(ours));
        let arrow_inner = arrow::DataType::Struct(theirs.into());
        same(&inner, &arrow_inner);
        let coded = DataType::Dictionary(Arc::new(int64().0), Arc::new(inner.clone()));
        let arrow_coded = arrow::DataType::Dictionary(Box::new(int64().1), Box::new(arrow_inner));
        same(&coded, &arrow_coded);
        let (deep, arrow_deep) = field("deep", (coded, arrow_coded), false, &[("x", "y")]);
        same(&DataType::List(deep), &arrow::DataType::List(arrow_deep));
    }
}

#[test]
fn notations_have_fixed_values() {
    let (item, _) = field("v", int64(), false, &[("k", "1"), ("j", "2")]);
    assert_eq!(
        DataType::List(item).notation(),
        "List(non-null Int64, field: 'v', metadata: {\"j\": \"2\", \"k\": \"1\"})"
    );
    assert_eq!(
        DataType::Timestamp(TimeUnit::Microsecond, Some("UTC".to_string())).notation(),
        "Timestamp(\u{b5}s, \"UTC\")"
    );
}

#[test]
fn annotations_are_listed_by_key() {
    let entries = |pairs: &[(&str, &str)]| -> Vec<(String, String)> {
        pairs.iter().map(|(k, v)| (k.to_string(), v.to_string())).collect()
    };
    let metadata = Metadata::from_entries(entries(&[("b", "1"), ("a", "2"), ("", "3"), ("b", "4")]));
    assert_eq!(metadata.entries_by_key(), entries(&[("", "3"), ("a", "2"), ("b", "4")]));
    assert_eq!(Metadata::empty().entries_by_key(), entries(&[]));
}
