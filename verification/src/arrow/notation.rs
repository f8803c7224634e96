//! The notation of Arrow data types.

use vstd::prelude::*;

use crate::arrow::metadata::{by_key, entry_texts, Metadata};
use crate::arrow::schema::{
    DataType, DataTypeView, Field, FieldRef, FieldView, IntervalUnit, LeafType, TimeUnit, UnionMode,
};
use crate::text::{
    decimal, decimal_digits, join_texts, same_text, separated, signed_decimal, signed_digits, texts,
};

verus! {

/// The name that the element of a list has where the notation does not say it.
pub const ELEMENT_NAME: &'static str = "item";

/// What the debug format of std writes for a string: the string in double quotes, with escapes for
/// what cannot be printed as it is.
pub uninterp spec fn quoted(text: Seq<char>) -> Seq<char>;

/// `format!` of std with `{:?}` on a string. What it writes depends on the string alone.
#[verifier::external_body]
fn quote(text: &str) -> (r: String)
    ensures
        r@ == quoted(text@),
{
    format!("{text:?}")
}

/// The symbol of a time unit.
pub open spec fn unit_text(unit: TimeUnit) -> Seq<char> {
    match unit {
        TimeUnit::Second => "s"@,
        TimeUnit::Millisecond => "ms"@,
        TimeUnit::Microsecond => "\u{b5}s"@,
        TimeUnit::Nanosecond => "ns"@,
    }
}

/// The name of the kind of an interval.
pub open spec fn interval_text(unit: IntervalUnit) -> Seq<char> {
    match unit {
        IntervalUnit::YearMonth => "YearMonth"@,
        IntervalUnit::DayTime => "DayTime"@,
        IntervalUnit::MonthDayNano => "MonthDayNano"@,
    }
}

/// The name of the layout of a union.
pub open spec fn mode_text(mode: UnionMode) -> Seq<char> {
    match mode {
        UnionMode::Sparse => "Sparse"@,
        UnionMode::Dense => "Dense"@,
    }
}

/// The precision and the scale of a decimal type.
pub open spec fn decimal_text(precision: u8, scale: i8) -> Seq<char> {
    decimal_digits(precision as nat) + ", "@ + signed_digits(scale as int)
}

/// The notation of a type without child fields: its name, and its parameters where it has any.
pub open spec fn leaf_text(leaf: LeafType) -> Seq<char> {
    match leaf {
        LeafType::Null => "Null"@,
        LeafType::Boolean => "Boolean"@,
        LeafType::Int8 => "Int8"@,
        LeafType::Int16 => "Int16"@,
        LeafType::Int32 => "Int32"@,
        LeafType::Int64 => "Int64"@,
        LeafType::UInt8 => "UInt8"@,
        LeafType::UInt16 => "UInt16"@,
        LeafType::UInt32 => "UInt32"@,
        LeafType::UInt64 => "UInt64"@,
        LeafType::Float16 => "Float16"@,
        LeafType::Float32 => "Float32"@,
        LeafType::Float64 => "Float64"@,
        LeafType::Date32 => "Date32"@,
        LeafType::Date64 => "Date64"@,
        LeafType::Time32(unit) => "Time32("@ + unit_text(unit) + ")"@,
        LeafType::Time64(unit) => "Time64("@ + unit_text(unit) + ")"@,
        LeafType::Duration(unit) => "Duration("@ + unit_text(unit) + ")"@,
        LeafType::Interval(unit) => "Interval("@ + interval_text(unit) + ")"@,
        LeafType::Binary => "Binary"@,
        LeafType::FixedSizeBinary(size) => "FixedSizeBinary("@ + signed_digits(size as int) + ")"@,
        LeafType::LargeBinary => "LargeBinary"@,
        LeafType::BinaryView => "BinaryView"@,
        LeafType::Utf8 => "Utf8"@,
        LeafType::LargeUtf8 => "LargeUtf8"@,
        LeafType::Utf8View => "Utf8View"@,
        LeafType::Decimal32(precision, scale) => "Decimal32("@ + decimal_text(
            precision,
            scale,
        ) + ")"@,
        LeafType::Decimal64(precision, scale) => "Decimal64("@ + decimal_text(
            precision,
            scale,
        ) + ")"@,
        LeafType::Decimal128(precision, scale) => "Decimal128("@ + decimal_text(
            precision,
            scale,
        ) + ")"@,
        LeafType::Decimal256(precision, scale) => "Decimal256("@ + decimal_text(
            precision,
            scale,
        ) + ")"@,
    }
}

/// One annotation: key and value, both in quotes.
pub open spec fn annotation_text(entry: (Seq<char>, Seq<char>)) -> Seq<char> {
    quoted(entry.0) + ": "@ + quoted(entry.1)
}

/// The annotations of a field in the order of their keys; nothing where it has none.
pub open spec fn metadata_text(metadata: Map<Seq<char>, Seq<char>>) -> Seq<char> {
    let entries = by_key(metadata);
    if entries.len() == 0 {
        Seq::empty()
    } else {
        ", metadata: {"@ + separated(
            entries.map_values(|e: (Seq<char>, Seq<char>)| annotation_text(e)),
            ", "@,
        ) + "}"@
    }
}

/// What is written before the type of a field that may not be null.
pub open spec fn nullability_text(nullable: bool) -> Seq<char> {
    if nullable {
        ""@
    } else {
        "non-null "@
    }
}

/// The notation of a data type: its name, and in parentheses its parameters, the fields inside it
/// with all that is inside them.
pub open spec fn type_text(data_type: DataTypeView) -> Seq<char>
    decreases data_type,
{
    match data_type {
        DataTypeView::Leaf(leaf) => leaf_text(leaf),
        DataTypeView::Timestamp(unit, zone) => match zone {
            Some(zone) => "Timestamp("@ + (unit_text(unit) + ", "@ + quoted(zone)) + ")"@,
            None => "Timestamp("@ + unit_text(unit) + ")"@,
        },
        DataTypeView::List(element) => "List("@ + element_text(*element) + ")"@,
        DataTypeView::ListView(element) => "ListView("@ + element_text(*element) + ")"@,
        DataTypeView::LargeList(element) => "LargeList("@ + element_text(*element) + ")"@,
        DataTypeView::LargeListView(element) => "LargeListView("@ + element_text(*element) + ")"@,
        DataTypeView::FixedSizeList(element, size) => "FixedSizeList("@ + (signed_digits(
            size as int,
        ) + " x "@ + element_text(*element)) + ")"@,
        DataTypeView::Struct(fields) => "Struct("@ + separated(field_texts(fields), ", "@) + ")"@,
        DataTypeView::Union(members, mode) => "Union("@ + (mode_text(mode) + (if members.len()
            == 0 {
            ""@
        } else {
            ", "@
        }) + separated(member_texts(members), ", "@)) + ")"@,
        DataTypeView::Dictionary(keys, values) => "Dictionary("@ + (type_text(*keys) + ", "@
            + type_text(*values)) + ")"@,
        DataTypeView::MapOf(entries, sorted) => "Map("@ + (field_text(*entries) + (if sorted {
            ", sorted"@
        } else {
            ", unsorted"@
        })) + ")"@,
        DataTypeView::RunEndEncoded(ends, values) => "RunEndEncoded("@ + (field_text(*ends) + ", "@
            + field_text(*values)) + ")"@,
    }
}

/// The notation of a field: its name in quotes, then its type and its annotations.
pub open spec fn field_text(field: FieldView) -> Seq<char>
    decreases field,
{
    quoted(field.name) + ": "@ + nullability_text(field.nullable) + type_text(field.data_type)
        + metadata_text(field.metadata)
}

/// The notations of the fields of a struct.
pub open spec fn field_texts(fields: Seq<FieldView>) -> Seq<Seq<char>>
    decreases fields,
{
    if fields.len() == 0 {
        Seq::empty()
    } else {
        field_texts(fields.drop_last()).push(field_text(fields.last()))
    }
}

/// The notations of the members of a union: the id of each, and its field in parentheses.
pub open spec fn member_texts(members: Seq<(i8, FieldView)>) -> Seq<Seq<char>>
    decreases members,
{
    if members.len() == 0 {
        Seq::empty()
    } else {
        member_texts(members.drop_last()).push(
            signed_digits(members.last().0 as int) + ": ("@ + field_text(members.last().1) + ")"@,
        )
    }
}

/// The notation of the element of a list: its type, its name where that is not the usual one, and
/// its annotations.
pub open spec fn element_text(field: FieldView) -> Seq<char>
    decreases field,
{
    nullability_text(field.nullable) + type_text(field.data_type) + (if field.name
        == ELEMENT_NAME@ {
        ""@
    } else {
        ", field: '"@ + field.name + "'"@
    }) + metadata_text(field.metadata)
}

fn enclosed(start: &str, inside: &str) -> (r: String)
    ensures
        r@ == start@ + inside@ + ")"@,
{
    let mut out: String = start.to_owned();
    out.append(inside);
    out.append(")");
    out
}

fn unit_symbol(unit: TimeUnit) -> (r: &'static str)
    ensures
        r@ == unit_text(unit),
{
    match unit {
        TimeUnit::Second => "s",
        TimeUnit::Millisecond => "ms",
        TimeUnit::Microsecond => "\u{b5}s",
        TimeUnit::Nanosecond => "ns",
    }
}

fn interval_name(unit: IntervalUnit) -> (r: &'static str)
    ensures
        r@ == interval_text(unit),
{
    match unit {
        IntervalUnit::YearMonth => "YearMonth",
        IntervalUnit::DayTime => "DayTime",
        IntervalUnit::MonthDayNano => "MonthDayNano",
    }
}

fn mode_name(mode: UnionMode) -> (r: &'static str)
    ensures
        r@ == mode_text(mode),
{
    match mode {
        UnionMode::Sparse => "Sparse",
        UnionMode::Dense => "Dense",
    }
}

fn decimal_parameters(precision: u8, scale: i8) -> (r: String)
    ensures
        r@ == decimal_text(precision, scale),
{
    let mut out: String = decimal(precision as usize);
    out.append(", ");
    out.append(signed_decimal(scale as i32).as_str());
    out
}

fn leaf_notation(leaf: LeafType) -> (r: String)
    ensures
        r@ == leaf_text(leaf),
{
    match leaf {
        LeafType::Null => "Null".to_owned(),
        LeafType::Boolean => "Boolean".to_owned(),
        LeafType::Int8 => "Int8".to_owned(),
        LeafType::Int16 => "Int16".to_owned(),
        LeafType::Int32 => "Int32".to_owned(),
        LeafType::Int64 => "Int64".to_owned(),
        LeafType::UInt8 => "UInt8".to_owned(),
        LeafType::UInt16 => "UInt16".to_owned(),
        LeafType::UInt32 => "UInt32".to_owned(),
        LeafType::UInt64 => "UInt64".to_owned(),
        LeafType::Float16 => "Float16".to_owned(),
        LeafType::Float32 => "Float32".to_owned(),
        LeafType::Float64 => "Float64".to_owned(),
        LeafType::Date32 => "Date32".to_owned(),
        LeafType::Date64 => "Date64".to_owned(),
        LeafType::Time32(unit) => enclosed("Time32(", unit_symbol(unit)),
        LeafType::Time64(unit) => enclosed("Time64(", unit_symbol(unit)),
        LeafType::Duration(unit) => enclosed("Duration(", unit_symbol(unit)),
        LeafType::Interval(unit) => enclosed("Interval(", interval_name(unit)),
        LeafType::Binary => "Binary".to_owned(),
        LeafType::FixedSizeBinary(size) => enclosed(
            "FixedSizeBinary(",
            signed_decimal(size).as_str(),
        ),
        LeafType::LargeBinary => "LargeBinary".to_owned(),
        LeafType::BinaryView => "BinaryView".to_owned(),
        LeafType::Utf8 => "Utf8".to_owned(),
        LeafType::LargeUtf8 => "LargeUtf8".to_owned(),
        LeafType::Utf8View => "Utf8View".to_owned(),
        LeafType::Decimal32(precision, scale) => enclosed(
            "Decimal32(",
            decimal_parameters(precision, scale).as_str(),
        ),
        LeafType::Decimal64(precision, scale) => enclosed(
            "Decimal64(",
            decimal_parameters(precision, scale).as_str(),
        ),
        LeafType::Decimal128(precision, scale) => enclosed(
            "Decimal128(",
            decimal_parameters(precision, scale).as_str(),
        ),
        LeafType::Decimal256(precision, scale) => enclosed(
            "Decimal256(",
            decimal_parameters(precision, scale).as_str(),
        ),
    }
}

fn metadata_notation(metadata: &Metadata) -> (r: String)
    ensures
        r@ == metadata_text(metadata@),
{
    let entries: Vec<(String, String)> = metadata.entries_by_key();
    let ghost listing = entry_texts(entries@);
    let ghost notes = listing.map_values(|e: (Seq<char>, Seq<char>)| annotation_text(e));
    let mut out: String = "".to_owned();
    if entries.is_empty() {
        proof {
            reveal_strlit("");
            assert(out@ =~= Seq::<char>::empty());
        }
        return out;
    }
    let mut parts: Vec<String> = Vec::new();
    let mut i: usize = 0;
    while i < entries.len()
        invariant
            i <= entries@.len(),
            listing == entry_texts(entries@),
            notes == listing.map_values(|e: (Seq<char>, Seq<char>)| annotation_text(e)),
            parts@.len() == i,
            forall|j: int| 0 <= j < i ==> (#[trigger] parts@[j])@ == notes[j],
        decreases entries@.len() - i,
    {
        let mut part: String = quote(entries[i].0.as_str());
        part.append(": ");
        part.append(quote(entries[i].1.as_str()).as_str());
        assert(listing[i as int] == (entries@[i as int].0@, entries@[i as int].1@));
        parts.push(part);
        i += 1;
    }
    assert(texts(parts@) =~= notes);
    let mut out: String = ", metadata: {".to_owned();
    out.append(join_texts(&parts, ", ").as_str());
    out.append("}");
    out
}

fn nullability_notation(nullable: bool) -> (r: &'static str)
    ensures
        r@ == nullability_text(nullable),
{
    if nullable {
        ""
    } else {
        "non-null "
    }
}

fn field_notation(field: &Field) -> (r: String)
    ensures
        r@ == field_text(field@),
    decreases field,
{
    let mut out: String = quote(field.name.as_str());
    out.append(": ");
    out.append(nullability_notation(field.nullable));
    out.append(field.data_type.notation().as_str());
    out.append(metadata_notation(&field.metadata).as_str());
    out
}

fn element_notation(field: &Field) -> (r: String)
    ensures
        r@ == element_text(field@),
    decreases field,
{
    let mut out: String = nullability_notation(field.nullable).to_owned();
    out.append(field.data_type.notation().as_str());
    let mut name: String = "".to_owned();
    if !same_text(field.name.as_str(), ELEMENT_NAME) {
        name = ", field: '".to_owned();
        name.append(field.name.as_str());
        name.append("'");
    }
    out.append(name.as_str());
    out.append(metadata_notation(&field.metadata).as_str());
    out
}

impl DataType {
    /// The notation of the type.
    pub fn notation(&self) -> (r: String)
        ensures
            r@ == type_text(self@),
        decreases self,
    {
        match self {
            DataType::Leaf(leaf) => leaf_notation(*leaf),
            DataType::Timestamp(unit, zone) => match zone {
                Some(zone) => {
                    let mut inside: String = unit_symbol(*unit).to_owned();
                    inside.append(", ");
                    inside.append(quote(zone.as_str()).as_str());
                    enclosed("Timestamp(", inside.as_str())
                },
                None => enclosed("Timestamp(", unit_symbol(*unit)),
            },
            DataType::List(element) => enclosed("List(", element_notation(element).as_str()),
            DataType::ListView(element) => enclosed(
                "ListView(",
                element_notation(element).as_str(),
            ),
            DataType::LargeList(element) => enclosed(
                "LargeList(",
                element_notation(element).as_str(),
            ),
            DataType::LargeListView(element) => enclosed(
                "LargeListView(",
                element_notation(element).as_str(),
            ),
            DataType::FixedSizeList(element, size) => {
                let mut inside: String = signed_decimal(*size);
                inside.append(" x ");
                inside.append(element_notation(element).as_str());
                enclosed("FixedSizeList(", inside.as_str())
            },
            DataType::Struct(fields) => {
                let ghost models = self@->Struct_0;
                let mut parts: Vec<String> = Vec::new();
                let mut i: usize = 0;
                assert(models.take(0) =~= Seq::<FieldView>::empty());
                assert(texts(parts@) =~= Seq::<Seq<char>>::empty());
                while i < fields.len()
                    invariant
                        *self == DataType::Struct(*fields),
                        models == self@->Struct_0,
                        models.len() == fields@.len(),
                        i <= fields@.len(),
                        texts(parts@) == field_texts(models.take(i as int)),
                    decreases fields@.len() - i,
                {
                    let ghost before = texts(parts@);
                    proof {
                        assert(decreases_to!(*self => fields@[i as int]));
                        assert(models[i as int] == (*fields@[i as int])@);
                        assert(models.take(i + 1).drop_last() =~= models.take(i as int));
                    }
                    parts.push(field_notation(&fields[i]));
                    assert(texts(parts@) =~= before.push(field_text(models[i as int])));
                    i += 1;
                }
                assert(models.take(i as int) =~= models);
                enclosed("Struct(", join_texts(&parts, ", ").as_str())
            },
            DataType::Union(members, mode) => {
                let ghost models = self@->Union_0;
                let mut parts: Vec<String> = Vec::new();
                let mut i: usize = 0;
                assert(models.take(0) =~= Seq::<(i8, FieldView)>::empty());
                assert(texts(parts@) =~= Seq::<Seq<char>>::empty());
                while i < members.len()
                    invariant
                        *self == DataType::Union(*members, *mode),
                        models == self@->Union_0,
                        models.len() == members@.len(),
                        i <= members@.len(),
                        texts(parts@) == member_texts(models.take(i as int)),
                    decreases members@.len() - i,
                {
                    let ghost before = texts(parts@);
                    proof {
                        assert(decreases_to!(*self => members@[i as int].1));
                        assert(models[i as int].0 == members@[i as int].0);
                        assert(models[i as int].1 == (*members@[i as int].1)@);
                        assert(models.take(i + 1).drop_last() =~= models.take(i as int));
                    }
                    let mut part: String = signed_decimal(members[i].0 as i32);
                    part.append(": (");
                    part.append(field_notation(&members[i].1).as_str());
                    part.append(")");
                    let ghost text = part@;
                    parts.push(part);
                    assert(texts(parts@) =~= before.push(text));
                    i += 1;
                }
                assert(models.take(i as int) =~= models);
                let mut inside: String = mode_name(*mode).to_owned();
                inside.append(
                    if members.is_empty() {
                        ""
                    } else {
                        ", "
                    },
                );
                inside.append(join_texts(&parts, ", ").as_str());
                enclosed("Union(", inside.as_str())
            },
            DataType::Dictionary(keys, values) => {
                let mut inside: String = keys.notation();
                inside.append(", ");
                inside.append(values.notation().as_str());
                enclosed("Dictionary(", inside.as_str())
            },
            DataType::MapOf(entries, sorted) => {
                let mut inside: String = field_notation(entries);
                inside.append(
                    if *sorted {
                        ", sorted"
                    } else {
                        ", unsorted"
                    },
                );
                enclosed("Map(", inside.as_str())
            },
            DataType::RunEndEncoded(ends, values) => {
                let mut inside: String = field_notation(ends);
                inside.append(", ");
                inside.append(field_notation(values).as_str());
                enclosed("RunEndEncoded(", inside.as_str())
            },
        }
    }
}

} // verus!
