//! What the notation of Arrow data types says.

use vstd::prelude::*;

use crate::arrow::metadata::{by_key, lemma_one_listing_by_key, lists_by_key};
use crate::arrow::notation::{
    annotation_text, element_text, field_text, field_texts, leaf_text, member_texts, metadata_text,
    quoted, type_text,
};
use crate::arrow::schema::{
    DataTypeView, FieldView, IntervalUnit, LeafType, TimeUnit, UnionMode,
};
use crate::text::{decimal_digits, separated, signed_digits};

verus! {

/// A type without parameters is called by its own name.
pub proof fn law_names_of_types()
    ensures
        leaf_text(LeafType::Null) == "Null"@,
        leaf_text(LeafType::Boolean) == "Boolean"@,
        leaf_text(LeafType::Int8) == "Int8"@,
        leaf_text(LeafType::Int16) == "Int16"@,
        leaf_text(LeafType::Int32) == "Int32"@,
        leaf_text(LeafType::Int64) == "Int64"@,
        leaf_text(LeafType::UInt8) == "UInt8"@,
        leaf_text(LeafType::UInt16) == "UInt16"@,
        leaf_text(LeafType::UInt32) == "UInt32"@,
        leaf_text(LeafType::UInt64) == "UInt64"@,
        leaf_text(LeafType::Float16) == "Float16"@,
        leaf_text(LeafType::Float32) == "Float32"@,
        leaf_text(LeafType::Float64) == "Float64"@,
        leaf_text(LeafType::Date32) == "Date32"@,
        leaf_text(LeafType::Date64) == "Date64"@,
        leaf_text(LeafType::Binary) == "Binary"@,
        leaf_text(LeafType::LargeBinary) == "LargeBinary"@,
        leaf_text(LeafType::BinaryView) == "BinaryView"@,
        leaf_text(LeafType::Utf8) == "Utf8"@,
        leaf_text(LeafType::LargeUtf8) == "LargeUtf8"@,
        leaf_text(LeafType::Utf8View) == "Utf8View"@,
{
}

/// The parameters of a decimal type are its precision and its scale, and the one of a binary type of
/// fixed size is its size. A negative number has its sign.
pub proof fn law_parameters_of_numbers(precision: u8, scale: i8, size: i32)
    ensures
        leaf_text(LeafType::Decimal32(precision, scale)) == "Decimal32("@ + (decimal_digits(
            precision as nat,
        ) + ", "@ + signed_digits(scale as int)) + ")"@,
        leaf_text(LeafType::Decimal64(precision, scale)) == "Decimal64("@ + (decimal_digits(
            precision as nat,
        ) + ", "@ + signed_digits(scale as int)) + ")"@,
        leaf_text(LeafType::Decimal128(precision, scale)) == "Decimal128("@ + (decimal_digits(
            precision as nat,
        ) + ", "@ + signed_digits(scale as int)) + ")"@,
        leaf_text(LeafType::Decimal256(precision, scale)) == "Decimal256("@ + (decimal_digits(
            precision as nat,
        ) + ", "@ + signed_digits(scale as int)) + ")"@,
        leaf_text(LeafType::FixedSizeBinary(size)) == "FixedSizeBinary("@ + signed_digits(
            size as int,
        ) + ")"@,
{
}

/// Whether a text is the symbol of a time unit.
pub open spec fn is_symbol_of(symbol: Seq<char>, unit: TimeUnit) -> bool {
    &&& unit == TimeUnit::Second ==> symbol == "s"@
    &&& unit == TimeUnit::Millisecond ==> symbol == "ms"@
    &&& unit == TimeUnit::Microsecond ==> symbol == "\u{b5}s"@
    &&& unit == TimeUnit::Nanosecond ==> symbol == "ns"@
}

/// A type of times has the symbol of its unit as its parameter; a timestamp with a zone has the zone
/// in quotes behind it.
pub proof fn law_parameters_of_times(unit: TimeUnit, zone: Seq<char>, symbol: Seq<char>)
    requires
        is_symbol_of(symbol, unit),
    ensures
        leaf_text(LeafType::Time32(unit)) == "Time32("@ + symbol + ")"@,
        leaf_text(LeafType::Time64(unit)) == "Time64("@ + symbol + ")"@,
        leaf_text(LeafType::Duration(unit)) == "Duration("@ + symbol + ")"@,
        type_text(DataTypeView::Timestamp(unit, None)) == "Timestamp("@ + symbol + ")"@,
        type_text(DataTypeView::Timestamp(unit, Some(zone))) == "Timestamp("@ + (symbol + ", "@
            + quoted(zone)) + ")"@,
        leaf_text(LeafType::Interval(IntervalUnit::YearMonth)) == "Interval("@ + "YearMonth"@
            + ")"@,
        leaf_text(LeafType::Interval(IntervalUnit::DayTime)) == "Interval("@ + "DayTime"@ + ")"@,
        leaf_text(LeafType::Interval(IntervalUnit::MonthDayNano)) == "Interval("@ + "MonthDayNano"@
            + ")"@,
{
}

/// A list has the notation of its element as its parameter, and one of fixed size that size before it.
pub proof fn law_notation_of_lists(element: FieldView, size: i32)
    ensures
        type_text(DataTypeView::List(Box::new(element))) == "List("@ + element_text(element) + ")"@,
        type_text(DataTypeView::ListView(Box::new(element))) == "ListView("@ + element_text(element)
            + ")"@,
        type_text(DataTypeView::LargeList(Box::new(element))) == "LargeList("@ + element_text(
            element,
        ) + ")"@,
        type_text(DataTypeView::LargeListView(Box::new(element))) == "LargeListView("@
            + element_text(element) + ")"@,
        type_text(DataTypeView::FixedSizeList(Box::new(element), size)) == "FixedSizeList("@ + (
        signed_digits(size as int) + " x "@ + element_text(element)) + ")"@,
{
}

/// A struct has the notations of all its fields as its parameters, in order.
pub proof fn law_notation_of_structs(fields: Seq<FieldView>)
    ensures
        type_text(DataTypeView::Struct(fields)) == "Struct("@ + separated(
            Seq::new(fields.len(), |i: int| field_text(fields[i])),
            ", "@,
        ) + ")"@,
{
    lemma_field_texts(fields);
}

proof fn lemma_field_texts(fields: Seq<FieldView>)
    ensures
        field_texts(fields) == Seq::new(fields.len(), |i: int| field_text(fields[i])),
    decreases fields.len(),
{
    if fields.len() > 0 {
        lemma_field_texts(fields.drop_last());
    }
    assert(field_texts(fields) =~= Seq::new(fields.len(), |i: int| field_text(fields[i])));
}

/// A union has its layout and then all its members as its parameters, each with its id before its
/// field.
pub proof fn law_notation_of_unions(members: Seq<(i8, FieldView)>, first: (i8, FieldView))
    ensures
        ({
            let all = seq![first] + members;
            let texts = Seq::new(
                all.len(),
                |i: int|
                    signed_digits(all[i].0 as int) + ": ("@ + field_text(all[i].1) + ")"@,
            );
            &&& type_text(DataTypeView::Union(all, UnionMode::Sparse)) == "Union("@ + ("Sparse"@
                + ", "@ + separated(texts, ", "@)) + ")"@
            &&& type_text(DataTypeView::Union(all, UnionMode::Dense)) == "Union("@ + ("Dense"@
                + ", "@ + separated(texts, ", "@)) + ")"@
        }),
{
    lemma_member_texts(seq![first] + members);
}

proof fn lemma_member_texts(members: Seq<(i8, FieldView)>)
    ensures
        member_texts(members) == Seq::new(
            members.len(),
            |i: int|
                signed_digits(members[i].0 as int) + ": ("@ + field_text(members[i].1) + ")"@,
        ),
    decreases members.len(),
{
    if members.len() > 0 {
        lemma_member_texts(members.drop_last());
    }
    assert(member_texts(members) =~= Seq::new(
        members.len(),
        |i: int| signed_digits(members[i].0 as int) + ": ("@ + field_text(members[i].1) + ")"@,
    ));
}

/// A dictionary has its two types as its parameters, a run-end encoding its two fields, and a map its
/// entries and whether its keys are sorted.
pub proof fn law_notation_of_pairs(
    keys: DataTypeView,
    values: DataTypeView,
    first: FieldView,
    second: FieldView,
)
    ensures
        type_text(DataTypeView::Dictionary(Box::new(keys), Box::new(values))) == "Dictionary("@ + (
        type_text(keys) + ", "@ + type_text(values)) + ")"@,
        type_text(DataTypeView::RunEndEncoded(Box::new(first), Box::new(second)))
            == "RunEndEncoded("@ + (field_text(first) + ", "@ + field_text(second)) + ")"@,
        type_text(DataTypeView::MapOf(Box::new(first), true)) == "Map("@ + (field_text(first)
            + ", sorted"@) + ")"@,
        type_text(DataTypeView::MapOf(Box::new(first), false)) == "Map("@ + (field_text(first)
            + ", unsorted"@) + ")"@,
{
}

/// A field that may be null and has no annotations is its name in quotes and its type. One that may
/// not be null says so, and annotations stand at the end.
pub proof fn law_notation_of_fields(
    name: Seq<char>,
    data_type: DataTypeView,
    metadata: Map<Seq<char>, Seq<char>>,
)
    ensures
        field_text(FieldView { name, data_type, nullable: true, metadata }) == quoted(name) + ": "@
            + type_text(data_type) + metadata_text(metadata),
        field_text(FieldView { name, data_type, nullable: false, metadata }) == quoted(name) + ": "@
            + "non-null "@ + type_text(data_type) + metadata_text(metadata),
{
    reveal_strlit("");
    let start = quoted(name) + ": "@;
    assert(start + ""@ =~= start);
}

/// The element of a list is its type, and has its name only where that is not the usual one.
pub proof fn law_notation_of_elements(
    name: Seq<char>,
    data_type: DataTypeView,
    metadata: Map<Seq<char>, Seq<char>>,
)
    ensures
        name == "item"@ ==> element_text(FieldView { name, data_type, nullable: true, metadata })
            == type_text(data_type) + metadata_text(metadata),
        name == "item"@ ==> element_text(FieldView { name, data_type, nullable: false, metadata })
            == "non-null "@ + type_text(data_type) + metadata_text(metadata),
        name != "item"@ ==> element_text(FieldView { name, data_type, nullable: true, metadata })
            == type_text(data_type) + (", field: '"@ + name + "'"@) + metadata_text(metadata),
        name != "item"@ ==> element_text(FieldView { name, data_type, nullable: false, metadata })
            == "non-null "@ + type_text(data_type) + (", field: '"@ + name + "'"@) + metadata_text(
            metadata,
        ),
{
    reveal_strlit("");
    let inside = type_text(data_type);
    assert(""@ + inside =~= inside);
    assert(inside + ""@ =~= inside);
    assert("non-null "@ + inside + ""@ =~= "non-null "@ + inside);
}

/// All annotations are listed, in the order of their keys: each key once, with its value, both in
/// quotes. Without annotations nothing is written.
pub proof fn law_notation_of_annotations(
    listing: Seq<(Seq<char>, Seq<char>)>,
    metadata: Map<Seq<char>, Seq<char>>,
)
    requires
        lists_by_key(listing, metadata),
    ensures
        listing.len() == 0 ==> metadata_text(metadata) == Seq::<char>::empty(),
        listing.len() > 0 ==> metadata_text(metadata) == ", metadata: {"@ + separated(
            Seq::new(
                listing.len(),
                |i: int| quoted(listing[i].0) + ": "@ + quoted(listing[i].1),
            ),
            ", "@,
        ) + "}"@,
{
    lemma_one_listing_by_key(listing, by_key(metadata), metadata);
    let texts = listing.map_values(|e: (Seq<char>, Seq<char>)| annotation_text(e));
    assert(texts =~= Seq::new(
        listing.len(),
        |i: int| quoted(listing[i].0) + ": "@ + quoted(listing[i].1),
    ));
}

/// A union without members has its layout alone as its parameter, and a struct without fields none.
pub proof fn law_notation_of_empty_types()
    ensures
        type_text(DataTypeView::Union(Seq::empty(), UnionMode::Sparse)) == "Union("@ + "Sparse"@
            + ")"@,
        type_text(DataTypeView::Union(Seq::empty(), UnionMode::Dense)) == "Union("@ + "Dense"@
            + ")"@,
        type_text(DataTypeView::Struct(Seq::empty())) == "Struct("@ + ")"@,
{
    reveal_strlit("");
    assert(member_texts(Seq::empty()) =~= Seq::<Seq<char>>::empty());
    assert(separated(Seq::<Seq<char>>::empty(), ", "@) =~= Seq::<char>::empty());
    assert("Sparse"@ + ""@ + Seq::<char>::empty() =~= "Sparse"@);
    assert("Dense"@ + ""@ + Seq::<char>::empty() =~= "Dense"@);
    assert(field_texts(Seq::empty()) =~= Seq::<Seq<char>>::empty());
    assert("Struct("@ + Seq::<char>::empty() =~= "Struct("@);
}

} // verus!
