//! What holds of the time zones of a coerced schema, field by field.

use vstd::prelude::*;

use crate::arrow::schema::{ArrowSchemaView, DataTypeView, FieldView, LeafType};
use crate::arrow::timestamp_tz::{
    coerced, coerced_schema, pair_field, rewrites, rewritten_type, visitable,
};
use crate::table::schema::{entry_by_id, FieldEntry, PrimitiveType};
use crate::text::parsed_i32;

verus! {

/// The fields that stand directly inside a type, in order.
pub open spec fn inner_fields(data_type: DataTypeView) -> Seq<FieldView>
    decreases data_type,
{
    match data_type {
        DataTypeView::List(element) => seq![*element],
        DataTypeView::ListView(element) => seq![*element],
        DataTypeView::FixedSizeList(element, _) => seq![*element],
        DataTypeView::LargeList(element) => seq![*element],
        DataTypeView::LargeListView(element) => seq![*element],
        DataTypeView::Struct(fields) => fields,
        DataTypeView::Union(members, _) => members.map_values(|m: (i8, FieldView)| m.1),
        DataTypeView::Dictionary(_, values) => inner_fields(*values),
        DataTypeView::MapOf(pair, _) => seq![*pair],
        DataTypeView::RunEndEncoded(ends, values) => seq![*ends, *values],
        _ => Seq::empty(),
    }
}

/// The field that is reached from `field` by going into the inner field at each position of `path`
/// in turn.
pub open spec fn field_at(field: FieldView, path: Seq<int>) -> Option<FieldView>
    decreases path.len(),
{
    if path.len() == 0 {
        Some(field)
    } else if 0 <= path[0] < inner_fields(field.data_type).len() {
        field_at(inner_fields(field.data_type)[path[0]], path.drop_first())
    } else {
        None
    }
}

/// Whether the id among a field's annotations is that of a table field with a zone.
pub open spec fn has_zone_in_table(field: FieldView, entries: Seq<FieldEntry>) -> bool {
    &&& field.metadata.contains_key("PARQUET:field_id"@)
    &&& parsed_i32(field.metadata["PARQUET:field_id"@]) matches Some(id)
    &&& entry_by_id(entries, id) matches Some(entry)
    &&& entry.primitive == Some(PrimitiveType::Timestamptz) || entry.primitive == Some(
        PrimitiveType::TimestamptzNs,
    )
}

/// Whether a field is a timestamp in another zone than that of the table, where the table field has
/// a zone.
pub open spec fn is_in_another_zone(field: FieldView, entries: Seq<FieldEntry>) -> bool {
    &&& field.data_type matches DataTypeView::Timestamp(_, Some(zone))
    &&& zone != "+00:00"@
    &&& has_zone_in_table(field, entries)
}

/// Whether two types are the same but for the fields inside them.
pub open spec fn same_outside(a: DataTypeView, b: DataTypeView) -> bool
    decreases a,
{
    match (a, b) {
        (DataTypeView::List(_), DataTypeView::List(_)) => true,
        (DataTypeView::LargeList(_), DataTypeView::LargeList(_)) => true,
        (DataTypeView::FixedSizeList(_, n), DataTypeView::FixedSizeList(_, m)) => n == m,
        (DataTypeView::Struct(xs), DataTypeView::Struct(ys)) => xs.len() == ys.len(),
        (DataTypeView::MapOf(_, s), DataTypeView::MapOf(_, t)) => s == t,
        (DataTypeView::Dictionary(k, v), DataTypeView::Dictionary(l, w)) => k == l && same_outside(
            *v,
            *w,
        ),
        _ => a == b,
    }
}

/// The type of the values, through all dictionaries.
pub open spec fn values_type(data_type: DataTypeView) -> DataTypeView
    decreases data_type,
{
    match data_type {
        DataTypeView::Dictionary(_, values) => values_type(*values),
        _ => data_type,
    }
}

/// Whether the walk over a schema has no way through a type, whatever is inside it: nulls, list
/// views, unions, run-end encodings, and maps whose entries are no pairs.
pub open spec fn has_no_way_through(data_type: DataTypeView) -> bool {
    match values_type(data_type) {
        DataTypeView::Leaf(leaf) => leaf == LeafType::Null,
        DataTypeView::ListView(_) => true,
        DataTypeView::LargeListView(_) => true,
        DataTypeView::Union(_, _) => true,
        DataTypeView::RunEndEncoded(_, _) => true,
        DataTypeView::MapOf(pair, _) => match pair.data_type {
            DataTypeView::Struct(fields) => fields.len() != 2,
            _ => true,
        },
        _ => false,
    }
}

/// Whether `data_type` is the type of `field`, or the values of a dictionary that is.
spec fn belongs_to(data_type: DataTypeView, field: FieldView) -> bool {
    field.data_type == data_type || field.data_type is Dictionary
}

/// The fields inside a rebuilt type are the rebuilt fields inside the type.
proof fn lemma_inside_of_coerced(
    field: FieldView,
    data_type: DataTypeView,
    entries: Seq<FieldEntry>,
    i: int,
)
    requires
        visitable(data_type),
    ensures
        ({
            let before = inner_fields(data_type);
            let after = inner_fields(coerced(field, data_type, entries).data_type);
            &&& belongs_to(data_type, field) ==> before.len() == after.len()
            &&& belongs_to(data_type, field) && 0 <= i < before.len() ==> after[i] == coerced(
                before[i],
                before[i].data_type,
                entries,
            )
            &&& 0 <= i < before.len() ==> visitable(before[i].data_type)
        }),
    decreases data_type,
{
    match data_type {
        DataTypeView::Dictionary(_, values) => lemma_inside_of_coerced(
            field,
            *values,
            entries,
            i,
        ),
        DataTypeView::MapOf(pair, _) => {
            let fields = pair.data_type->Struct_0;
            let key = coerced(fields[0], fields[0].data_type, entries);
            let value = coerced(fields[1], fields[1].data_type, entries);
            let rebuilt = coerced(*pair, pair.data_type, entries);
            assert(rebuilt.data_type->Struct_0 =~= seq![key, value]);
            assert(rebuilt == pair_field(*pair, key, value));
        },
        _ => {},
    }
}

proof fn lemma_coerced_at(field: FieldView, entries: Seq<FieldEntry>, path: Seq<int>)
    requires
        visitable(field.data_type),
    ensures
        field_at(coerced(field, field.data_type, entries), path) == (match field_at(field, path) {
            Some(inner) => Some(coerced(inner, inner.data_type, entries)),
            None => None,
        }),
        field_at(field, path) matches Some(inner) ==> visitable(inner.data_type),
    decreases path.len(),
{
    if path.len() > 0 {
        let inside = inner_fields(field.data_type);
        lemma_inside_of_coerced(field, field.data_type, entries, path[0]);
        if 0 <= path[0] < inside.len() {
            lemma_coerced_at(inside[path[0]], entries, path.drop_first());
        }
    }
}

proof fn lemma_same_outside_of_coerced(
    field: FieldView,
    data_type: DataTypeView,
    entries: Seq<FieldEntry>,
)
    requires
        visitable(data_type),
        belongs_to(data_type, field),
        !is_in_another_zone(field, entries),
    ensures
        same_outside(data_type, coerced(field, data_type, entries).data_type),
    decreases data_type,
{
    if let DataTypeView::Dictionary(_, values) = data_type {
        lemma_same_outside_of_coerced(field, *values, entries);
    }
}

/// Each field of a rebuilt field is the field that stood there, at every depth: it has its name,
/// nullability and annotations, and its type but for the fields inside. Only a timestamp in another
/// zone, whose table field has a zone, has another type: the same in the zone `+00:00`.
pub proof fn law_fields_change_only_in_their_zone(
    field: FieldView,
    entries: Seq<FieldEntry>,
    path: Seq<int>,
)
    requires
        visitable(field.data_type),
    ensures
        ({
            let rebuilt = coerced(field, field.data_type, entries);
            &&& field_at(rebuilt, path) is Some <==> field_at(field, path) is Some
            &&& field_at(field, path) matches Some(before) ==> {
                let after = field_at(rebuilt, path)->0;
                &&& after.name == before.name
                &&& after.nullable == before.nullable
                &&& after.metadata == before.metadata
                &&& if is_in_another_zone(before, entries) {
                    before.data_type matches DataTypeView::Timestamp(unit, _) && after.data_type
                        == DataTypeView::Timestamp(unit, Some("+00:00"@))
                } else {
                    same_outside(before.data_type, after.data_type)
                }
            }
        }),
{
    lemma_coerced_at(field, entries, path);
    if let Some(before) = field_at(field, path) {
        if !is_in_another_zone(before, entries) {
            lemma_same_outside_of_coerced(before, before.data_type, entries);
        }
    }
}

/// After coercion no field at any depth is a timestamp in a zone other than `+00:00` where the table
/// field has a zone.
pub proof fn law_no_other_zone_is_left(
    schema: ArrowSchemaView,
    entries: Seq<FieldEntry>,
    i: int,
    path: Seq<int>,
)
    requires
        coerced_schema(schema, entries) matches Some(r) && 0 <= i < r.fields.len(),
    ensures
        coerced_schema(schema, entries) matches Some(r) && (field_at(
            r.fields[i],
            path,
        ) matches Some(field) ==> !is_in_another_zone(field, entries)),
{
    let field = schema.fields[i];
    lemma_coerced_at(field, entries, path);
    law_fields_change_only_in_their_zone(field, entries, path);
    if let Some(before) = field_at(field, path) {
        let after = coerced(before, before.data_type, entries);
        if is_in_another_zone(after, entries) {
            assert(after.data_type is Timestamp);
            assert(has_zone_in_table(before, entries));
        }
    }
}

proof fn lemma_other_zone_is_found(field: FieldView, entries: Seq<FieldEntry>, path: Seq<int>)
    requires
        visitable(field.data_type),
        field_at(field, path) matches Some(inner) && is_in_another_zone(inner, entries),
    ensures
        rewrites(field, field.data_type, entries),
    decreases path.len(),
{
    if path.len() > 0 {
        let inside = inner_fields(field.data_type);
        lemma_inside_of_coerced(field, field.data_type, entries, path[0]);
        lemma_other_zone_is_found(inside[path[0]], entries, path.drop_first());
        lemma_rewritten_inside(field, field.data_type, entries, path[0]);
    }
}

proof fn lemma_rewritten_inside(
    field: FieldView,
    data_type: DataTypeView,
    entries: Seq<FieldEntry>,
    i: int,
)
    requires
        visitable(data_type),
        0 <= i < inner_fields(data_type).len(),
        rewrites(inner_fields(data_type)[i], inner_fields(data_type)[i].data_type, entries),
    ensures
        rewrites(field, data_type, entries),
    decreases data_type,
{
    match data_type {
        DataTypeView::Dictionary(_, values) => lemma_rewritten_inside(field, *values, entries, i),
        DataTypeView::MapOf(pair, _) => {
            let fields = pair.data_type->Struct_0;
            let k = choose|k: int|
                0 <= k < fields.len() && rewrites(
                    #[trigger] fields[k],
                    fields[k].data_type,
                    entries,
                );
            assert(k == 0 || k == 1);
        },
        _ => {},
    }
}

/// A schema that can be walked is coerced as soon as one field in it, at any depth, is a timestamp
/// in another zone whose table field has a zone. Its nullability, its unit, its name and the place
/// where it stands make no difference.
pub proof fn law_every_other_zone_is_replaced(
    schema: ArrowSchemaView,
    entries: Seq<FieldEntry>,
    i: int,
    path: Seq<int>,
)
    requires
        forall|k: int|
            0 <= k < schema.fields.len() ==> visitable((#[trigger] schema.fields[k]).data_type),
        0 <= i < schema.fields.len(),
        field_at(schema.fields[i], path) matches Some(field) && is_in_another_zone(field, entries),
    ensures
        coerced_schema(schema, entries) matches Some(r) && {
            &&& r.fields.len() == schema.fields.len()
            &&& field_at(schema.fields[i], path)->0.data_type matches DataTypeView::Timestamp(unit, _)
            &&& field_at(r.fields[i], path) matches Some(after) && after.data_type
                == DataTypeView::Timestamp(unit, Some("+00:00"@))
        },
{
    assert(visitable(schema.fields[i].data_type));
    lemma_other_zone_is_found(schema.fields[i], entries, path);
    law_fields_change_only_in_their_zone(schema.fields[i], entries, path);
}

proof fn lemma_rewritten_field(
    field: FieldView,
    data_type: DataTypeView,
    entries: Seq<FieldEntry>,
) -> (path: Seq<int>)
    requires
        visitable(data_type),
        belongs_to(data_type, field),
        rewrites(field, data_type, entries),
    ensures
        path.len() == 0 ==> is_in_another_zone(field, entries) && field.data_type == data_type,
        path.len() > 0 ==> 0 <= path[0] < inner_fields(data_type).len(),
        path.len() > 0 ==> (field_at(
            inner_fields(data_type)[path[0]],
            path.drop_first(),
        ) matches Some(inner) && is_in_another_zone(inner, entries)),
    decreases data_type,
{
    match data_type {
        DataTypeView::List(element) => lemma_rewritten_element(*element, entries),
        DataTypeView::LargeList(element) => lemma_rewritten_element(*element, entries),
        DataTypeView::FixedSizeList(element, _) => lemma_rewritten_element(*element, entries),
        DataTypeView::Struct(fields) => {
            let i = choose|i: int|
                0 <= i < fields.len() && rewrites(
                    #[trigger] fields[i],
                    fields[i].data_type,
                    entries,
                );
            let rest = lemma_rewritten_field(fields[i], fields[i].data_type, entries);
            assert((seq![i] + rest).drop_first() =~= rest);
            assert(field_at(fields[i], rest) is Some);
            seq![i] + rest
        },
        DataTypeView::MapOf(pair, _) => {
            let fields = pair.data_type->Struct_0;
            let i: int = if rewrites(fields[0], fields[0].data_type, entries) {
                0
            } else {
                1
            };
            let rest = lemma_rewritten_field(fields[i], fields[i].data_type, entries);
            let inner = seq![i] + rest;
            assert(inner.drop_first() =~= rest);
            assert(inner_fields(pair.data_type) == fields);
            assert(field_at(*pair, inner) == field_at(fields[i], rest));
            assert((seq![0int] + inner).drop_first() =~= inner);
            seq![0int] + inner
        },
        DataTypeView::Dictionary(_, values) => lemma_rewritten_field(field, *values, entries),
        _ => Seq::empty(),
    }
}

proof fn lemma_rewritten_element(element: FieldView, entries: Seq<FieldEntry>) -> (path: Seq<int>)
    requires
        visitable(element.data_type),
        rewrites(element, element.data_type, entries),
    ensures
        path.len() > 0,
        path[0] == 0,
        field_at(element, path.drop_first()) matches Some(inner) && is_in_another_zone(
            inner,
            entries,
        ),
    decreases element,
{
    let rest = lemma_rewritten_field(element, element.data_type, entries);
    assert((seq![0int] + rest).drop_first() =~= rest);
    assert(field_at(element, rest) is Some);
    seq![0int] + rest
}

/// A schema is coerced only where a field in it is a timestamp in another zone whose table field has
/// a zone.
pub proof fn law_only_other_zones_are_replaced(
    schema: ArrowSchemaView,
    entries: Seq<FieldEntry>,
) -> (r: (int, Seq<int>))
    requires
        coerced_schema(schema, entries) is Some,
    ensures
        0 <= r.0 < schema.fields.len(),
        field_at(schema.fields[r.0], r.1) matches Some(field) && is_in_another_zone(
            field,
            entries,
        ),
{
    let i = choose|i: int|
        0 <= i < schema.fields.len() && rewrites(
            #[trigger] schema.fields[i],
            schema.fields[i].data_type,
            entries,
        );
    let path = lemma_rewritten_field(schema.fields[i], schema.fields[i].data_type, entries);
    (i, path)
}

proof fn lemma_way_through(data_type: DataTypeView)
    requires
        visitable(data_type),
    ensures
        !has_no_way_through(data_type),
    decreases data_type,
{
    if let DataTypeView::Dictionary(_, values) = data_type {
        lemma_way_through(*values);
    }
}

proof fn lemma_no_way_inside(data_type: DataTypeView) -> (path: Seq<int>)
    requires
        !visitable(data_type),
    ensures
        path.len() == 0 ==> has_no_way_through(data_type),
        path.len() > 0 ==> 0 <= path[0] < inner_fields(data_type).len(),
        path.len() > 0 ==> (field_at(
            inner_fields(data_type)[path[0]],
            path.drop_first(),
        ) matches Some(inner) && has_no_way_through(inner.data_type)),
    decreases data_type,
{
    match data_type {
        DataTypeView::List(element) => lemma_no_way_in_element(*element),
        DataTypeView::LargeList(element) => lemma_no_way_in_element(*element),
        DataTypeView::FixedSizeList(element, _) => lemma_no_way_in_element(*element),
        DataTypeView::Struct(fields) => {
            let i = choose|i: int|
                0 <= i < fields.len() && !visitable((#[trigger] fields[i]).data_type);
            let rest = lemma_no_way_inside(fields[i].data_type);
            assert((seq![i] + rest).drop_first() =~= rest);
            assert(field_at(fields[i], rest) is Some);
            seq![i] + rest
        },
        DataTypeView::MapOf(pair, _) => {
            if has_no_way_through(data_type) {
                Seq::empty()
            } else {
                let fields = pair.data_type->Struct_0;
                let i: int = if !visitable(fields[0].data_type) {
                    0
                } else {
                    1
                };
                let rest = lemma_no_way_inside(fields[i].data_type);
                let inner = seq![i] + rest;
                assert(inner.drop_first() =~= rest);
                assert(inner_fields(pair.data_type) == fields);
                assert(field_at(*pair, inner) == field_at(fields[i], rest));
                assert((seq![0int] + inner).drop_first() =~= inner);
                seq![0int] + inner
            }
        },
        DataTypeView::Dictionary(_, values) => lemma_no_way_inside(*values),
        _ => Seq::empty(),
    }
}

proof fn lemma_no_way_in_element(element: FieldView) -> (path: Seq<int>)
    requires
        !visitable(element.data_type),
    ensures
        path.len() > 0,
        path[0] == 0,
        field_at(element, path.drop_first()) matches Some(inner) && has_no_way_through(
            inner.data_type,
        ),
    decreases element,
{
    let rest = lemma_no_way_inside(element.data_type);
    assert((seq![0int] + rest).drop_first() =~= rest);
    assert(field_at(element, rest) is Some);
    seq![0int] + rest
}

/// The walk passes through a field exactly if there is a way through the type of each field in it,
/// at every depth.
pub proof fn law_fields_that_can_be_walked(field: FieldView)
    ensures
        visitable(field.data_type) <==> (forall|path: Seq<int>|
            (#[trigger] field_at(field, path)) matches Some(inner) ==> !has_no_way_through(
                inner.data_type,
            )),
{
    if visitable(field.data_type) {
        assert forall|path: Seq<int>| (#[trigger] field_at(field, path)) is Some implies
            !has_no_way_through(field_at(field, path)->0.data_type) by {
            lemma_coerced_at(field, Seq::empty(), path);
            lemma_way_through(field_at(field, path)->0.data_type);
        }
    } else {
        let path = lemma_no_way_inside(field.data_type);
        assert(field_at(field, path) is Some);
    }
}

/// A field is rewritten if and only if it is a timestamp in another zone whose table field has a zone,
/// and then to a timestamp of the same unit in the zone `+00:00`.
pub proof fn law_fields_in_another_zone_are_rewritten(field: FieldView, entries: Seq<FieldEntry>)
    ensures
        rewritten_type(field, entries) is Some <==> is_in_another_zone(field, entries),
        rewritten_type(field, entries) matches Some(rewritten) ==> {
            &&& field.data_type matches DataTypeView::Timestamp(unit, _)
            &&& rewritten == DataTypeView::Timestamp(unit, Some("+00:00"@))
        },
{
}

/// A coerced schema has the annotations of the schema, and as many columns. The coercion goes by each
/// column alone.
pub proof fn law_columns_are_coerced_one_by_one(
    schema: ArrowSchemaView,
    entries: Seq<FieldEntry>,
    i: int,
)
    requires
        0 <= i < schema.fields.len(),
    ensures
        coerced_schema(schema, entries) matches Some(r) ==> {
            &&& r.metadata == schema.metadata
            &&& r.fields.len() == schema.fields.len()
            &&& r.fields[i] == coerced(schema.fields[i], schema.fields[i].data_type, entries)
            &&& visitable(schema.fields[i].data_type)
        },
{
}

} // verus!
