//! The ordering that a table's sort order gives to the rows of one data file.

use vstd::prelude::*;

use std::sync::Arc;

use crate::arrow::schema::{lemma_position_of, position_of, ArrowSchema, FieldView};
use crate::physical_expr::{
    accessed_field, get_field_call, Column, ColumnView, ExprView, PhysicalExpr, ScalarFunctionExpr,
    ScalarView,
};
use crate::physical_optimizer::get_field_chain::{
    get_field_chain, law_built_calls_are_recognized,
};
use crate::physical_plan::ordering::{
    distinct_keys, law_distinct_keys_stay, law_every_expression_is_kept,
    law_first_keys_give_a_prefix, law_first_occurrences_are_kept, law_kept_keys_are_keys,
    law_prefix_is_an_ordering, law_repeats_do_not_matter, lexicographic, sort_views, without_repeats, LexOrdering,
    PhysicalSortExpr, SortExprView, SortOptions,
};
use crate::table::partition::Transform;
use crate::table::schema::{
    distinct_ids, distinct_paths, entry_by_id, law_top_level_fields_are_found, lemma_entry_by_id,
    lemma_found_by_id, lemma_list_called_by_path, FieldEntry, IndexedField, Schema,
};
use crate::table::sort_order::{NullOrder, SortDirection, SortField, SortOrder};
use crate::text::texts;

verus! {

/// The expression that reads the field at a path of names: a column, or a call of `get_field` that
/// goes from the column through the rest of the path. There is none where the columns do not hold
/// the field.
pub open spec fn path_expr(path: Seq<Seq<char>>, columns: Seq<FieldView>) -> Option<ExprView> {
    match position_of(columns, path[0]) {
        Some(i) => {
            let column = ColumnView { name: path[0], index: i as usize };
            let rest = path.drop_first();
            if rest.len() == 0 {
                Some(ExprView::Column(column))
            } else {
                match accessed_field(columns[i], rest) {
                    Some(field) => Some(get_field_call(column, rest, field)),
                    None => None,
                }
            }
        },
        None => None,
    }
}

/// The expression that reads the field with the given id.
pub open spec fn source_expr(
    source_id: i32,
    entries: Seq<FieldEntry>,
    columns: Seq<FieldView>,
) -> Option<ExprView> {
    match entry_by_id(entries, source_id) {
        Some(entry) => path_expr(entry.path, columns),
        None => None,
    }
}

/// The sort expression for a field of a sort order. There is none for a field that is transformed
/// before it is sorted by, nor for one that the columns do not hold.
pub open spec fn sort_key(
    field: SortField,
    entries: Seq<FieldEntry>,
    columns: Seq<FieldView>,
) -> Option<SortExprView> {
    if field.transform == Transform::Identity {
        match source_expr(field.source_id, entries, columns) {
            Some(expr) => Some(
                SortExprView {
                    expr,
                    options: SortOptions {
                        descending: field.direction == SortDirection::Descending,
                        nulls_first: field.null_order == NullOrder::First,
                    },
                },
            ),
            None => None,
        }
    } else {
        None
    }
}

/// The sort expressions for the fields of a sort order, up to the first field that has none.
pub open spec fn sort_keys(
    fields: Seq<SortField>,
    entries: Seq<FieldEntry>,
    columns: Seq<FieldView>,
) -> Seq<SortExprView>
    decreases fields.len(),
{
    if fields.len() == 0 {
        Seq::empty()
    } else {
        match sort_key(fields.first(), entries, columns) {
            Some(key) => seq![key] + sort_keys(fields.drop_first(), entries, columns),
            None => Seq::empty(),
        }
    }
}

/// The ordering of the rows of a file that is sorted by the fields of a sort order.
pub open spec fn file_ordering(
    fields: Seq<SortField>,
    entries: Seq<FieldEntry>,
    columns: Seq<FieldView>,
) -> Option<Seq<SortExprView>> {
    let keys = sort_keys(fields, entries, columns);
    if keys.len() == 0 {
        None
    } else {
        Some(without_repeats(keys))
    }
}

/// Makes the expression that reads the field with the given id, if the projected columns hold it.
/// A field of the schema's top level is read by a column of its name, and a nested field by one
/// call of `get_field` with all names on its path behind the first.
fn build_sort_expr(source_id: i32, schema: &Schema, projected: &ArrowSchema) -> (r: Option<
    PhysicalExpr,
>)
    ensures
        match r {
            Some(expr) => source_expr(source_id, schema.entries(), projected@.fields) == Some(
                expr@,
            ),
            None => source_expr(source_id, schema.entries(), projected@.fields) is None,
        },
{
    let field: &IndexedField = match schema.field_by_id(source_id) {
        Some(field) => field,
        None => {
            return None;
        },
    };
    let path: &Vec<String> = &field.path;
    proof {
        assert(texts(path@).len() == path@.len());
        assert(texts(path@)[0] == path@[0]@);
    }
    let index: usize = match projected.column_with_name(path[0].as_str()) {
        Some(index) => index,
        None => {
            return None;
        },
    };
    let column: Column = Column::new(path[0].as_str(), index);
    if path.len() == 1 {
        return Some(PhysicalExpr::Column(column));
    }
    let mut rest: Vec<String> = Vec::new();
    let mut i: usize = 1;
    while i < path.len()
        invariant
            1 <= i <= path@.len(),
            rest@.len() == i - 1,
            forall|j: int| 0 <= j < i - 1 ==> #[trigger] rest@[j] == path@[j + 1],
        decreases path@.len() - i,
    {
        rest.push(path[i].clone());
        i += 1;
    }
    assert(texts(rest@) =~= texts(path@).drop_first());
    match ScalarFunctionExpr::try_get_field(&projected.fields, column, &rest) {
        Some(call) => Some(PhysicalExpr::ScalarFunction(call)),
        None => None,
    }
}

proof fn lemma_sort_keys_step(
    fields: Seq<SortField>,
    entries: Seq<FieldEntry>,
    columns: Seq<FieldView>,
    i: int,
)
    requires
        0 <= i < fields.len(),
        sort_keys(fields.take(i), entries, columns).len() == i,
    ensures
        match sort_key(fields[i], entries, columns) {
            Some(key) => sort_keys(fields.take(i + 1), entries, columns) == sort_keys(
                fields.take(i),
                entries,
                columns,
            ).push(key),
            None => sort_keys(fields, entries, columns) == sort_keys(
                fields.take(i),
                entries,
                columns,
            ),
        },
    decreases i,
{
    let front = fields.take(i);
    let longer = fields.take(i + 1);
    assert(longer.first() == fields.first());
    if i == 0 {
        assert(front =~= Seq::<SortField>::empty());
        assert(longer.drop_first() =~= Seq::<SortField>::empty());
        if let Some(key) = sort_key(fields[0], entries, columns) {
            assert(sort_keys(Seq::<SortField>::empty(), entries, columns) =~= Seq::<
                SortExprView,
            >::empty());
            assert(seq![key] + Seq::<SortExprView>::empty() =~= Seq::<SortExprView>::empty().push(
                key,
            ));
        }
    } else {
        let tail = fields.drop_first();
        assert(front.first() == fields.first());
        assert(front.drop_first() =~= tail.take(i - 1));
        assert(longer.drop_first() =~= tail.take(i));
        assert(tail[i - 1] == fields[i]);
        lemma_sort_keys_step(tail, entries, columns, i - 1);
        let first = sort_key(fields.first(), entries, columns)->0;
        if let Some(key) = sort_key(fields[i], entries, columns) {
            let before = sort_keys(tail.take(i - 1), entries, columns);
            assert(seq![first] + before.push(key) =~= (seq![first] + before).push(key));
        }
    }
}

/// Translates a table's sort order into the ordering of the rows of one data file, over the
/// projected columns.
///
/// Only fields that are sorted by as they are order the rows of a file. At the first other field,
/// or at the first field that the columns do not hold, the translation stops: what it has until
/// then is an ordering still. `None` if that is nothing.
pub fn translate_sort_order(
    sort_order: &SortOrder,
    schema: &Schema,
    projected: &ArrowSchema,
) -> (r: Option<LexOrdering>)
    ensures
        match r {
            Some(ordering) => file_ordering(
                sort_order.fields@,
                schema.entries(),
                projected@.fields,
            ) == Some(ordering@),
            None => file_ordering(sort_order.fields@, schema.entries(), projected@.fields) is None,
        },
{
    let ghost fields = sort_order.fields@;
    let ghost entries = schema.entries();
    let ghost columns = projected@.fields;
    if sort_order.is_unsorted() {
        return None;
    }
    let mut exprs: Vec<PhysicalSortExpr> = Vec::new();
    let mut i: usize = 0;
    proof {
        assert(fields.take(0) =~= Seq::<SortField>::empty());
        assert(fields.take(fields.len() as int) =~= fields);
        assert(sort_views(exprs@) =~= sort_keys(fields.take(0), entries, columns));
    }
    while i < sort_order.fields.len()
        invariant_except_break
            i <= fields.len(),
            exprs@.len() == i,
            sort_views(exprs@) == sort_keys(fields.take(i as int), entries, columns),
        invariant
            fields == sort_order.fields@,
            entries == schema.entries(),
            columns == projected@.fields,
            fields.take(fields.len() as int) == fields,
        ensures
            sort_views(exprs@) == sort_keys(fields, entries, columns),
        decreases fields.len() - i,
    {
        let ghost before = sort_views(exprs@);
        proof {
            lemma_sort_keys_step(fields, entries, columns, i as int);
        }
        let field: SortField = sort_order.fields[i];
        if field.transform != Transform::Identity {
            break;
        }
        match build_sort_expr(field.source_id, schema, projected) {
            Some(expr) => {
                let options: SortOptions = SortOptions {
                    descending: field.direction == SortDirection::Descending,
                    nulls_first: field.null_order == NullOrder::First,
                };
                let ghost key = SortExprView { expr: expr@, options };
                exprs.push(PhysicalSortExpr { expr: Arc::new(expr), options });
                assert(sort_views(exprs@) =~= before.push(key));
            },
            None => {
                break;
            },
        }
        i += 1;
    }
    assert(sort_views(exprs@).len() == exprs@.len());
    LexOrdering::new(exprs)
}

/// There is no ordering exactly where the sort order has no fields, or where its first field is
/// transformed or not held by the columns.
pub proof fn law_no_ordering_without_a_first_key(
    fields: Seq<SortField>,
    entries: Seq<FieldEntry>,
    columns: Seq<FieldView>,
)
    ensures
        file_ordering(fields, entries, columns) is None <==> fields.len() == 0 || sort_key(
            fields[0],
            entries,
            columns,
        ) is None,
{
}

/// A field of the schema's top level is read by the column of its whole name, if there is one.
pub proof fn law_top_level_fields_are_columns(schema: Schema, i: int, columns: Seq<FieldView>)
    requires
        0 <= i < schema.top_level().len(),
        distinct_ids(schema.entries()),
    ensures
        ({
            let name = schema.top_level()[i].name@;
            source_expr(schema.top_level()[i].id, schema.entries(), columns) == (match position_of(
                columns,
                name,
            ) {
                Some(index) => Some(ExprView::Column(ColumnView { name, index: index as usize })),
                None => None,
            })
        }),
{
    law_top_level_fields_are_found(schema, i);
}

/// Whether no two fields of a sort order sort by the same source.
pub open spec fn distinct_sources(fields: Seq<SortField>) -> bool {
    forall|i: int, j: int|
        0 <= i < j < fields.len() ==> (#[trigger] fields[i]).source_id != (
        #[trigger] fields[j]).source_id
}

/// Whether `count` is how many fields stand before the first one that cannot be ordered by.
pub open spec fn usable_fields(
    fields: Seq<SortField>,
    entries: Seq<FieldEntry>,
    columns: Seq<FieldView>,
    count: int,
) -> bool {
    &&& 0 <= count <= fields.len()
    &&& forall|i: int|
        0 <= i < count ==> sort_key(#[trigger] fields[i], entries, columns) is Some
    &&& count < fields.len() ==> sort_key(fields[count], entries, columns) is None
}

proof fn lemma_usable_keys(
    fields: Seq<SortField>,
    entries: Seq<FieldEntry>,
    columns: Seq<FieldView>,
    count: int,
)
    requires
        usable_fields(fields, entries, columns, count),
    ensures
        sort_keys(fields, entries, columns).len() == count,
        forall|i: int|
            0 <= i < count ==> Some(#[trigger] sort_keys(fields, entries, columns)[i]) == sort_key(
                fields[i],
                entries,
                columns,
            ),
    decreases fields.len(),
{
    if count > 0 {
        let tail = fields.drop_first();
        let keys = sort_keys(fields, entries, columns);
        let rest = sort_keys(tail, entries, columns);
        assert(sort_key(fields[0], entries, columns) is Some);
        assert forall|i: int| 0 <= i < count - 1 implies sort_key(
            #[trigger] tail[i],
            entries,
            columns,
        ) is Some by {
            assert(tail[i] == fields[i + 1]);
        }
        lemma_usable_keys(tail, entries, columns, count - 1);
        assert forall|i: int| 0 <= i < count implies Some(#[trigger] keys[i]) == sort_key(
            fields[i],
            entries,
            columns,
        ) by {
            if i > 0 {
                assert(keys[i] == rest[i - 1]);
                assert(tail[i - 1] == fields[i]);
            }
        }
    }
}

proof fn lemma_path_of_expr(a: Seq<Seq<char>>, b: Seq<Seq<char>>, columns: Seq<FieldView>)
    requires
        a.len() > 0,
        b.len() > 0,
        path_expr(a, columns) is Some,
        path_expr(a, columns) == path_expr(b, columns),
    ensures
        a == b,
{
    let rest_a = a.drop_first();
    let rest_b = b.drop_first();
    let literal = |segment: Seq<char>| ExprView::Literal(ScalarView::Utf8(Some(segment)));
    if rest_a.len() > 0 && rest_b.len() > 0 {
        let i = position_of(columns, a[0])->0;
        let j = position_of(columns, b[0])->0;
        let args_a = seq![ExprView::Column(ColumnView { name: a[0], index: i as usize })]
            + rest_a.map_values(literal);
        let args_b = seq![ExprView::Column(ColumnView { name: b[0], index: j as usize })]
            + rest_b.map_values(literal);
        assert(args_a == args_b);
        assert(args_a[0] == args_b[0]);
        assert(args_a.len() == args_b.len());
        assert forall|k: int| 0 <= k < rest_a.len() implies rest_a[k] == rest_b[k] by {
            assert(args_a[k + 1] == literal(rest_a[k]));
            assert(args_b[k + 1] == literal(rest_b[k]));
        }
        assert(rest_a =~= rest_b);
    }
    assert(a =~= seq![a[0]] + rest_a);
    assert(b =~= seq![b[0]] + rest_b);
    assert(rest_a =~= rest_b);
}

/// A sort order that sorts by each source once has keys with different expressions, if fields with
/// different ids stand at different paths.
pub proof fn law_distinct_sources_have_distinct_keys(
    fields: Seq<SortField>,
    schema: Schema,
    columns: Seq<FieldView>,
)
    requires
        distinct_sources(fields),
        distinct_paths(schema.entries()),
    ensures
        distinct_keys(sort_keys(fields, schema.entries(), columns)),
{
    let entries = schema.entries();
    let keys = sort_keys(fields, entries, columns);
    let count = lemma_usable_count(fields, entries, columns);
    lemma_usable_keys(fields, entries, columns, count);
    assert forall|i: int, j: int| 0 <= i < j < keys.len() implies (#[trigger] keys[i]).expr != (
    #[trigger] keys[j]).expr by {
        let a = lemma_found_by_id(entries, fields[i].source_id);
        let b = lemma_found_by_id(entries, fields[j].source_id);
        lemma_list_called_by_path(schema.top_level(), Seq::empty(), a);
        lemma_list_called_by_path(schema.top_level(), Seq::empty(), b);
        assert(Some(keys[i]) == sort_key(fields[i], entries, columns));
        assert(Some(keys[j]) == sort_key(fields[j], entries, columns));
        if keys[i].expr == keys[j].expr {
            lemma_path_of_expr(entries[a].path, entries[b].path, columns);
        }
    }
}

/// A sort order whose keys have different expressions gives one key for each field before the
/// first one that cannot be ordered by, in their order, and nothing for the fields behind.
pub proof fn law_one_key_for_each_usable_field(
    fields: Seq<SortField>,
    entries: Seq<FieldEntry>,
    columns: Seq<FieldView>,
    count: int,
)
    requires
        distinct_keys(sort_keys(fields, entries, columns)),
        usable_fields(fields, entries, columns, count),
    ensures
        file_ordering(fields, entries, columns) is None <==> count == 0,
        file_ordering(fields, entries, columns) matches Some(keys) ==> {
            &&& keys.len() == count
            &&& forall|i: int|
                #![trigger keys[i]]
                0 <= i < count ==> {
                    &&& source_expr(fields[i].source_id, entries, columns) == Some(keys[i].expr)
                    &&& keys[i].options.descending <==> fields[i].direction
                        == SortDirection::Descending
                    &&& keys[i].options.nulls_first <==> fields[i].null_order == NullOrder::First
                }
        },
{
    let keys = sort_keys(fields, entries, columns);
    lemma_usable_keys(fields, entries, columns, count);
    law_distinct_keys_stay(keys);
    assert forall|i: int| 0 <= i < count implies Some(#[trigger] keys[i]) == sort_key(
        fields[i],
        entries,
        columns,
    ) by {}
}

proof fn lemma_usable_count(
    fields: Seq<SortField>,
    entries: Seq<FieldEntry>,
    columns: Seq<FieldView>,
) -> (count: int)
    ensures
        usable_fields(fields, entries, columns, count),
    decreases fields.len(),
{
    if fields.len() == 0 || sort_key(fields[0], entries, columns) is None {
        0
    } else {
        let tail = fields.drop_first();
        let count = lemma_usable_count(tail, entries, columns) + 1;
        assert forall|i: int| 0 <= i < count implies sort_key(
            #[trigger] fields[i],
            entries,
            columns,
        ) is Some by {
            if i > 0 {
                assert(tail[i - 1] == fields[i]);
            }
        }
        if count < fields.len() {
            assert(tail[count - 1] == fields[count]);
        }
        count
    }
}

/// The expression that reads a field is a chain that leads back to the field: from the column of
/// the first name on its path through the names behind it.
pub proof fn law_sort_expressions_read_their_fields(
    source_id: i32,
    schema: Schema,
    columns: Seq<FieldView>,
)
    requires
        source_expr(source_id, schema.entries(), columns) is Some,
    ensures
        ({
            let entry = entry_by_id(schema.entries(), source_id)->0;
            let chain = get_field_chain(source_expr(source_id, schema.entries(), columns)->0);
            &&& entry_by_id(schema.entries(), source_id) is Some
            &&& chain is Some
            &&& seq![chain->0.column.name] + chain->0.path == entry.path
            &&& position_of(columns, entry.path[0]) matches Some(index) && chain->0.column.index
                == index as usize
        }),
{
    let i = lemma_found_by_id(schema.entries(), source_id);
    lemma_list_called_by_path(schema.top_level(), Seq::empty(), i);
    let path = schema.entries()[i].path;
    let index = position_of(columns, path[0])->0;
    let column = ColumnView { name: path[0], index: index as usize };
    let rest = path.drop_first();
    assert(seq![path[0]] + rest =~= path);
    if rest.len() > 0 {
        law_built_calls_are_recognized(column, rest, accessed_field(columns[index], rest)->0);
    }
}

/// The first fields of a sort order give the first part of the ordering that all fields give.
pub proof fn law_first_fields_give_a_prefix(
    fields: Seq<SortField>,
    entries: Seq<FieldEntry>,
    columns: Seq<FieldView>,
    count: int,
)
    requires
        0 <= count <= fields.len(),
    ensures
        file_ordering(fields.take(count), entries, columns) matches Some(first) ==> {
            &&& file_ordering(fields, entries, columns) is Some
            &&& first.is_prefix_of(file_ordering(fields, entries, columns)->0)
        },
{
    let keys = sort_keys(fields, entries, columns);
    let n = lemma_keys_of_first_fields(fields, entries, columns, count);
    law_first_keys_give_a_prefix(keys, n);
}

proof fn lemma_keys_of_first_fields(
    fields: Seq<SortField>,
    entries: Seq<FieldEntry>,
    columns: Seq<FieldView>,
    count: int,
) -> (n: int)
    requires
        0 <= count <= fields.len(),
    ensures
        0 <= n <= sort_keys(fields, entries, columns).len(),
        sort_keys(fields.take(count), entries, columns) == sort_keys(fields, entries, columns).take(
            n,
        ),
    decreases fields.len(),
{
    let front = fields.take(count);
    let keys = sort_keys(fields, entries, columns);
    if count == 0 || sort_key(fields.first(), entries, columns) is None {
        assert(sort_keys(front, entries, columns) =~= keys.take(0));
        0
    } else {
        let tail = fields.drop_first();
        assert(front.first() == fields.first());
        assert(front.drop_first() =~= tail.take(count - 1));
        let n = lemma_keys_of_first_fields(tail, entries, columns, count - 1);
        assert(sort_keys(front, entries, columns) =~= keys.take(n + 1));
        n + 1
    }
}

/// What stands behind a field that cannot be ordered by makes no difference.
pub proof fn law_translation_stops_at_an_unusable_field(
    fields: Seq<SortField>,
    entries: Seq<FieldEntry>,
    columns: Seq<FieldView>,
    i: int,
)
    requires
        0 <= i < fields.len(),
        sort_key(fields[i], entries, columns) is None,
    ensures
        file_ordering(fields, entries, columns) == file_ordering(fields.take(i), entries, columns),
{
    lemma_keys_up_to(fields, entries, columns, i);
}

proof fn lemma_keys_up_to(
    fields: Seq<SortField>,
    entries: Seq<FieldEntry>,
    columns: Seq<FieldView>,
    i: int,
)
    requires
        0 <= i < fields.len(),
        sort_key(fields[i], entries, columns) is None,
    ensures
        sort_keys(fields, entries, columns) == sort_keys(fields.take(i), entries, columns),
    decreases fields.len(),
{
    let front = fields.take(i);
    if i > 0 {
        assert(front.first() == fields.first());
        assert(front.drop_first() =~= fields.drop_first().take(i - 1));
        assert(fields.drop_first()[i - 1] == fields[i]);
        lemma_keys_up_to(fields.drop_first(), entries, columns, i - 1);
    }
}

proof fn lemma_keys_compare_as_fields(
    fields: Seq<SortField>,
    entries: Seq<FieldEntry>,
    columns: Seq<FieldView>,
    stored: spec_fn(SortField) -> int,
    declared: spec_fn(SortExprView) -> int,
)
    requires
        forall|f: SortField|
            sort_key(f, entries, columns) matches Some(key) ==> declared(key) == #[trigger] stored(
                f,
            ),
    ensures
        ({
            let keys = sort_keys(fields, entries, columns);
            &&& keys.len() <= fields.len()
            &&& lexicographic(keys, declared) == lexicographic(
                fields.take(keys.len() as int),
                stored,
            )
        }),
    decreases fields.len(),
{
    let keys = sort_keys(fields, entries, columns);
    let front = fields.take(keys.len() as int);
    if fields.len() > 0 && sort_key(fields.first(), entries, columns) is Some {
        let rest = sort_keys(fields.drop_first(), entries, columns);
        lemma_keys_compare_as_fields(fields.drop_first(), entries, columns, stored, declared);
        assert(declared(keys.first()) == stored(fields.first()));
        assert(keys.drop_first() =~= rest);
        assert(front.first() == fields.first());
        assert(front.drop_first() =~= fields.drop_first().take(rest.len() as int));
    } else {
        assert(front =~= Seq::<SortField>::empty());
    }
}

/// Rows that are in the table's sort order are in the ordering that is declared for them.
///
/// `stored` says how two rows compare by a field of the sort order, and `declared` how they compare
/// by a sort expression. The two agree on a field and its expression, and whether rows are equal in
/// an expression does not depend on how it is sorted by.
pub proof fn law_stored_rows_are_in_the_declared_ordering(
    fields: Seq<SortField>,
    entries: Seq<FieldEntry>,
    columns: Seq<FieldView>,
    stored: spec_fn(SortField) -> int,
    declared: spec_fn(SortExprView) -> int,
)
    requires
        forall|f: SortField|
            sort_key(f, entries, columns) matches Some(key) ==> declared(key) == #[trigger] stored(
                f,
            ),
        forall|a: SortExprView, b: SortExprView|
            a.expr == b.expr ==> (#[trigger] declared(a) == 0 <==> #[trigger] declared(b) == 0),
        lexicographic(fields, stored) <= 0,
        file_ordering(fields, entries, columns) is Some,
    ensures
        lexicographic(file_ordering(fields, entries, columns)->0, declared) <= 0,
{
    let keys = sort_keys(fields, entries, columns);
    lemma_keys_compare_as_fields(fields, entries, columns, stored, declared);
    law_prefix_is_an_ordering(fields, keys.len() as int, stored);
    law_repeats_do_not_matter(keys, declared);
}

/// A field that is transformed before it is sorted by gives no key: rows that are sorted by a
/// transformed value are not sorted by the value.
pub proof fn law_transformed_fields_give_no_key(
    field: SortField,
    entries: Seq<FieldEntry>,
    columns: Seq<FieldView>,
)
    requires
        field.transform != Transform::Identity,
    ensures
        sort_key(field, entries, columns) is None,
{
}

/// A field that is sorted by as it is gives a key exactly where the columns hold it. The key has
/// the direction and the place of nulls of the field.
pub proof fn law_key_of_an_identity_field(
    field: SortField,
    entries: Seq<FieldEntry>,
    columns: Seq<FieldView>,
)
    requires
        field.transform == Transform::Identity,
    ensures
        sort_key(field, entries, columns) is Some <==> source_expr(
            field.source_id,
            entries,
            columns,
        ) is Some,
        sort_key(field, entries, columns) matches Some(key) ==> {
            &&& source_expr(field.source_id, entries, columns) == Some(key.expr)
            &&& key.options.descending <==> field.direction == SortDirection::Descending
            &&& key.options.nulls_first <==> field.null_order == NullOrder::First
        },
{
}

/// Each key of an ordering comes from a field that is sorted by as it is, before which there are
/// only such fields.
pub proof fn law_keys_come_from_identity_fields(
    fields: Seq<SortField>,
    entries: Seq<FieldEntry>,
    columns: Seq<FieldView>,
    i: int,
) -> (j: int)
    requires
        file_ordering(fields, entries, columns) matches Some(keys) && 0 <= i < keys.len(),
    ensures
        file_ordering(fields, entries, columns) matches Some(keys) && {
            &&& 0 <= j < fields.len()
            &&& forall|k: int| 0 <= k <= j ==> (#[trigger] fields[k]).transform
                == Transform::Identity
            &&& source_expr(fields[j].source_id, entries, columns) == Some(keys[i].expr)
            &&& keys[i].options.descending <==> fields[j].direction == SortDirection::Descending
            &&& keys[i].options.nulls_first <==> fields[j].null_order == NullOrder::First
        },
{
    let keys = sort_keys(fields, entries, columns);
    let count = lemma_usable_count(fields, entries, columns);
    lemma_usable_keys(fields, entries, columns, count);
    let j = law_kept_keys_are_keys(keys, i);
    assert(Some(keys[j]) == sort_key(fields[j], entries, columns));
    assert forall|k: int| 0 <= k <= j implies (#[trigger] fields[k]).transform
        == Transform::Identity by {
        assert(sort_key(fields[k], entries, columns) is Some);
    }
    j
}

/// There is an ordering as soon as the first field is sorted by as it is and the columns hold it.
pub proof fn law_ordering_by_a_first_field(
    fields: Seq<SortField>,
    entries: Seq<FieldEntry>,
    columns: Seq<FieldView>,
)
    requires
        fields.len() > 0,
        fields[0].transform == Transform::Identity,
        source_expr(fields[0].source_id, entries, columns) is Some,
    ensures
        file_ordering(fields, entries, columns) matches Some(keys) && keys.len() > 0
            && source_expr(fields[0].source_id, entries, columns) == Some(keys[0].expr)
            && (keys[0].options.descending <==> fields[0].direction == SortDirection::Descending)
            && (keys[0].options.nulls_first <==> fields[0].null_order == NullOrder::First),
{
    let keys = sort_keys(fields, entries, columns);
    law_first_occurrences_are_kept(keys, 0);
    assert(keys.take(0) =~= Seq::<SortExprView>::empty());
}

/// Where all fields are sorted by as they are and are held by the columns, the ordering orders by
/// each of them.
pub proof fn law_every_held_field_is_ordered_by(
    fields: Seq<SortField>,
    entries: Seq<FieldEntry>,
    columns: Seq<FieldView>,
    i: int,
) -> (n: int)
    requires
        0 <= i < fields.len(),
        forall|k: int|
            0 <= k <= i ==> (#[trigger] fields[k]).transform == Transform::Identity && source_expr(
                fields[k].source_id,
                entries,
                columns,
            ) is Some,
    ensures
        file_ordering(fields, entries, columns) matches Some(keys) && 0 <= n < keys.len()
            && source_expr(fields[i].source_id, entries, columns) == Some(keys[n].expr),
{
    let keys = sort_keys(fields, entries, columns);
    let count = lemma_usable_count(fields, entries, columns);
    lemma_usable_keys(fields, entries, columns, count);
    if count <= i {
        assert(sort_key(fields[count], entries, columns) is Some);
    }
    assert(Some(keys[i]) == sort_key(fields[i], entries, columns));
    law_every_expression_is_kept(keys, i)
}

/// A path of one name is read by the first column of that name.
pub proof fn law_path_of_one_name(path: Seq<Seq<char>>, columns: Seq<FieldView>, index: int)
    requires
        path.len() == 1,
        0 <= index < columns.len(),
        columns[index].name == path[0],
        forall|k: int| 0 <= k < index ==> (#[trigger] columns[k]).name != path[0],
    ensures
        path_expr(path, columns) == Some(
            ExprView::Column(ColumnView { name: path[0], index: index as usize }),
        ),
{
    lemma_position_of(columns, path[0], index);
}

/// A longer path is read by a call of `get_field` on the first column of its first name, with the
/// other names as arguments, where that column leads to such a field.
pub proof fn law_path_of_several_names(path: Seq<Seq<char>>, columns: Seq<FieldView>, index: int)
    requires
        path.len() > 1,
        0 <= index < columns.len(),
        columns[index].name == path[0],
        forall|k: int| 0 <= k < index ==> (#[trigger] columns[k]).name != path[0],
    ensures
        ({
            let found = accessed_field(columns[index], path.drop_first());
            &&& path_expr(path, columns) is Some <==> found is Some
            &&& path_expr(path, columns) matches Some(expr) ==> {
                &&& expr matches ExprView::ScalarFunction { name, args, return_field }
                &&& name == "get_field"@
                &&& return_field == found->0
                &&& args.len() == path.len()
                &&& args[0] == ExprView::Column(
                    ColumnView { name: path[0], index: index as usize },
                )
                &&& forall|k: int|
                    1 <= k < path.len() ==> #[trigger] args[k] == ExprView::Literal(
                        ScalarView::Utf8(Some(path[k])),
                    )
            }
        }),
{
    lemma_position_of(columns, path[0], index);
}

/// A path whose first name no column has cannot be read.
pub proof fn law_path_without_a_column(path: Seq<Seq<char>>, columns: Seq<FieldView>)
    requires
        path.len() > 0,
        forall|k: int| 0 <= k < columns.len() ==> (#[trigger] columns[k]).name != path[0],
    ensures
        path_expr(path, columns) is None,
{
    lemma_position_of(columns, path[0], columns.len() as int);
}

/// The field with an id is read by its path; an id that no field has cannot be read.
pub proof fn law_source_is_read_by_its_path(
    entries: Seq<FieldEntry>,
    columns: Seq<FieldView>,
    source_id: i32,
    i: int,
)
    requires
        0 <= i <= entries.len(),
        forall|k: int| 0 <= k < i ==> (#[trigger] entries[k]).id != source_id,
        i < entries.len() ==> entries[i].id == source_id,
    ensures
        i < entries.len() ==> source_expr(source_id, entries, columns) == path_expr(
            entries[i].path,
            columns,
        ),
        i == entries.len() ==> source_expr(source_id, entries, columns) is None,
{
    lemma_entry_by_id(entries, source_id, i);
}

} // verus!
