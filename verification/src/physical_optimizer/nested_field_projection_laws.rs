//! What holds of the rule that pushes the projection of nested fields into scans.

use vstd::prelude::*;

use crate::arrow::schema::{ArrowSchemaView, FieldView};
use crate::error::{ErrorKind, ErrorView};
use crate::physical_expr::{
    accessed_field, columns_of, columns_of_all, moved, moved_column, ColumnView, ExprView,
};
use crate::physical_optimizer::get_field_chain::{
    get_field_chain, string_constant, string_constants, ChainView,
};
use crate::physical_optimizer::narrowing::{
    law_existing_paths_can_be_narrowed_to, law_narrowing_settles, law_only_read_parts_are_left,
    law_read_parts_are_kept, narrowed, on_one_line, path_exists,
};
use crate::physical_optimizer::nested_field_projection::{
    column_path, column_paths, dotted, dotted_paths, is_read, lemma_no_column_paths,
    lemma_read_count, moved_exprs, narrowed_columns, narrowed_read, narrowed_scan, new_positions,
    optimized, optimized_all, paths_in, read_before, reindexed, rewritten, scan_below, wrapped,
    ColumnPath, ScanWrapper,
};
use crate::physical_plan::plan::{
    all_found, columns_read, lemma_all_found, PlanView, ProjectionView,
};
use crate::physical_plan::scan::{
    field_ids, law_known_paths_can_be_read, law_unknown_path_is_an_error, nested_projection,
    ScanView, TaskView,
};
use crate::table::schema::{entry_by_name, FieldEntry};
use crate::text::joined;

verus! {

/// Whether the rule finds nothing to rewrite in a tree.
pub open spec fn nothing_to_narrow(plan: PlanView) -> bool
    decreases plan,
{
    &&& rewritten(plan) == Ok::<Option<PlanView>, ErrorView>(None)
    &&& match plan {
        PlanView::Projection { input, .. } => nothing_to_narrow(*input),
        PlanView::Cooperative(input) => nothing_to_narrow(*input),
        PlanView::IcebergScan(_) => true,
        PlanView::Other { children, .. } => forall|i: int|
            0 <= i < children.len() ==> nothing_to_narrow(#[trigger] children[i]),
    }
}

/// A tree in which there is nothing to rewrite is left alone.
pub proof fn law_unrelated_plans_are_left_alone(plan: PlanView)
    requires
        nothing_to_narrow(plan),
    ensures
        optimized(plan) == Ok::<PlanView, ErrorView>(plan),
    decreases plan,
{
    match plan {
        PlanView::Projection { input, .. } => law_unrelated_plans_are_left_alone(*input),
        PlanView::Cooperative(input) => law_unrelated_plans_are_left_alone(*input),
        PlanView::IcebergScan(_) => {},
        PlanView::Other { children, .. } => {
            assert forall|i: int| 0 <= i < children.len() implies optimized(
                #[trigger] children[i],
            ) == Ok::<PlanView, ErrorView>(children[i]) by {
                law_unrelated_plans_are_left_alone(children[i]);
            }
            lemma_unchanged_list(children);
        },
    }
}

proof fn lemma_unchanged_list(plans: Seq<PlanView>)
    requires
        forall|i: int|
            0 <= i < plans.len() ==> optimized(#[trigger] plans[i]) == Ok::<PlanView, ErrorView>(
                plans[i],
            ),
    ensures
        optimized_all(plans) == Ok::<Seq<PlanView>, ErrorView>(plans),
    decreases plans.len(),
{
    if plans.len() > 0 {
        let shorter = plans.drop_last();
        assert forall|i: int| 0 <= i < shorter.len() implies optimized(#[trigger] shorter[i])
            == Ok::<PlanView, ErrorView>(shorter[i]) by {
            assert(shorter[i] == plans[i]);
        }
        lemma_unchanged_list(shorter);
        assert(optimized(plans[plans.len() - 1]) is Ok);
        assert(shorter.push(plans.last()) =~= plans);
    } else {
        assert(plans =~= Seq::<PlanView>::empty());
    }
}

/// A projection is left alone as soon as one of its expressions reads something other than a
/// nested field of a column of the scan: a whole column, for one.
pub proof fn law_other_expressions_prevent_narrowing(
    exprs: Seq<ProjectionView>,
    scan: ScanView,
    i: int,
)
    requires
        0 <= i < exprs.len(),
        column_path(exprs[i].expr, scan.properties.schema.fields) is None,
    ensures
        narrowed_scan(exprs, scan) == Ok::<Option<ScanView>, ErrorView>(None),
{
    lemma_no_column_paths(exprs, scan.properties.schema.fields, i);
}

/// The expressions and the nested fields that they read stand in the same order.
proof fn lemma_read_at(exprs: Seq<ProjectionView>, input: Seq<FieldView>, i: int)
    requires
        column_paths(exprs, input) is Some,
        0 <= i < exprs.len(),
    ensures
        (column_paths(exprs, input)->0).len() == exprs.len(),
        column_path(exprs[i].expr, input) == Some((column_paths(exprs, input)->0)[i]),
    decreases exprs.len(),
{
    let shorter = exprs.drop_last();
    if i < exprs.len() - 1 {
        lemma_read_at(shorter, input, i);
        assert(shorter[i] == exprs[i]);
    } else if exprs.len() > 1 {
        lemma_read_at(shorter, input, 0);
    } else {
        assert(shorter =~= Seq::<ProjectionView>::empty());
    }
}

proof fn lemma_path_in(reads: Seq<ColumnPath>, i: int)
    requires
        0 <= i < reads.len(),
    ensures
        paths_in(reads, reads[i].index).contains(reads[i].path),
    decreases reads.len(),
{
    let shorter = reads.drop_last();
    let paths = paths_in(reads, reads[i].index);
    if i == reads.len() - 1 {
        assert(paths.last() == reads[i].path);
    } else {
        lemma_path_in(shorter, i);
        assert(shorter[i] == reads[i]);
        let before = paths_in(shorter, reads[i].index);
        let k = choose|k: int| 0 <= k < before.len() && before[k] == reads[i].path;
        assert(paths[k] == reads[i].path);
    }
}

proof fn lemma_read_of_path(reads: Seq<ColumnPath>, index: int, k: int) -> (i: int)
    requires
        0 <= k < paths_in(reads, index).len(),
    ensures
        0 <= i < reads.len(),
        reads[i].index == index,
        reads[i].path == paths_in(reads, index)[k],
    decreases reads.len(),
{
    let before = paths_in(reads.drop_last(), index);
    if k < before.len() {
        lemma_read_of_path(reads.drop_last(), index, k)
    } else {
        reads.len() - 1
    }
}

proof fn lemma_dotted_path_in(
    reads: Seq<ColumnPath>,
    input: Seq<FieldView>,
    columns: nat,
    index: int,
    path: Seq<Seq<char>>,
)
    requires
        0 <= index < columns,
        paths_in(reads, index).contains(path),
    ensures
        dotted_paths(reads, input, columns).contains(joined(input[index].name, path)),
    decreases columns,
{
    let before = dotted_paths(reads, input, (columns - 1) as nat);
    let own = dotted(input[columns - 1].name, paths_in(reads, columns - 1));
    let all = dotted_paths(reads, input, columns);
    let text = joined(input[index].name, path);
    if index == columns - 1 {
        let k = choose|k: int|
            0 <= k < paths_in(reads, index).len() && paths_in(reads, index)[k] == path;
        assert(own[k] == text);
        assert(all[before.len() + k] == text);
    } else {
        lemma_dotted_path_in(reads, input, (columns - 1) as nat, index, path);
        let k = choose|k: int| 0 <= k < before.len() && before[k] == text;
        assert(all[k] == text);
    }
}

proof fn lemma_dotted_path_of(
    reads: Seq<ColumnPath>,
    input: Seq<FieldView>,
    columns: nat,
    k: int,
) -> (i: int)
    requires
        0 <= k < dotted_paths(reads, input, columns).len(),
    ensures
        0 <= i < reads.len(),
        dotted_paths(reads, input, columns)[k] == joined(
            input[reads[i].index].name,
            reads[i].path,
        ),
    decreases columns,
{
    let before = dotted_paths(reads, input, (columns - 1) as nat);
    if k < before.len() {
        lemma_dotted_path_of(reads, input, (columns - 1) as nat, k)
    } else {
        lemma_read_of_path(reads, columns - 1, k - before.len())
    }
}

/// Whether an expression of a projection reads the nested field with the given dotted path.
pub open spec fn reads_path(
    projected: ProjectionView,
    input: Seq<FieldView>,
    path: Seq<char>,
) -> bool {
    match column_path(projected.expr, input) {
        Some(read) => path == joined(input[read.index].name, read.path),
        None => false,
    }
}

/// A narrowed scan is asked for exactly the nested fields that the projection reads: the dotted
/// path of each, and no path that is not that of one of them.
pub proof fn law_scan_reads_what_is_projected(
    exprs: Seq<ProjectionView>,
    scan: ScanView,
    path: Seq<char>,
)
    requires
        narrowed_scan(exprs, scan) matches Ok(Some(_)),
    ensures
        ({
            let input = scan.properties.schema.fields;
            narrowed_scan(exprs, scan) matches Ok(Some(next)) && next.projection is Some && (
            next.projection->0.contains(path) <==> exists|i: int|
                0 <= i < exprs.len() && reads_path(#[trigger] exprs[i], input, path))
        }),
{
    let input = scan.properties.schema.fields;
    let reads = column_paths(exprs, input)->0;
    let paths = dotted_paths(reads, input, input.len());
    if paths.contains(path) {
        let k = choose|k: int| 0 <= k < paths.len() && paths[k] == path;
        let i = lemma_dotted_path_of(reads, input, input.len(), k);
        lemma_read_count(exprs, input);
        lemma_read_at(exprs, input, i);
        assert(reads_path(exprs[i], input, path));
    }
    if exists|i: int| 0 <= i < exprs.len() && reads_path(#[trigger] exprs[i], input, path) {
        let i = choose|i: int|
            0 <= i < exprs.len() && reads_path(#[trigger] exprs[i], input, path);
        lemma_read_at(exprs, input, i);
        lemma_path_in(reads, i);
        lemma_dotted_path_in(reads, input, input.len(), reads[i].index, reads[i].path);
    }
}

/// A chain reads its column and no other.
proof fn lemma_chain_column(expr: ExprView)
    requires
        get_field_chain(expr) is Some,
    ensures
        columns_of(expr) == seq![(get_field_chain(expr)->0).column],
    decreases expr,
{
    if let ExprView::ScalarFunction { args, .. } = expr {
        lemma_chain_column(args[0]);
        lemma_constants_read_nothing(args, args.len());
    }
}

proof fn lemma_constants_read_nothing(args: Seq<ExprView>, n: nat)
    requires
        1 <= n <= args.len(),
        string_constants(args.drop_first()) is Some,
    ensures
        columns_of_all(args.take(n as int)) == columns_of(args[0]),
        columns_of_all(args) == columns_of_all(args.take(args.len() as int)),
    decreases n,
{
    let front = args.take(n as int);
    assert(args.take(args.len() as int) =~= args);
    assert(front.drop_last() =~= args.take(n - 1));
    if n == 1 {
        assert(front.drop_last() =~= Seq::<ExprView>::empty());
        assert(columns_of_all(Seq::<ExprView>::empty()) =~= Seq::<ColumnView>::empty());
        assert(front.last() == args[0]);
        assert(Seq::<ColumnView>::empty() + columns_of(args[0]) =~= columns_of(args[0]));
    } else {
        lemma_constants_read_nothing(args, (n - 1) as nat);
        lemma_constant_at(args.drop_first(), n - 2);
        assert(args.drop_first()[n - 2] == args[n - 1]);
        assert(front.last() == args[n - 1]);
        assert(columns_of(args[n - 1]) =~= Seq::<ColumnView>::empty());
        assert(columns_of(args[0]) + Seq::<ColumnView>::empty() =~= columns_of(args[0]));
    }
}

proof fn lemma_constant_at(exprs: Seq<ExprView>, i: int)
    requires
        string_constants(exprs) is Some,
        0 <= i < exprs.len(),
    ensures
        string_constant(exprs[i]) is Some,
    decreases exprs.len(),
{
    if i < exprs.len() - 1 {
        lemma_constant_at(exprs.drop_last(), i);
    }
}

/// Moving the columns of a chain moves the column that it reads, and nothing else.
proof fn lemma_moved_chain(expr: ExprView, positions: Seq<usize>)
    requires
        get_field_chain(expr) is Some,
    ensures
        get_field_chain(moved(expr, positions)) == Some(
            ChainView {
                column: moved_column((get_field_chain(expr)->0).column, positions),
                path: (get_field_chain(expr)->0).path,
            },
        ),
    decreases expr,
{
    if let ExprView::ScalarFunction { args, .. } = expr {
        lemma_moved_chain(args[0], positions);
        let next = moved(expr, positions)->args;
        assert(next[0] == moved(args[0], positions));
        assert forall|i: int| 0 <= i < args.len() - 1 implies next.drop_first()[i]
            == args.drop_first()[i] by {
            lemma_constant_at(args.drop_first(), i);
            assert(next[i + 1] == moved(args[i + 1], positions));
        }
        assert(next.drop_first() =~= args.drop_first());
    }
}

/// A chain stays as it is where its column does.
proof fn lemma_chain_stays(expr: ExprView, positions: Seq<usize>)
    requires
        get_field_chain(expr) matches Some(chain) && moved_column(chain.column, positions)
            == chain.column,
    ensures
        moved(expr, positions) == expr,
    decreases expr,
{
    if let ExprView::ScalarFunction { args, .. } = expr {
        lemma_chain_stays(args[0], positions);
        let next = moved(expr, positions)->args;
        assert forall|i: int| 0 <= i < args.len() implies next[i] == args[i] by {
            assert(next[i] == moved(args[i], positions));
            if i > 0 {
                lemma_constant_at(args.drop_first(), i - 1);
                assert(args.drop_first()[i - 1] == args[i]);
            }
        }
        assert(next =~= args);
    }
}

/// Columns that stand where they are moved to stay.
proof fn lemma_moved_to_itself(expr: ExprView, positions: Seq<usize>)
    requires
        forall|p: int| 0 <= p < positions.len() && p <= usize::MAX ==> #[trigger] positions[p] == p,
    ensures
        moved(expr, positions) == expr,
    decreases expr,
{
    match expr {
        ExprView::Column(_) => {},
        ExprView::Literal(_) => {},
        ExprView::ScalarFunction { args, .. } => {
            assert forall|i: int| 0 <= i < args.len() implies moved(#[trigger] args[i], positions)
                == args[i] by {
                lemma_moved_to_itself(args[i], positions);
            }
            assert(moved(expr, positions)->args =~= args);
        },
        ExprView::Other { children, .. } => {
            assert forall|i: int| 0 <= i < children.len() implies moved(
                #[trigger] children[i],
                positions,
            ) == children[i] by {
                lemma_moved_to_itself(children[i], positions);
            }
            assert(moved(expr, positions)->Other_children =~= children);
        },
    }
}

/// More columns are read of more columns; a column that is read counts.
proof fn lemma_read_before(reads: Seq<ColumnPath>, columns: nat, more: nat)
    requires
        columns <= more,
    ensures
        read_before(reads, columns) <= read_before(reads, more) <= read_before(reads, columns)
            + (more - columns),
        columns < more && is_read(reads, columns as int) ==> read_before(reads, columns)
            < read_before(reads, more),
    decreases more,
{
    if columns < more {
        lemma_read_before(reads, columns, (more - 1) as nat);
    }
}

/// Whether each of the first columns that something is read of is narrowed, at its new position.
spec fn narrowed_in_place(
    reads: Seq<ColumnPath>,
    input: Seq<FieldView>,
    columns: nat,
    fields: Seq<FieldView>,
) -> bool {
    forall|c: int|
        0 <= c < columns && #[trigger] is_read(reads, c) ==> {
            let position = read_before(reads, c as nat) as int;
            &&& position < fields.len()
            &&& narrowed(input[c], paths_in(reads, c)) == Some(fields[position])
        }
}

/// The narrowed columns are those that something is read of, in their order.
proof fn lemma_narrowed_columns(reads: Seq<ColumnPath>, input: Seq<FieldView>, columns: nat)
    requires
        narrowed_columns(reads, input, columns) is Some,
    ensures
        ({
            let fields = narrowed_columns(reads, input, columns)->0;
            &&& fields.len() == read_before(reads, columns)
            &&& narrowed_in_place(reads, input, columns, fields)
        }),
    decreases columns,
{
    if columns > 0 {
        let shorter = (columns - 1) as nat;
        lemma_narrowed_columns(reads, input, shorter);
        let fields = narrowed_columns(reads, input, columns)->0;
        let before = narrowed_columns(reads, input, shorter)->0;
        assert forall|c: int| 0 <= c < columns && #[trigger] is_read(reads, c) implies {
            let position = read_before(reads, c as nat) as int;
            &&& position < fields.len()
            &&& narrowed(input[c], paths_in(reads, c)) == Some(fields[position])
        } by {
            if c < shorter {
                let position = read_before(reads, c as nat) as int;
                assert(before[position] == fields[position]);
            }
        }
    }
}

/// An expression whose columns have been moved reads the nested field that it read before, at the
/// new position of its column.
proof fn lemma_moved_read(exprs: Seq<ProjectionView>, input: Seq<FieldView>, i: int)
    requires
        narrowed_read(exprs, input) is Some,
        0 <= i < exprs.len(),
    ensures
        ({
            let reads = column_paths(exprs, input)->0;
            let fields = (narrowed_read(exprs, input)->0).fields;
            let next = reindexed(exprs, input)[i].expr;
            let position = read_before(reads, reads[i].index as nat);
            &&& reads.len() == exprs.len()
            &&& 0 <= reads[i].index < input.len()
            &&& is_read(reads, reads[i].index)
            &&& position < fields.len()
            &&& narrowed(input[reads[i].index], paths_in(reads, reads[i].index)) == Some(
                fields[position as int],
            )
            &&& column_path(next, fields) == Some(
                ColumnPath { index: position as int, path: reads[i].path },
            )
            &&& all_found(columns_of(next), fields)
        }),
{
    let reads = column_paths(exprs, input)->0;
    let positions = new_positions(reads, input.len());
    let fields = (narrowed_read(exprs, input)->0).fields;
    let next = reindexed(exprs, input)[i].expr;
    lemma_read_at(exprs, input, i);
    lemma_path_in(reads, i);
    let index = reads[i].index;
    assert(is_read(reads, index));
    lemma_narrowed_columns(reads, input, input.len());
    lemma_read_before(reads, 0, index as nat);
    assert(next == moved(exprs[i].expr, positions));
    let column = (get_field_chain(exprs[i].expr)->0).column;
    let moved_to = moved_column(column, positions);
    assert(positions[index] == read_before(reads, index as nat));
    lemma_moved_chain(exprs[i].expr, positions);
    lemma_chain_column(next);
    assert(columns_of(next) =~= seq![moved_to]);
}

/// The expressions of a projection find their columns in the narrowed scan, at their new positions
/// and under their names.
pub proof fn law_moved_columns_are_found(exprs: Seq<ProjectionView>, scan: ScanView)
    requires
        narrowed_scan(exprs, scan) matches Ok(Some(_)),
    ensures
        narrowed_scan(exprs, scan) matches Ok(Some(next)) && all_found(
            columns_read(reindexed(exprs, scan.properties.schema.fields)),
            next.properties.schema.fields,
        ),
{
    let input = scan.properties.schema.fields;
    let fields = (narrowed_read(exprs, input)->0).fields;
    let next = reindexed(exprs, input);
    let models = next.map_values(|e: ProjectionView| e.expr);
    assert forall|i: int| 0 <= i < models.len() implies all_found(
        columns_of(#[trigger] models[i]),
        fields,
    ) by {
        lemma_moved_read(exprs, input, i);
    }
    lemma_all_found(models, fields);
}

/// Whether the columns that something is read of are the first `count` ones.
pub open spec fn reads_the_first(reads: Seq<ColumnPath>, columns: nat, count: nat) -> bool {
    forall|c: int| 0 <= c < columns ==> (#[trigger] is_read(reads, c) <==> c < count)
}

/// Where the columns that something is read of are the first ones of the scan, the expressions
/// stay as they are: every column keeps its position.
pub proof fn law_first_columns_stay_in_place(
    exprs: Seq<ProjectionView>,
    input: Seq<FieldView>,
    count: nat,
)
    requires
        column_paths(exprs, input) is Some,
        reads_the_first(column_paths(exprs, input)->0, input.len(), count),
    ensures
        reindexed(exprs, input) == exprs,
{
    let reads = column_paths(exprs, input)->0;
    let positions = new_positions(reads, input.len());
    assert forall|i: int| 0 <= i < exprs.len() implies #[trigger] moved_exprs(exprs, positions)[i]
        == exprs[i] by {
        lemma_read_at(exprs, input, i);
        lemma_path_in(reads, i);
        let index = reads[i].index;
        assert(is_read(reads, index));
        lemma_all_before_are_read(reads, index as nat);
        lemma_chain_stays(exprs[i].expr, positions);
    }
    assert(moved_exprs(exprs, positions) =~= exprs);
}

proof fn lemma_all_before_are_read(reads: Seq<ColumnPath>, columns: nat)
    requires
        forall|k: int| 0 <= k < columns ==> #[trigger] is_read(reads, k),
    ensures
        read_before(reads, columns) == columns,
    decreases columns,
{
    if columns > 0 {
        assert(is_read(reads, columns - 1));
        lemma_all_before_are_read(reads, (columns - 1) as nat);
    }
}

/// What an expression of the projection reads of the narrowed scan is what it read before: the
/// field at the end of the same path is the same, with everything inside it.
pub proof fn law_expressions_read_the_same_fields(
    exprs: Seq<ProjectionView>,
    scan: ScanView,
    i: int,
)
    requires
        narrowed_scan(exprs, scan) matches Ok(Some(_)),
        0 <= i < exprs.len(),
    ensures
        ({
            let input = scan.properties.schema.fields;
            let next = (narrowed_scan(exprs, scan)->Ok_0)->0;
            let fields = next.properties.schema.fields;
            let before = column_path(exprs[i].expr, input);
            let after = column_path(reindexed(exprs, input)[i].expr, fields);
            &&& before is Some
            &&& after is Some
            &&& after->0.path == before->0.path
            &&& fields[after->0.index].name == input[before->0.index].name
            &&& accessed_field(fields[after->0.index], after->0.path) == accessed_field(
                input[before->0.index],
                before->0.path,
            )
        }),
{
    let input = scan.properties.schema.fields;
    let reads = column_paths(exprs, input)->0;
    lemma_moved_read(exprs, input, i);
    lemma_read_at(exprs, input, i);
    lemma_path_in(reads, i);
    let index = reads[i].index;
    let paths = paths_in(reads, index);
    let k = choose|k: int| 0 <= k < paths.len() && paths[k] == reads[i].path;
    law_read_parts_are_kept(input[index], paths, k);
}

/// Nested fields at the new positions of their columns, where something is read of the columns
/// that `all` reads.
spec fn moved_reads(reads: Seq<ColumnPath>, all: Seq<ColumnPath>) -> Seq<ColumnPath> {
    reads.map_values(
        |read: ColumnPath|
            ColumnPath { index: read_before(all, read.index as nat) as int, path: read.path },
    )
}

proof fn lemma_column_paths_are(
    exprs: Seq<ProjectionView>,
    input: Seq<FieldView>,
    reads: Seq<ColumnPath>,
)
    requires
        exprs.len() == reads.len(),
        forall|i: int|
            #![trigger exprs[i]]
            0 <= i < exprs.len() ==> column_path(exprs[i].expr, input) == Some(reads[i]),
    ensures
        column_paths(exprs, input) == Some(reads),
    decreases exprs.len(),
{
    if exprs.len() > 0 {
        let shorter = exprs.drop_last();
        let before = reads.drop_last();
        assert forall|i: int| #![trigger shorter[i]] 0 <= i < shorter.len() implies column_path(
            shorter[i].expr,
            input,
        ) == Some(before[i]) by {
            assert(shorter[i] == exprs[i]);
        }
        lemma_column_paths_are(shorter, input, before);
        let last = exprs[exprs.len() - 1];
        assert(column_path(last.expr, input) == Some(reads.last()));
        assert(before.push(reads.last()) =~= reads);
    } else {
        assert(reads =~= Seq::<ColumnPath>::empty());
    }
}

/// The paths inside a column are those inside it at its new position, if no other column that is
/// read has that position.
proof fn lemma_moved_paths(reads: Seq<ColumnPath>, all: Seq<ColumnPath>, c: int)
    requires
        0 <= c,
        forall|i: int|
            #![trigger reads[i]]
            0 <= i < reads.len() && reads[i].index != c ==> read_before(all, reads[i].index as nat)
                != read_before(all, c as nat),
    ensures
        paths_in(moved_reads(reads, all), read_before(all, c as nat) as int) == paths_in(reads, c),
    decreases reads.len(),
{
    if reads.len() > 0 {
        let shorter = reads.drop_last();
        assert forall|i: int|
            #![trigger shorter[i]]
            0 <= i < shorter.len() && shorter[i].index != c implies read_before(
            all,
            shorter[i].index as nat,
        ) != read_before(all, c as nat) by {
            assert(shorter[i] == reads[i]);
        }
        lemma_moved_paths(shorter, all, c);
        assert(moved_reads(reads, all).drop_last() =~= moved_reads(shorter, all));
        assert(reads[reads.len() - 1] == reads.last());
    }
}

proof fn lemma_moved_paths_of_read_column(reads: Seq<ColumnPath>, c: int)
    requires
        0 <= c,
        is_read(reads, c),
        forall|i: int| 0 <= i < reads.len() ==> 0 <= (#[trigger] reads[i]).index,
    ensures
        paths_in(moved_reads(reads, reads), read_before(reads, c as nat) as int) == paths_in(
            reads,
            c,
        ),
{
    assert forall|i: int|
        #![trigger reads[i]]
        0 <= i < reads.len() && reads[i].index != c implies read_before(
        reads,
        reads[i].index as nat,
    ) != read_before(reads, c as nat) by {
        lemma_path_in(reads, i);
        assert(is_read(reads, reads[i].index));
        if reads[i].index < c {
            lemma_read_before(reads, reads[i].index as nat, c as nat);
        } else {
            lemma_read_before(reads, c as nat, reads[i].index as nat);
        }
    }
    lemma_moved_paths(reads, reads, c);
}

proof fn lemma_narrowed_again(
    reads: Seq<ColumnPath>,
    input: Seq<FieldView>,
    all_columns: nat,
    fields: Seq<FieldView>,
    columns: nat,
)
    requires
        columns <= all_columns,
        narrowed_in_place(reads, input, all_columns, fields),
        fields.len() == read_before(reads, all_columns),
        forall|i: int| 0 <= i < reads.len() ==> 0 <= (#[trigger] reads[i]).index,
    ensures
        ({
            let again = moved_reads(reads, reads);
            let count = read_before(reads, columns);
            &&& count <= fields.len()
            &&& narrowed_columns(again, fields, count) == Some(fields.take(count as int))
            &&& dotted_paths(again, fields, count) == dotted_paths(reads, input, columns)
            &&& read_before(again, count) == count
        }),
    decreases columns,
{
    let again = moved_reads(reads, reads);
    let count = read_before(reads, columns);
    lemma_read_before(reads, columns, all_columns);
    if columns == 0 {
        assert(fields.take(0) =~= Seq::<FieldView>::empty());
    } else {
        let c = columns - 1;
        lemma_narrowed_again(reads, input, all_columns, fields, c as nat);
        let before = read_before(reads, c as nat);
        if is_read(reads, c) {
            lemma_moved_paths_of_read_column(reads, c);
            assert(is_read(again, before as int));
            assert(count == before + 1);
            assert(narrowed(input[c], paths_in(reads, c)) == Some(fields[before as int]));
            law_narrowing_settles(input[c], paths_in(reads, c));
            assert(fields.take(count as int) =~= fields.take(before as int).push(
                fields[before as int],
            ));
        } else {
            let own = dotted(input[c].name, paths_in(reads, c));
            let paths = dotted_paths(reads, input, c as nat);
            assert(paths + own =~= paths);
        }
    }
}

/// A scan that was narrowed for a projection is not changed by narrowing it for the rewritten
/// projection, whose columns stay where they are.
proof fn lemma_narrowed_scan_again(exprs: Seq<ProjectionView>, scan: ScanView, next: ScanView)
    requires
        narrowed_scan(exprs, scan) == Ok::<Option<ScanView>, ErrorView>(Some(next)),
    ensures
        ({
            let again = reindexed(exprs, scan.properties.schema.fields);
            &&& narrowed_scan(again, next) == Ok::<Option<ScanView>, ErrorView>(Some(next))
            &&& reindexed(again, next.properties.schema.fields) == again
        }),
{
    let input = scan.properties.schema.fields;
    let fields = next.properties.schema.fields;
    let reads = column_paths(exprs, input)->0;
    let again = reindexed(exprs, input);
    let reads_again = moved_reads(reads, reads);
    lemma_read_count(exprs, input);
    assert forall|i: int| #![trigger again[i]] 0 <= i < again.len() implies column_path(
        again[i].expr,
        fields,
    ) == Some(reads_again[i]) by {
        lemma_moved_read(exprs, input, i);
    }
    lemma_column_paths_are(again, fields, reads_again);
    assert forall|i: int| 0 <= i < reads.len() implies 0 <= (#[trigger] reads[i]).index by {
        lemma_moved_read(exprs, input, i);
    }
    lemma_narrowed_columns(reads, input, input.len());
    lemma_narrowed_again(reads, input, input.len(), fields, input.len());
    assert(fields.take(fields.len() as int) =~= fields);
    let paths = dotted_paths(reads, input, input.len());
    let ids = field_ids(scan.table.current_entries(), paths);
    assert(next.tasks.map_values(
        |task: TaskView| TaskView { project_field_ids: ids, ..task },
    ) =~= next.tasks);
    let positions = new_positions(reads_again, fields.len());
    assert forall|p: int|
        0 <= p < positions.len() && p <= usize::MAX implies #[trigger] positions[p] == p by {
        lemma_read_before(reads_again, 0, p as nat);
        lemma_read_before(reads_again, p as nat, fields.len());
    }
    assert forall|i: int| 0 <= i < again.len() implies #[trigger] moved_exprs(again, positions)[i]
        == again[i] by {
        lemma_moved_to_itself(again[i].expr, positions);
    }
    assert(moved_exprs(again, positions) =~= again);
}

proof fn lemma_wrapped_scan_is_left_alone(scan: ScanView, wrapper: ScanWrapper)
    ensures
        ({
            let plan = wrapped(wrapper, PlanView::IcebergScan(scan));
            optimized(plan) == Ok::<PlanView, ErrorView>(plan)
        }),
{
    let leaf = PlanView::IcebergScan(scan);
    assert(optimized(leaf) == Ok::<PlanView, ErrorView>(leaf));
}

proof fn lemma_rewritten_again(plan: PlanView, next: PlanView)
    requires
        rewritten(plan) == Ok::<Option<PlanView>, ErrorView>(Some(next)),
    ensures
        optimized(next) == Ok::<PlanView, ErrorView>(next),
        next is Projection,
        rewritten(next) == Ok::<Option<PlanView>, ErrorView>(Some(next)),
{
    let exprs = plan->exprs;
    let (scan, wrapper) = scan_below(*plan->input)->0;
    let narrowed = (narrowed_scan(exprs, scan)->Ok_0)->0;
    lemma_narrowed_scan_again(exprs, scan, narrowed);
    let leaf = PlanView::IcebergScan(narrowed);
    let input = wrapped(wrapper, leaf);
    lemma_wrapped_scan_is_left_alone(narrowed, wrapper);
    assert(scan_below(input) == Some((narrowed, wrapper)));
    assert(rewritten(next) == Ok::<Option<PlanView>, ErrorView>(Some(next)));
}

/// The rule does all that it does in one pass: a tree that it has rewritten it leaves as it is.
pub proof fn law_second_pass_changes_nothing(plan: PlanView)
    requires
        optimized(plan) is Ok,
    ensures
        optimized(optimized(plan)->Ok_0) == optimized(plan),
    decreases plan,
{
    let next = optimized(plan)->Ok_0;
    match plan {
        PlanView::Projection { exprs, input, schema } => {
            let below = optimized(*input)->Ok_0;
            let node = PlanView::Projection { exprs, input: Box::new(below), schema };
            law_second_pass_changes_nothing(*input);
            if let Ok(Some(_)) = rewritten(node) {
                lemma_rewritten_again(node, next);
            }
        },
        PlanView::Cooperative(input) => law_second_pass_changes_nothing(*input),
        PlanView::IcebergScan(_) => {},
        PlanView::Other { children, .. } => lemma_second_pass_of_list(children),
    }
}

proof fn lemma_second_pass_of_list(plans: Seq<PlanView>)
    requires
        optimized_all(plans) is Ok,
    ensures
        optimized_all(optimized_all(plans)->Ok_0) == optimized_all(plans),
    decreases plans,
{
    if plans.len() > 0 {
        lemma_second_pass_of_list(plans.drop_last());
        law_second_pass_changes_nothing(plans.last());
        let before = optimized_all(plans.drop_last())->Ok_0;
        let next = optimized_all(plans)->Ok_0;
        assert(next.drop_last() =~= before);
    }
}

/// Whether an expression reads a nested field that the rule can push down: through a chain of
/// `get_field` calls with at least one name, from a column of the scan at its position and under
/// its name, along a path that exists in the structs of that column and that the table knows.
pub open spec fn reads_known_field(
    expr: ExprView,
    input: Seq<FieldView>,
    entries: Seq<FieldEntry>,
) -> bool {
    &&& get_field_chain(expr) matches Some(chain)
    &&& chain.path.len() > 0
    &&& chain.column.index < input.len()
    &&& input[chain.column.index as int].name == chain.column.name
    &&& path_exists(input[chain.column.index as int].data_type, chain.path)
    &&& entry_by_name(entries, joined(chain.column.name, chain.path)) is Some
}

proof fn lemma_all_paths_collected(
    exprs: Seq<ProjectionView>,
    input: Seq<FieldView>,
    entries: Seq<FieldEntry>,
)
    requires
        forall|i: int|
            #![trigger exprs[i]]
            0 <= i < exprs.len() ==> reads_known_field(exprs[i].expr, input, entries),
    ensures
        column_paths(exprs, input) is Some,
    decreases exprs.len(),
{
    if exprs.len() > 0 {
        let shorter = exprs.drop_last();
        assert forall|i: int|
            #![trigger shorter[i]]
            0 <= i < shorter.len() implies reads_known_field(
            shorter[i].expr,
            input,
            entries,
        ) by {
            assert(shorter[i] == exprs[i]);
        }
        lemma_all_paths_collected(shorter, input, entries);
        assert(reads_known_field(exprs[exprs.len() - 1].expr, input, entries));
    }
}

proof fn lemma_all_columns_narrowed(reads: Seq<ColumnPath>, input: Seq<FieldView>, columns: nat)
    requires
        columns <= input.len(),
        forall|i: int|
            #![trigger reads[i]]
            0 <= i < reads.len() ==> path_exists(input[reads[i].index].data_type, reads[i].path),
    ensures
        narrowed_columns(reads, input, columns) is Some,
    decreases columns,
{
    if columns > 0 {
        let c = columns - 1;
        lemma_all_columns_narrowed(reads, input, c as nat);
        let paths = paths_in(reads, c);
        assert forall|k: int| 0 <= k < paths.len() implies path_exists(
            input[c].data_type,
            #[trigger] paths[k],
        ) by {
            let i = lemma_read_of_path(reads, c, k);
            assert(path_exists(input[reads[i].index].data_type, reads[i].path));
        }
        law_existing_paths_can_be_narrowed_to(input[c], paths);
    }
}

/// The rule finds all that it can push down: where a projection has expressions, and each of them
/// reads a nested field of the scan that exists in its columns and that the table knows, the scan
/// is narrowed, however many expressions there are and however deep they reach.
pub proof fn law_nested_projections_are_pushed_down(exprs: Seq<ProjectionView>, scan: ScanView)
    requires
        exprs.len() > 0,
        forall|i: int|
            #![trigger exprs[i]]
            0 <= i < exprs.len() ==> reads_known_field(
                exprs[i].expr,
                scan.properties.schema.fields,
                scan.table.current_entries(),
            ),
    ensures
        narrowed_scan(exprs, scan) matches Ok(Some(_)),
{
    let input = scan.properties.schema.fields;
    let entries = scan.table.current_entries();
    lemma_all_paths_collected(exprs, input, entries);
    lemma_read_count(exprs, input);
    let reads = column_paths(exprs, input)->0;
    assert forall|i: int|
        #![trigger reads[i]]
        0 <= i < reads.len() implies path_exists(
        input[reads[i].index].data_type,
        reads[i].path,
    ) by {
        lemma_read_at(exprs, input, i);
        assert(reads_known_field(exprs[i].expr, input, entries));
    }
    lemma_all_columns_narrowed(reads, input, input.len());
    let read = narrowed_read(exprs, input)->0;
    let paths = read.paths;
    assert forall|k: int| 0 <= k < paths.len() implies entry_by_name(
        entries,
        #[trigger] paths[k],
    ) is Some by {
        let i = lemma_dotted_path_of(reads, input, input.len(), k);
        lemma_read_at(exprs, input, i);
        assert(reads_known_field(exprs[i].expr, input, entries));
    }
    law_known_paths_can_be_read(
        scan,
        paths,
        ArrowSchemaView { fields: read.fields, metadata: scan.properties.schema.metadata },
    );
}

/// The rule pushes down nothing else: the scan is narrowed only where the projection has
/// expressions and each of them reads such a field.
pub proof fn law_only_nested_projections_are_pushed_down(
    exprs: Seq<ProjectionView>,
    scan: ScanView,
    i: int,
)
    requires
        narrowed_scan(exprs, scan) matches Ok(Some(_)),
        0 <= i < exprs.len(),
    ensures
        reads_known_field(
            exprs[i].expr,
            scan.properties.schema.fields,
            scan.table.current_entries(),
        ),
{
    let input = scan.properties.schema.fields;
    let entries = scan.table.current_entries();
    let reads = column_paths(exprs, input)->0;
    let read = narrowed_read(exprs, input)->0;
    let declared = ArrowSchemaView {
        fields: read.fields,
        metadata: scan.properties.schema.metadata,
    };
    lemma_read_at(exprs, input, i);
    lemma_path_in(reads, i);
    let index = reads[i].index;
    lemma_moved_read(exprs, input, i);
    law_existing_paths_can_be_narrowed_to(input[index], paths_in(reads, index));
    let k = choose|k: int|
        0 <= k < paths_in(reads, index).len() && paths_in(reads, index)[k] == reads[i].path;
    assert(path_exists(input[index].data_type, paths_in(reads, index)[k]));
    lemma_dotted_path_in(reads, input, input.len(), index, reads[i].path);
    let m = choose|m: int|
        0 <= m < read.paths.len() && read.paths[m] == joined(input[index].name, reads[i].path);
    lemma_known_path(scan, read.paths, declared, m);
}

proof fn lemma_known_path(
    scan: ScanView,
    paths: Seq<Seq<char>>,
    schema: ArrowSchemaView,
    m: int,
)
    requires
        nested_projection(scan, paths, schema) is Ok,
        0 <= m < paths.len(),
    ensures
        entry_by_name(scan.table.current_entries(), paths[m]) is Some,
{
    if entry_by_name(scan.table.current_entries(), paths[m]) is None {
        lemma_some_path_is_unknown(scan, paths, schema, m);
    }
}

proof fn lemma_some_path_is_unknown(
    scan: ScanView,
    paths: Seq<Seq<char>>,
    schema: ArrowSchemaView,
    m: int,
)
    requires
        0 <= m < paths.len(),
        entry_by_name(scan.table.current_entries(), paths[m]) is None,
    ensures
        nested_projection(scan, paths, schema) is Err,
    decreases m,
{
    if forall|k: int|
        0 <= k < m ==> entry_by_name(
            scan.table.current_entries(),
            #[trigger] paths[k],
        ) is Some {
        law_unknown_path_is_an_error(scan, paths, schema, m);
    } else {
        let k = choose|k: int|
            0 <= k < m && entry_by_name(
                scan.table.current_entries(),
                #[trigger] paths[k],
            ) is None;
        lemma_some_path_is_unknown(scan, paths, schema, k);
    }
}

/// The rule fails only for a path that the table does not know: where each expression reads a
/// nested field of the scan's columns, and the table knows its dotted path, it does not fail.
pub proof fn law_rule_fails_only_for_unknown_paths(exprs: Seq<ProjectionView>, scan: ScanView) -> (
    i: int)
    requires
        narrowed_scan(exprs, scan) is Err,
    ensures
        0 <= i < exprs.len(),
        get_field_chain(exprs[i].expr) matches Some(chain) && entry_by_name(
            scan.table.current_entries(),
            joined(chain.column.name, chain.path),
        ) is None,
{
    let input = scan.properties.schema.fields;
    let entries = scan.table.current_entries();
    let reads = column_paths(exprs, input)->0;
    let read = narrowed_read(exprs, input)->0;
    lemma_read_count(exprs, input);
    if forall|k: int|
        0 <= k < read.paths.len() ==> entry_by_name(entries, #[trigger] read.paths[k]) is Some {
        law_known_paths_can_be_read(
            scan,
            read.paths,
            ArrowSchemaView { fields: read.fields, metadata: scan.properties.schema.metadata },
        );
    }
    let k = choose|k: int|
        0 <= k < read.paths.len() && entry_by_name(entries, #[trigger] read.paths[k]) is None;
    let i = lemma_dotted_path_of(reads, input, input.len(), k);
    lemma_read_at(exprs, input, i);
    i
}

/// A projection of nested fields is rewritten where the scan is its input, directly or below one
/// cooperative plan, which stays. It keeps its aliases, and nothing else is rewritten.
pub proof fn law_projections_over_scans_are_rewritten(
    exprs: Seq<ProjectionView>,
    scan: ScanView,
    schema: ArrowSchemaView,
)
    requires
        exprs.len() > 0,
        forall|i: int|
            #![trigger exprs[i]]
            0 <= i < exprs.len() ==> reads_known_field(
                exprs[i].expr,
                scan.properties.schema.fields,
                scan.table.current_entries(),
            ),
    ensures
        ({
            let leaf = PlanView::IcebergScan(scan);
            let direct = PlanView::Projection { exprs, input: Box::new(leaf), schema };
            rewritten(direct) matches Ok(Some(next)) && {
                &&& next matches PlanView::Projection { exprs: after, input, .. }
                &&& *input matches PlanView::IcebergScan(narrow)
                &&& Ok::<Option<ScanView>, ErrorView>(Some(narrow)) == narrowed_scan(exprs, scan)
                &&& after.len() == exprs.len()
                &&& forall|i: int| 0 <= i < exprs.len() ==> (#[trigger] after[i]).alias
                    == exprs[i].alias
            }
        }),
        ({
            let leaf = PlanView::IcebergScan(scan);
            let coop = PlanView::Cooperative(Box::new(leaf));
            let below = PlanView::Projection { exprs, input: Box::new(coop), schema };
            rewritten(below) matches Ok(Some(next)) && {
                &&& next matches PlanView::Projection { exprs: after, input, .. }
                &&& *input matches PlanView::Cooperative(inner)
                &&& *inner matches PlanView::IcebergScan(narrow)
                &&& Ok::<Option<ScanView>, ErrorView>(Some(narrow)) == narrowed_scan(exprs, scan)
                &&& after.len() == exprs.len()
                &&& forall|i: int| 0 <= i < exprs.len() ==> (#[trigger] after[i]).alias
                    == exprs[i].alias
            }
        }),
{
    law_nested_projections_are_pushed_down(exprs, scan);
}

/// A plan that is rewritten is a projection with a scan for its input, directly or below one
/// cooperative plan.
pub proof fn law_only_projections_over_scans_are_rewritten(plan: PlanView)
    requires
        !(rewritten(plan) == Ok::<Option<PlanView>, ErrorView>(None)),
    ensures
        plan matches PlanView::Projection { input, .. } && (*input is IcebergScan
            || is_cooperative_scan(*input)),
{
}

/// Whether a plan is a cooperative one with a scan for its input.
pub open spec fn is_cooperative_scan(plan: PlanView) -> bool {
    plan matches PlanView::Cooperative(inner) && *inner is IcebergScan
}

/// Whether the rule has nothing more to do anywhere in a tree: it leaves each plan in it alone, or
/// makes the same of it.
pub open spec fn settled(plan: PlanView) -> bool
    decreases plan,
{
    &&& rewritten(plan) == Ok::<Option<PlanView>, ErrorView>(None) || rewritten(plan) == Ok::<
        Option<PlanView>,
        ErrorView,
    >(Some(plan))
    &&& match plan {
        PlanView::Projection { input, .. } => settled(*input),
        PlanView::Cooperative(input) => settled(*input),
        PlanView::IcebergScan(_) => true,
        PlanView::Other { children, .. } => forall|i: int|
            0 <= i < children.len() ==> settled(#[trigger] children[i]),
    }
}

/// The rule comes to every plan in a tree: in what it hands back there is nothing left to rewrite,
/// at any depth and in any branch.
pub proof fn law_nothing_is_left_to_rewrite(plan: PlanView)
    requires
        optimized(plan) is Ok,
    ensures
        settled(optimized(plan)->Ok_0),
    decreases plan,
{
    let next = optimized(plan)->Ok_0;
    match plan {
        PlanView::Projection { exprs, input, schema } => {
            let below = optimized(*input)->Ok_0;
            let node = PlanView::Projection { exprs, input: Box::new(below), schema };
            law_nothing_is_left_to_rewrite(*input);
            if let Ok(Some(_)) = rewritten(node) {
                lemma_rewritten_again(node, next);
                let (scan, wrapper) = scan_below(below)->0;
                let narrow = (narrowed_scan(exprs, scan)->Ok_0)->0;
                let leaf = PlanView::IcebergScan(narrow);
                assert(settled(leaf));
                assert(settled(wrapped(wrapper, leaf)));
            }
        },
        PlanView::Cooperative(input) => law_nothing_is_left_to_rewrite(*input),
        PlanView::IcebergScan(_) => {},
        PlanView::Other { children, .. } => {
            let after = optimized_all(children)->Ok_0;
            lemma_each_is_optimized(children);
            assert forall|i: int| 0 <= i < after.len() implies settled(#[trigger] after[i]) by {
                assert(optimized(children[i]) == Ok::<PlanView, ErrorView>(after[i]));
                law_nothing_is_left_to_rewrite(children[i]);
            }
        },
    }
}

proof fn lemma_each_is_optimized(plans: Seq<PlanView>)
    requires
        optimized_all(plans) is Ok,
    ensures
        (optimized_all(plans)->Ok_0).len() == plans.len(),
        forall|i: int|
            0 <= i < plans.len() ==> optimized(plans[i]) == Ok::<PlanView, ErrorView>(
                #[trigger] (optimized_all(plans)->Ok_0)[i],
            ),
    decreases plans.len(),
{
    if plans.len() > 0 {
        let shorter = plans.drop_last();
        lemma_each_is_optimized(shorter);
        let after = optimized_all(plans)->Ok_0;
        let before = optimized_all(shorter)->Ok_0;
        assert forall|i: int| 0 <= i < plans.len() implies optimized(plans[i]) == Ok::<
            PlanView,
            ErrorView,
        >(#[trigger] after[i]) by {
            if i < shorter.len() {
                assert(after[i] == before[i]);
                assert(shorter[i] == plans[i]);
            }
        }
    }
}

/// Whether two trees are made of the same plans: they differ at most in the positions of columns,
/// and in what scans read of the same files and declare.
pub open spec fn same_outline(a: PlanView, b: PlanView) -> bool
    decreases a,
{
    match (a, b) {
        (
            PlanView::Projection { exprs, input, .. },
            PlanView::Projection { exprs: other_exprs, input: other_input, .. },
        ) => {
            &&& exprs.len() == other_exprs.len()
            &&& forall|i: int|
                0 <= i < exprs.len() ==> (#[trigger] exprs[i]).alias == other_exprs[i].alias
            &&& same_outline(*input, *other_input)
        },
        (PlanView::Cooperative(input), PlanView::Cooperative(other_input)) => same_outline(
            *input,
            *other_input,
        ),
        (PlanView::IcebergScan(scan), PlanView::IcebergScan(other)) => {
            &&& scan.table == other.table
            &&& scan.snapshot_id == other.snapshot_id
            &&& scan.predicates == other.predicates
            &&& scan.limit == other.limit
            &&& scan.tasks.len() == other.tasks.len()
            &&& forall|i: int|
                0 <= i < scan.tasks.len() ==> (#[trigger] scan.tasks[i]) == (TaskView {
                    project_field_ids: scan.tasks[i].project_field_ids,
                    ..other.tasks[i]
                })
        },
        (
            PlanView::Other { name, schema, children },
            PlanView::Other { name: other_name, schema: other_schema, children: others },
        ) => {
            &&& name == other_name
            &&& schema == other_schema
            &&& children.len() == others.len()
            &&& forall|i: int|
                0 <= i < children.len() ==> same_outline(#[trigger] children[i], others[i])
        },
        _ => false,
    }
}

proof fn lemma_same_outline_of_itself(plan: PlanView)
    ensures
        same_outline(plan, plan),
    decreases plan,
{
    match plan {
        PlanView::Projection { input, .. } => lemma_same_outline_of_itself(*input),
        PlanView::Cooperative(input) => lemma_same_outline_of_itself(*input),
        PlanView::IcebergScan(_) => {},
        PlanView::Other { children, .. } => {
            assert forall|i: int| 0 <= i < children.len() implies same_outline(
                #[trigger] children[i],
                children[i],
            ) by {
                lemma_same_outline_of_itself(children[i]);
            }
        },
    }
}

/// A scan that the rule has come to stands where it stood.
proof fn lemma_scan_below_is_kept(plan: PlanView)
    ensures
        optimized(plan) matches Ok(next) ==> scan_below(next) == scan_below(plan),
        scan_below(plan) is Some ==> optimized(plan) == Ok::<PlanView, ErrorView>(plan),
{
    reveal_with_fuel(optimized, 3);
    if let PlanView::Cooperative(input) = plan {
        if let Ok(next) = optimized(*input) {
            assert(next is IcebergScan <==> *input is IcebergScan);
        }
    }
}

/// The rule keeps the tree: the same plans in the same places, over the same files of the same
/// snapshots, with the same filters and limits.
pub proof fn law_rule_keeps_the_tree(plan: PlanView)
    requires
        optimized(plan) is Ok,
    ensures
        same_outline(plan, optimized(plan)->Ok_0),
    decreases plan,
{
    let next = optimized(plan)->Ok_0;
    match plan {
        PlanView::Projection { exprs, input, schema } => {
            let below = optimized(*input)->Ok_0;
            let node = PlanView::Projection { exprs, input: Box::new(below), schema };
            law_rule_keeps_the_tree(*input);
            if let Ok(Some(_)) = rewritten(node) {
                lemma_scan_below_is_kept(*input);
                let (scan, wrapper) = scan_below(*input)->0;
                let narrow = (narrowed_scan(exprs, scan)->Ok_0)->0;
                let leaf = PlanView::IcebergScan(scan);
                let narrowed_leaf = PlanView::IcebergScan(narrow);
                assert(*input == wrapped(wrapper, leaf));
                assert(same_outline(leaf, narrowed_leaf));
                assert(same_outline(wrapped(wrapper, leaf), wrapped(wrapper, narrowed_leaf)));
            }
        },
        PlanView::Cooperative(input) => law_rule_keeps_the_tree(*input),
        PlanView::IcebergScan(_) => lemma_same_outline_of_itself(plan),
        PlanView::Other { children, .. } => {
            let after = optimized_all(children)->Ok_0;
            lemma_each_is_optimized(children);
            assert forall|i: int| 0 <= i < children.len() implies same_outline(
                #[trigger] children[i],
                after[i],
            ) by {
                assert(optimized(children[i]) == Ok::<PlanView, ErrorView>(after[i]));
                law_rule_keeps_the_tree(children[i]);
            }
        },
    }
}

/// Whether the rule does not fail for any plan in a tree.
pub open spec fn can_be_rewritten(plan: PlanView) -> bool
    decreases plan,
{
    &&& rewritten(plan) is Ok
    &&& match plan {
        PlanView::Projection { input, .. } => can_be_rewritten(*input),
        PlanView::Cooperative(input) => can_be_rewritten(*input),
        PlanView::IcebergScan(_) => true,
        PlanView::Other { children, .. } => forall|i: int|
            0 <= i < children.len() ==> can_be_rewritten(#[trigger] children[i]),
    }
}

/// The rule fails for a tree only if it fails for a plan in it.
pub proof fn law_rule_fails_only_for_a_plan(plan: PlanView)
    requires
        can_be_rewritten(plan),
    ensures
        optimized(plan) is Ok,
    decreases plan,
{
    match plan {
        PlanView::Projection { exprs, input, schema } => {
            law_rule_fails_only_for_a_plan(*input);
            lemma_scan_below_is_kept(*input);
        },
        PlanView::Cooperative(input) => law_rule_fails_only_for_a_plan(*input),
        PlanView::IcebergScan(_) => {},
        PlanView::Other { children, .. } => {
            assert forall|i: int| 0 <= i < children.len() implies optimized(
                #[trigger] children[i],
            ) is Ok by {
                law_rule_fails_only_for_a_plan(children[i]);
            }
            lemma_all_can_be_optimized(children);
        },
    }
}

proof fn lemma_all_can_be_optimized(plans: Seq<PlanView>)
    requires
        forall|i: int| 0 <= i < plans.len() ==> optimized(#[trigger] plans[i]) is Ok,
    ensures
        optimized_all(plans) is Ok,
    decreases plans.len(),
{
    if plans.len() > 0 {
        let shorter = plans.drop_last();
        assert forall|i: int| 0 <= i < shorter.len() implies optimized(
            #[trigger] shorter[i],
        ) is Ok by {
            assert(shorter[i] == plans[i]);
        }
        lemma_all_can_be_optimized(shorter);
        assert(optimized(plans[plans.len() - 1]) is Ok);
    }
}

/// The position of the column that each expression of a projection reads a nested field of.
pub open spec fn columns_of_chains(exprs: Seq<ProjectionView>) -> Seq<int> {
    exprs.map_values(|e: ProjectionView| (get_field_chain(e.expr)->0).column.index as int)
}

/// How many of the first `n` numbers are `number`.
pub open spec fn count_of(numbers: Seq<int>, number: int, n: int) -> nat
    decreases n,
{
    if n <= 0 {
        0
    } else {
        count_of(numbers, number, n - 1) + (if numbers[n - 1] == number {
            1nat
        } else {
            0nat
        })
    }
}

/// How many of the first `n` numbers are below `bound`.
pub open spec fn count_below(numbers: Seq<int>, bound: int, n: int) -> nat
    decreases n,
{
    if n <= 0 {
        0
    } else {
        count_below(numbers, bound, n - 1) + (if numbers[n - 1] < bound {
            1nat
        } else {
            0nat
        })
    }
}

/// How many of the first `columns` columns an expression reads a nested field of.
pub open spec fn count_read(exprs: Seq<ProjectionView>, columns: int) -> nat
    decreases columns,
{
    if columns <= 0 {
        0
    } else {
        count_read(exprs, columns - 1) + (if columns_of_chains(exprs).contains(columns - 1) {
            1nat
        } else {
            0nat
        })
    }
}

proof fn lemma_count_below_step(numbers: Seq<int>, bound: int, n: int)
    ensures
        count_below(numbers, bound + 1, n) == count_below(numbers, bound, n) + count_of(
            numbers,
            bound,
            n,
        ),
    decreases n,
{
    if n > 0 {
        lemma_count_below_step(numbers, bound, n - 1);
    }
}

proof fn lemma_count_below_zero(numbers: Seq<int>, n: int)
    requires
        n <= numbers.len(),
        forall|i: int| 0 <= i < numbers.len() ==> #[trigger] numbers[i] >= 0,
    ensures
        count_below(numbers, 0, n) == 0,
    decreases n,
{
    if n > 0 {
        lemma_count_below_zero(numbers, n - 1);
        assert(numbers[n - 1] >= 0);
    }
}

proof fn lemma_count_below_all(numbers: Seq<int>, bound: int, n: int)
    requires
        0 <= n <= numbers.len(),
        forall|i: int| 0 <= i < numbers.len() ==> #[trigger] numbers[i] < bound,
    ensures
        count_below(numbers, bound, n) == n,
    decreases n,
{
    if n > 0 {
        lemma_count_below_all(numbers, bound, n - 1);
        assert(numbers[n - 1] < bound);
    }
}

/// The columns of nested fields.
spec fn indices(reads: Seq<ColumnPath>) -> Seq<int> {
    reads.map_values(|r: ColumnPath| r.index)
}

proof fn lemma_paths_counted(reads: Seq<ColumnPath>, c: int, n: int)
    requires
        0 <= n <= reads.len(),
    ensures
        paths_in(reads.take(n), c).len() == count_of(indices(reads), c, n),
    decreases n,
{
    if n > 0 {
        lemma_paths_counted(reads, c, n - 1);
        assert(reads.take(n).drop_last() =~= reads.take(n - 1));
        assert(reads.take(n).last() == reads[n - 1]);
        assert(indices(reads)[n - 1] == reads[n - 1].index);
    } else {
        assert(reads.take(0) =~= Seq::<ColumnPath>::empty());
    }
}

proof fn lemma_path_at(reads: Seq<ColumnPath>, c: int, i: int, n: int)
    requires
        0 <= i < n <= reads.len(),
        reads[i].index == c,
    ensures
        count_of(indices(reads), c, i) < paths_in(reads.take(n), c).len(),
        paths_in(reads.take(n), c)[count_of(indices(reads), c, i) as int] == reads[i].path,
    decreases n,
{
    assert(reads.take(n).drop_last() =~= reads.take(n - 1));
    assert(reads.take(n).last() == reads[n - 1]);
    if i < n - 1 {
        lemma_path_at(reads, c, i, n - 1);
    } else {
        lemma_paths_counted(reads, c, i);
    }
}

proof fn lemma_dotted_counted(reads: Seq<ColumnPath>, input: Seq<FieldView>, columns: nat)
    requires
        forall|i: int| 0 <= i < reads.len() ==> (#[trigger] reads[i]).index >= 0,
    ensures
        dotted_paths(reads, input, columns).len() == count_below(
            indices(reads),
            columns as int,
            reads.len() as int,
        ),
    decreases columns,
{
    let numbers = indices(reads);
    if columns == 0 {
        assert forall|i: int| 0 <= i < numbers.len() implies #[trigger] numbers[i] >= 0 by {
            assert(numbers[i] == reads[i].index);
        }
        lemma_count_below_zero(numbers, reads.len() as int);
    } else {
        lemma_dotted_counted(reads, input, (columns - 1) as nat);
        lemma_count_below_step(numbers, columns - 1, reads.len() as int);
        lemma_paths_counted(reads, columns - 1, reads.len() as int);
        assert(reads.take(reads.len() as int) =~= reads);
    }
}

proof fn lemma_dotted_prefix(
    reads: Seq<ColumnPath>,
    input: Seq<FieldView>,
    columns: nat,
    more: nat,
    k: int,
)
    requires
        columns <= more,
        0 <= k < dotted_paths(reads, input, columns).len(),
    ensures
        k < dotted_paths(reads, input, more).len(),
        dotted_paths(reads, input, more)[k] == dotted_paths(reads, input, columns)[k],
    decreases more,
{
    if columns < more {
        lemma_dotted_prefix(reads, input, columns, (more - 1) as nat, k);
    }
}

/// A narrowed scan is asked for one path for each expression: column by column, in the order of the
/// scan's columns, and inside a column in the order of the expressions.
pub proof fn law_paths_stand_in_order(exprs: Seq<ProjectionView>, scan: ScanView, i: int)
    requires
        narrowed_scan(exprs, scan) matches Ok(Some(_)),
        0 <= i < exprs.len(),
    ensures
        ({
            let next = (narrowed_scan(exprs, scan)->Ok_0)->0;
            let columns = columns_of_chains(exprs);
            let chain = get_field_chain(exprs[i].expr)->0;
            let place = count_below(columns, columns[i], exprs.len() as int) + count_of(
                columns,
                columns[i],
                i,
            );
            &&& next.projection matches Some(paths)
            &&& paths.len() == exprs.len()
            &&& place < paths.len()
            &&& paths[place as int] == joined(chain.column.name, chain.path)
        }),
{
    let input = scan.properties.schema.fields;
    let reads = column_paths(exprs, input)->0;
    let columns = columns_of_chains(exprs);
    let all = dotted_paths(reads, input, input.len());
    lemma_read_count(exprs, input);
    assert forall|k: int| 0 <= k < reads.len() implies 0 <= (#[trigger] reads[k]).index
        < input.len() && reads[k].index == columns[k] by {
        lemma_read_at(exprs, input, k);
    }
    assert(indices(reads) =~= columns);
    lemma_dotted_counted(reads, input, input.len());
    lemma_count_below_all(columns, input.len() as int, exprs.len() as int);
    let c = columns[i];
    lemma_read_at(exprs, input, i);
    lemma_path_at(reads, c, i, reads.len() as int);
    assert(reads.take(reads.len() as int) =~= reads);
    lemma_dotted_counted(reads, input, c as nat);
    let before = dotted_paths(reads, input, c as nat);
    let own = dotted(input[c].name, paths_in(reads, c));
    let k = count_of(columns, c, i) as int;
    let upto = dotted_paths(reads, input, (c + 1) as nat);
    assert(own[k] == joined(input[c].name, reads[i].path));
    assert(upto[before.len() + k] == own[k]);
    lemma_dotted_prefix(reads, input, (c + 1) as nat, input.len(), before.len() + k);
}

proof fn lemma_reads_counted(exprs: Seq<ProjectionView>, input: Seq<FieldView>, columns: nat)
    requires
        column_paths(exprs, input) is Some,
    ensures
        read_before(column_paths(exprs, input)->0, columns) == count_read(exprs, columns as int),
    decreases columns,
{
    if columns > 0 {
        lemma_reads_counted(exprs, input, (columns - 1) as nat);
        lemma_read_by_chains(exprs, input, columns - 1);
    }
}

proof fn lemma_read_by_chains(exprs: Seq<ProjectionView>, input: Seq<FieldView>, c: int)
    requires
        column_paths(exprs, input) is Some,
    ensures
        is_read(column_paths(exprs, input)->0, c) <==> columns_of_chains(exprs).contains(c),
{
    let reads = column_paths(exprs, input)->0;
    let chains = columns_of_chains(exprs);
    lemma_read_count(exprs, input);
    if is_read(reads, c) {
        let i = lemma_read_of_path(reads, c, 0);
        lemma_read_at(exprs, input, i);
        assert(chains[i] == c);
    }
    if chains.contains(c) {
        let i = choose|i: int| 0 <= i < chains.len() && chains[i] == c;
        lemma_read_at(exprs, input, i);
        lemma_path_in(reads, i);
    }
}

/// The columns of a narrowed scan are those of the scan that an expression reads a nested field of,
/// each once and in their order. Each keeps its name, nullability and annotations, and so does the
/// schema.
pub proof fn law_read_columns_are_declared(exprs: Seq<ProjectionView>, scan: ScanView, c: int)
    requires
        narrowed_scan(exprs, scan) matches Ok(Some(_)),
        0 <= c < scan.properties.schema.fields.len(),
    ensures
        ({
            let input = scan.properties.schema.fields;
            let next = (narrowed_scan(exprs, scan)->Ok_0)->0.properties.schema;
            let place = count_read(exprs, c) as int;
            &&& next.fields.len() == count_read(exprs, input.len() as int)
            &&& next.metadata == scan.properties.schema.metadata
            &&& columns_of_chains(exprs).contains(c) ==> {
                &&& place < next.fields.len()
                &&& next.fields[place] == (FieldView {
                    data_type: next.fields[place].data_type,
                    ..input[c]
                })
            }
        }),
{
    let input = scan.properties.schema.fields;
    let reads = column_paths(exprs, input)->0;
    lemma_narrowed_columns(reads, input, input.len());
    lemma_reads_counted(exprs, input, input.len());
    lemma_reads_counted(exprs, input, c as nat);
    lemma_read_by_chains(exprs, input, c);
    if is_read(reads, c) {
        law_existing_paths_can_be_narrowed_to(input[c], paths_in(reads, c));
    }
}

/// Nothing is left in a column of a narrowed scan but what expressions read: a path that exists in
/// it goes on from one that an expression reads, or leads towards one.
pub proof fn law_unread_parts_are_not_declared(
    exprs: Seq<ProjectionView>,
    scan: ScanView,
    c: int,
    path: Seq<Seq<char>>,
) -> (i: int)
    requires
        narrowed_scan(exprs, scan) matches Ok(Some(next)) && path_exists(
            next.properties.schema.fields[count_read(exprs, c) as int].data_type,
            path,
        ),
        0 <= c < scan.properties.schema.fields.len(),
        columns_of_chains(exprs).contains(c),
    ensures
        0 <= i < exprs.len(),
        columns_of_chains(exprs)[i] == c,
        get_field_chain(exprs[i].expr) matches Some(chain) && on_one_line(chain.path, path),
{
    let input = scan.properties.schema.fields;
    let reads = column_paths(exprs, input)->0;
    let paths = paths_in(reads, c);
    lemma_narrowed_columns(reads, input, input.len());
    lemma_reads_counted(exprs, input, c as nat);
    lemma_read_by_chains(exprs, input, c);
    lemma_read_count(exprs, input);
    assert(is_read(reads, c));
    law_only_read_parts_are_left(input[c], paths, path);
    let k = choose|k: int| 0 <= k < paths.len() && on_one_line(#[trigger] paths[k], path);
    let i = lemma_read_of_path(reads, c, k);
    lemma_read_at(exprs, input, i);
    i
}

/// An expression of a rewritten projection reads its column at the number of read columns that
/// stand before it, under its name, and goes on through the same path.
pub proof fn law_columns_move_to_the_front(exprs: Seq<ProjectionView>, scan: ScanView, i: int)
    requires
        narrowed_scan(exprs, scan) matches Ok(Some(_)),
        0 <= i < exprs.len(),
    ensures
        ({
            let after = reindexed(exprs, scan.properties.schema.fields);
            let chain = get_field_chain(exprs[i].expr)->0;
            &&& after.len() == exprs.len()
            &&& after[i].alias == exprs[i].alias
            &&& get_field_chain(after[i].expr) matches Some(next) && {
                &&& next.path == chain.path
                &&& next.column.name == chain.column.name
                &&& next.column.index == count_read(exprs, chain.column.index as int)
            }
        }),
{
    let input = scan.properties.schema.fields;
    let reads = column_paths(exprs, input)->0;
    let positions = new_positions(reads, input.len());
    lemma_read_at(exprs, input, i);
    let chain = get_field_chain(exprs[i].expr)->0;
    let index = chain.column.index as int;
    lemma_reads_counted(exprs, input, index as nat);
    lemma_read_before(reads, 0, index as nat);
    lemma_moved_chain(exprs[i].expr, positions);
    assert(positions[index] == read_before(reads, index as nat));
}

/// The rule goes from the leaves up and leaves alone what it does not rewrite: a scan, a plan that only
/// hands rows on, and a projection of anything but a scan stay as they are on top of what the rule
/// makes of their input. A projection of a scan becomes what the rule makes of it alone.
pub proof fn law_rule_goes_from_the_leaves_up(plan: PlanView)
    ensures
        plan is IcebergScan ==> optimized(plan) == Ok::<PlanView, ErrorView>(plan),
        plan matches PlanView::Other { children, .. } && children.len() == 0 ==> optimized(plan)
            == Ok::<PlanView, ErrorView>(plan),
        plan matches PlanView::Cooperative(input) ==> match optimized(*input) {
            Ok(next) => optimized(plan) == Ok::<PlanView, ErrorView>(
                PlanView::Cooperative(Box::new(next)),
            ),
            Err(error) => optimized(plan) == Err::<PlanView, ErrorView>(error),
        },
        plan matches PlanView::Projection { exprs, input, schema } ==> if *input is IcebergScan
            || is_cooperative_scan(*input) {
            match rewritten(plan) {
                Ok(Some(next)) => optimized(plan) == Ok::<PlanView, ErrorView>(next),
                Ok(None) => optimized(plan) == Ok::<PlanView, ErrorView>(plan),
                Err(error) => optimized(plan) == Err::<PlanView, ErrorView>(error),
            }
        } else {
            match optimized(*input) {
                Ok(next) => optimized(plan) == Ok::<PlanView, ErrorView>(
                    PlanView::Projection { exprs, input: Box::new(next), schema },
                ),
                Err(error) => optimized(plan) == Err::<PlanView, ErrorView>(error),
            }
        },
{
    match plan {
        PlanView::Projection { input, .. } => lemma_scan_below_is_kept(*input),
        PlanView::Other { children, .. } => {
            if children.len() == 0 {
                assert(children =~= Seq::<PlanView>::empty());
                assert(optimized_all(children) == Ok::<Seq<PlanView>, ErrorView>(children));
            }
        },
        _ => {},
    }
}

/// A plan with several inputs keeps its name and columns, and has what the rule makes of each input in
/// its place. If the rule fails for an input, and for none before it, it fails with that error.
pub proof fn law_rule_goes_into_every_input(
    name: Seq<char>,
    schema: ArrowSchemaView,
    children: Seq<PlanView>,
    i: int,
)
    requires
        0 <= i < children.len(),
    ensures
        ({
            let plan = PlanView::Other { name, schema, children };
            &&& optimized(plan) matches Ok(next) ==> {
                &&& next matches PlanView::Other {
                    name: next_name,
                    schema: next_schema,
                    children: after,
                }
                &&& next_name == name
                &&& next_schema == schema
                &&& after.len() == children.len()
                &&& optimized(children[i]) == Ok::<PlanView, ErrorView>(after[i])
            }
            &&& (forall|k: int| 0 <= k < i ==> optimized(#[trigger] children[k]) is Ok) && optimized(
                children[i],
            ) is Err ==> optimized(plan) == Err::<PlanView, ErrorView>(
                optimized(children[i])->Err_0,
            )
        }),
{
    let plan = PlanView::Other { name, schema, children };
    if optimized(plan) is Ok {
        lemma_each_is_optimized(children);
        let after = optimized_all(children)->Ok_0;
        assert(optimized(children[i]) == Ok::<PlanView, ErrorView>(after[i]));
    }
    if (forall|k: int| 0 <= k < i ==> optimized(#[trigger] children[k]) is Ok) && optimized(
        children[i],
    ) is Err {
        lemma_first_error(children, i);
    }
}

proof fn lemma_first_error(plans: Seq<PlanView>, i: int)
    requires
        0 <= i < plans.len(),
        forall|k: int| 0 <= k < i ==> optimized(#[trigger] plans[k]) is Ok,
        optimized(plans[i]) is Err,
    ensures
        optimized_all(plans) == Err::<Seq<PlanView>, ErrorView>(optimized(plans[i])->Err_0),
    decreases plans.len(),
{
    let shorter = plans.drop_last();
    if i < plans.len() - 1 {
        assert forall|k: int| 0 <= k < i implies optimized(#[trigger] shorter[k]) is Ok by {
            assert(shorter[k] == plans[k]);
        }
        lemma_first_error(shorter, i);
    } else {
        assert forall|k: int| 0 <= k < shorter.len() implies optimized(
            #[trigger] shorter[k],
        ) is Ok by {
            assert(shorter[k] == plans[k]);
        }
        lemma_all_can_be_optimized(shorter);
    }
}

/// The scan below a plan is the plan itself or the input of a cooperative plan, and the wrapper that
/// was taken off is put on again.
pub proof fn law_scans_below_plans(plan: PlanView, scan: ScanView)
    ensures
        scan_below(plan) == Some((scan, ScanWrapper::Direct)) <==> plan == PlanView::IcebergScan(
            scan,
        ),
        scan_below(plan) == Some((scan, ScanWrapper::Cooperative)) <==> plan
            == PlanView::Cooperative(Box::new(PlanView::IcebergScan(scan))),
        scan_below(plan) is None <==> !(plan is IcebergScan || is_cooperative_scan(plan)),
        scan_below(plan) matches Some((found, wrapper)) ==> wrapped(
            wrapper,
            PlanView::IcebergScan(found),
        ) == plan,
{
}

/// A projection that is rewritten has its expressions in their order and under their aliases, and each
/// is the same but for the positions of its columns: a column goes to the number of read columns that
/// stand before it.
pub proof fn law_rewritten_expressions(
    exprs: Seq<ProjectionView>,
    input: PlanView,
    schema: ArrowSchemaView,
    scan: ScanView,
    i: int,
)
    requires
        input == PlanView::IcebergScan(scan) || input == PlanView::Cooperative(
            Box::new(PlanView::IcebergScan(scan)),
        ),
        rewritten(PlanView::Projection { exprs, input: Box::new(input), schema }) matches Ok(
            Some(_),
        ),
        0 <= i < exprs.len(),
    ensures
        rewritten(PlanView::Projection { exprs, input: Box::new(input), schema }) matches Ok(
            Some(next),
        ) && next matches PlanView::Projection { exprs: after, .. } && {
            let positions = Seq::new(
                scan.properties.schema.fields.len(),
                |c: int| count_read(exprs, c) as usize,
            );
            &&& after.len() == exprs.len()
            &&& after[i].alias == exprs[i].alias
            &&& after[i].expr == moved(exprs[i].expr, positions)
        },
{
    let fields = scan.properties.schema.fields;
    let positions = Seq::new(fields.len(), |c: int| count_read(exprs, c) as usize);
    let reads = column_paths(exprs, fields)->0;
    assert forall|c: int| 0 <= c < fields.len() implies #[trigger] new_positions(
        reads,
        fields.len(),
    )[c] == positions[c] by {
        lemma_reads_counted(exprs, fields, c as nat);
    }
    assert(new_positions(reads, fields.len()) =~= positions);
}

/// Whether an expression reads a nested field of the scan's columns: through a chain of `get_field`
/// calls with at least one name, from a column at its position and under its name, along a path that
/// exists in the structs of that column.
pub open spec fn reads_nested_field(expr: ExprView, input: Seq<FieldView>) -> bool {
    &&& get_field_chain(expr) matches Some(chain)
    &&& chain.path.len() > 0
    &&& chain.column.index < input.len()
    &&& input[chain.column.index as int].name == chain.column.name
    &&& path_exists(input[chain.column.index as int].data_type, chain.path)
}

/// A projection without expressions, and one with an expression that does not read a nested field of
/// the scan's columns, leave the scan as it is, whatever the table knows.
pub proof fn law_other_projections_leave_the_scan(exprs: Seq<ProjectionView>, scan: ScanView)
    requires
        exprs.len() == 0 || exists|i: int|
            0 <= i < exprs.len() && !reads_nested_field(
                (#[trigger] exprs[i]).expr,
                scan.properties.schema.fields,
            ),
    ensures
        narrowed_scan(exprs, scan) == Ok::<Option<ScanView>, ErrorView>(None),
{
    let input = scan.properties.schema.fields;
    if narrowed_read(exprs, input) is Some {
        lemma_read_count(exprs, input);
        let reads = column_paths(exprs, input)->0;
        let i = choose|i: int|
            0 <= i < exprs.len() && !reads_nested_field((#[trigger] exprs[i]).expr, input);
        lemma_read_at(exprs, input, i);
        lemma_path_in(reads, i);
        let index = reads[i].index;
        lemma_moved_read(exprs, input, i);
        law_existing_paths_can_be_narrowed_to(input[index], paths_in(reads, index));
        let k = choose|k: int|
            0 <= k < paths_in(reads, index).len() && paths_in(reads, index)[k] == reads[i].path;
        assert(path_exists(input[index].data_type, paths_in(reads, index)[k]));
    }
}

/// Where every expression reads a nested field of the scan's columns, and the table does not know the
/// dotted path of one of them, the rule fails. The error names such a path.
pub proof fn law_unknown_fields_are_an_error(
    exprs: Seq<ProjectionView>,
    scan: ScanView,
    unknown: int,
) -> (i: int)
    requires
        forall|k: int|
            #![trigger exprs[k]]
            0 <= k < exprs.len() ==> reads_nested_field(
                exprs[k].expr,
                scan.properties.schema.fields,
            ),
        0 <= unknown < exprs.len(),
        get_field_chain(exprs[unknown].expr) matches Some(chain) && entry_by_name(
            scan.table.current_entries(),
            joined(chain.column.name, chain.path),
        ) is None,
    ensures
        0 <= i < exprs.len(),
        get_field_chain(exprs[i].expr) matches Some(chain) && entry_by_name(
            scan.table.current_entries(),
            joined(chain.column.name, chain.path),
        ) is None && (narrowed_scan(exprs, scan) matches Err(error) && error.kind == ErrorKind::Plan
            && error.message == "Column `"@ + joined(chain.column.name, chain.path)
            + "` not found in iceberg table schema"@),
{
    let input = scan.properties.schema.fields;
    let entries = scan.table.current_entries();
    lemma_nested_paths_collected(exprs, input);
    lemma_read_count(exprs, input);
    let reads = column_paths(exprs, input)->0;
    assert forall|k: int|
        #![trigger reads[k]]
        0 <= k < reads.len() implies path_exists(
        input[reads[k].index].data_type,
        reads[k].path,
    ) by {
        lemma_read_at(exprs, input, k);
        assert(reads_nested_field(exprs[k].expr, input));
    }
    lemma_all_columns_narrowed(reads, input, input.len());
    let read = narrowed_read(exprs, input)->0;
    let schema = ArrowSchemaView {
        fields: read.fields,
        metadata: scan.properties.schema.metadata,
    };
    lemma_read_at(exprs, input, unknown);
    lemma_path_in(reads, unknown);
    let index = reads[unknown].index;
    assert(reads_nested_field(exprs[unknown].expr, input));
    lemma_dotted_path_in(reads, input, input.len(), index, reads[unknown].path);
    let m = choose|m: int|
        0 <= m < read.paths.len() && read.paths[m] == joined(
            input[index].name,
            reads[unknown].path,
        );
    let first = lemma_first_unknown(scan, read.paths, m);
    law_unknown_path_is_an_error(scan, read.paths, schema, first);
    let i = lemma_dotted_path_of(reads, input, input.len(), first);
    lemma_read_at(exprs, input, i);
    i
}

proof fn lemma_first_unknown(scan: ScanView, paths: Seq<Seq<char>>, m: int) -> (first: int)
    requires
        0 <= m < paths.len(),
        entry_by_name(scan.table.current_entries(), paths[m]) is None,
    ensures
        0 <= first <= m,
        entry_by_name(scan.table.current_entries(), paths[first]) is None,
        forall|k: int|
            0 <= k < first ==> entry_by_name(
                scan.table.current_entries(),
                #[trigger] paths[k],
            ) is Some,
    decreases m,
{
    if forall|k: int|
        0 <= k < m ==> entry_by_name(
            scan.table.current_entries(),
            #[trigger] paths[k],
        ) is Some {
        m
    } else {
        let k = choose|k: int|
            0 <= k < m && entry_by_name(
                scan.table.current_entries(),
                #[trigger] paths[k],
            ) is None;
        lemma_first_unknown(scan, paths, k)
    }
}

proof fn lemma_nested_paths_collected(exprs: Seq<ProjectionView>, input: Seq<FieldView>)
    requires
        forall|i: int|
            #![trigger exprs[i]]
            0 <= i < exprs.len() ==> reads_nested_field(exprs[i].expr, input),
    ensures
        column_paths(exprs, input) is Some,
    decreases exprs.len(),
{
    if exprs.len() > 0 {
        let shorter = exprs.drop_last();
        assert forall|i: int|
            #![trigger shorter[i]]
            0 <= i < shorter.len() implies reads_nested_field(shorter[i].expr, input) by {
            assert(shorter[i] == exprs[i]);
        }
        lemma_nested_paths_collected(shorter, input);
        assert(reads_nested_field(exprs[exprs.len() - 1].expr, input));
    }
}

} // verus!
