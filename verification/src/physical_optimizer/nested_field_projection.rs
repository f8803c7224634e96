//! Pushes the projection of nested fields into the scan below it.
//!
//! A scan is asked for whole top-level columns. Where a projection above it reads nothing but
//! nested fields, through chains of `get_field` calls, the scan can be asked for those fields
//! alone. This rule looks for a projection whose every expression is such a chain, rooted at a
//! column of a scan that is its input, directly or below one cooperative plan. It then makes the
//! scan read only the dotted paths of the chains, and declare columns that hold no more than those.
//! Columns that nothing is read of are gone from the scan, and the expressions read the others
//! where they stand then.

use vstd::prelude::*;

use std::collections::BTreeMap;
use std::sync::Arc;

use crate::arrow::schema::{
    field_models, ArrowSchema, ArrowSchemaView, Field, FieldRef, FieldView,
};
use crate::error::{Error, ErrorView};
use crate::physical_expr::{field_of_expr, move_columns, moved, Column, ExprView, PhysicalExpr};
use crate::physical_optimizer::get_field_chain::{extract_get_field_chain, get_field_chain};
use crate::physical_optimizer::narrowing::{narrow_field, narrowed, path_texts};
use crate::physical_optimizer::nested_field_projection_laws::law_moved_columns_are_found;
use crate::physical_plan::plan::{
    plan_schema, projected_schema, projection_plan, projection_views, ExecutionPlan, PlanView,
    ProjectionExec, ProjectionExpr, ProjectionView,
};
use crate::physical_plan::scan::{nested_projection, IcebergTableScan, ScanView};
use crate::text::{joined, prefix_with_field_name, same_text, texts};

verus! {

/// A nested field: the position of its column, and the path inside the column.
pub struct ColumnPath {
    pub index: int,
    pub path: Seq<Seq<char>>,
}

/// The nested field that an expression reads. There is none where the expression reads a whole
/// column, or where its column is not that of the input at its position.
pub open spec fn column_path(expr: ExprView, input: Seq<FieldView>) -> Option<ColumnPath> {
    match get_field_chain(expr) {
        Some(chain) => if chain.path.len() > 0 && chain.column.index < input.len()
            && input[chain.column.index as int].name == chain.column.name {
            Some(ColumnPath { index: chain.column.index as int, path: chain.path })
        } else {
            None
        },
        None => None,
    }
}

/// The nested fields that the expressions of a projection read, if each of them reads one.
pub open spec fn column_paths(exprs: Seq<ProjectionView>, input: Seq<FieldView>) -> Option<
    Seq<ColumnPath>,
>
    decreases exprs.len(),
{
    if exprs.len() == 0 {
        Some(Seq::empty())
    } else {
        match (column_paths(exprs.drop_last(), input), column_path(exprs.last().expr, input)) {
            (Some(before), Some(read)) => Some(before.push(read)),
            _ => None,
        }
    }
}

/// The paths inside one column, in the order in which they are read.
pub open spec fn paths_in(reads: Seq<ColumnPath>, index: int) -> Seq<Seq<Seq<char>>>
    decreases reads.len(),
{
    if reads.len() == 0 {
        Seq::empty()
    } else {
        let before = paths_in(reads.drop_last(), index);
        if reads.last().index == index {
            before.push(reads.last().path)
        } else {
            before
        }
    }
}

/// Whether something is read of a column.
pub open spec fn is_read(reads: Seq<ColumnPath>, column: int) -> bool {
    paths_in(reads, column).len() > 0
}

/// How many of the first `columns` columns something is read of.
pub open spec fn read_before(reads: Seq<ColumnPath>, columns: nat) -> nat
    decreases columns,
{
    if columns == 0 {
        0
    } else {
        let before = read_before(reads, (columns - 1) as nat);
        if is_read(reads, columns - 1) {
            before + 1
        } else {
            before
        }
    }
}

/// The positions of the first `columns` columns when those that nothing is read of are gone.
pub open spec fn new_positions(reads: Seq<ColumnPath>, columns: nat) -> Seq<usize> {
    Seq::new(columns, |c: int| read_before(reads, c as nat) as usize)
}

/// The dotted paths that are read of the first `columns` columns, column by column.
pub open spec fn dotted_paths(
    reads: Seq<ColumnPath>,
    input: Seq<FieldView>,
    columns: nat,
) -> Seq<Seq<char>>
    decreases columns,
{
    if columns == 0 {
        Seq::empty()
    } else {
        dotted_paths(reads, input, (columns - 1) as nat) + dotted(
            input[columns - 1].name,
            paths_in(reads, columns - 1),
        )
    }
}

/// The paths inside a column, each as one dotted path that starts with the column's name.
pub open spec fn dotted(column: Seq<char>, paths: Seq<Seq<Seq<char>>>) -> Seq<Seq<char>> {
    paths.map_values(|path: Seq<Seq<char>>| joined(column, path))
}

/// Those of the first `columns` columns that something is read of, each narrowed to what is read.
pub open spec fn narrowed_columns(
    reads: Seq<ColumnPath>,
    input: Seq<FieldView>,
    columns: nat,
) -> Option<Seq<FieldView>>
    decreases columns,
{
    if columns == 0 {
        Some(Seq::empty())
    } else {
        let paths = paths_in(reads, columns - 1);
        match narrowed_columns(reads, input, (columns - 1) as nat) {
            Some(before) => if paths.len() == 0 {
                Some(before)
            } else {
                match narrowed(input[columns - 1], paths) {
                    Some(field) => Some(before.push(field)),
                    None => None,
                }
            },
            None => None,
        }
    }
}

/// What a scan is asked for in place of whole columns.
pub struct NarrowedRead {
    /// The dotted paths to read.
    pub paths: Seq<Seq<char>>,
    /// The columns that are made of them.
    pub fields: Seq<FieldView>,
}

/// What a scan with the columns `input` can be asked for on behalf of a projection; `None` where it
/// cannot be narrowed.
pub open spec fn narrowed_read(exprs: Seq<ProjectionView>, input: Seq<FieldView>) -> Option<
    NarrowedRead,
> {
    match column_paths(exprs, input) {
        Some(reads) => if reads.len() == 0 {
            None
        } else {
            match narrowed_columns(reads, input, input.len()) {
                Some(fields) => Some(
                    NarrowedRead { paths: dotted_paths(reads, input, input.len()), fields },
                ),
                None => None,
            }
        },
        None => None,
    }
}

/// The scan that reads what a projection on `scan` needs and no more; `None` where the scan stays
/// as it is.
pub open spec fn narrowed_scan(exprs: Seq<ProjectionView>, scan: ScanView) -> Result<
    Option<ScanView>,
    ErrorView,
> {
    let schema = scan.properties.schema;
    match narrowed_read(exprs, schema.fields) {
        Some(read) => match nested_projection(
            scan,
            read.paths,
            ArrowSchemaView { fields: read.fields, metadata: schema.metadata },
        ) {
            Ok(next) => Ok(Some(next)),
            Err(error) => Err(error),
        },
        None => Ok(None),
    }
}

/// The expressions of a projection with their columns moved to the positions that are listed for
/// their own.
pub open spec fn moved_exprs(exprs: Seq<ProjectionView>, positions: Seq<usize>) -> Seq<
    ProjectionView,
> {
    exprs.map_values(
        |e: ProjectionView| ProjectionView { expr: moved(e.expr, positions), alias: e.alias },
    )
}

/// The expressions of a projection on `input` that read the same columns where they stand when
/// those that nothing is read of are gone.
pub open spec fn reindexed(exprs: Seq<ProjectionView>, input: Seq<FieldView>) -> Seq<
    ProjectionView,
> {
    moved_exprs(exprs, new_positions(column_paths(exprs, input)->0, input.len()))
}

/// What stands between a projection and the scan below it.
#[derive(Debug, Clone, Copy, PartialEq, Eq, Structural)]
pub enum ScanWrapper {
    Direct,
    Cooperative,
}

/// The scan that a plan is, directly or below one cooperative plan.
pub open spec fn scan_below(plan: PlanView) -> Option<(ScanView, ScanWrapper)> {
    match plan {
        PlanView::IcebergScan(scan) => Some((scan, ScanWrapper::Direct)),
        PlanView::Cooperative(input) => match *input {
            PlanView::IcebergScan(scan) => Some((scan, ScanWrapper::Cooperative)),
            _ => None,
        },
        _ => None,
    }
}

/// A plan with a wrapper put on.
pub open spec fn wrapped(wrapper: ScanWrapper, plan: PlanView) -> PlanView {
    match wrapper {
        ScanWrapper::Direct => plan,
        ScanWrapper::Cooperative => PlanView::Cooperative(Box::new(plan)),
    }
}

/// What the rule makes of one plan, without looking further down than the scan; `None` where the
/// plan stays as it is.
pub open spec fn rewritten(plan: PlanView) -> Result<Option<PlanView>, ErrorView> {
    match plan {
        PlanView::Projection { exprs, input, .. } => match scan_below(*input) {
            Some((scan, wrapper)) => match narrowed_scan(exprs, scan) {
                Ok(Some(next)) => Ok(
                    Some(
                        projection_plan(
                            reindexed(exprs, scan.properties.schema.fields),
                            wrapped(wrapper, PlanView::IcebergScan(next)),
                        ),
                    ),
                ),
                Ok(None) => Ok(None),
                Err(error) => Err(error),
            },
            None => Ok(None),
        },
        _ => Ok(None),
    }
}

/// What the rule makes of a tree of plans: from the leaves up, each plan is rewritten.
pub open spec fn optimized(plan: PlanView) -> Result<PlanView, ErrorView>
    decreases plan,
{
    let node = match plan {
        PlanView::Projection { exprs, input, schema } => match optimized(*input) {
            Ok(next) => Ok(PlanView::Projection { exprs, input: Box::new(next), schema }),
            Err(error) => Err(error),
        },
        PlanView::Cooperative(input) => match optimized(*input) {
            Ok(next) => Ok(PlanView::Cooperative(Box::new(next))),
            Err(error) => Err(error),
        },
        PlanView::IcebergScan(_) => Ok(plan),
        PlanView::Other { name, schema, children } => match optimized_all(children) {
            Ok(next) => Ok(PlanView::Other { name, schema, children: next }),
            Err(error) => Err(error),
        },
    };
    match node {
        Ok(p) => match rewritten(p) {
            Ok(Some(next)) => Ok(next),
            Ok(None) => Ok(p),
            Err(error) => Err(error),
        },
        Err(error) => Err(error),
    }
}

/// What the rule makes of a list of trees; the first error ends it.
pub open spec fn optimized_all(plans: Seq<PlanView>) -> Result<Seq<PlanView>, ErrorView>
    decreases plans,
{
    if plans.len() == 0 {
        Ok(Seq::empty())
    } else {
        match optimized_all(plans.drop_last()) {
            Ok(before) => match optimized(plans.last()) {
                Ok(next) => Ok(before.push(next)),
                Err(error) => Err(error),
            },
            Err(error) => Err(error),
        }
    }
}

/// A plan that may have been rewritten.
#[derive(Debug, PartialEq, Eq)]
pub struct Transformed {
    pub data: Arc<ExecutionPlan>,
    pub transformed: bool,
}

/// A scan, and what stands between it and the projection above it.
pub struct ScanSite<'a> {
    pub scan: &'a IcebergTableScan,
    pub wrapper: ScanWrapper,
}

impl<'a> ScanSite<'a> {
    /// Puts the wrapper back on.
    pub fn rewrap(&self, scan: Arc<ExecutionPlan>) -> (r: Arc<ExecutionPlan>)
        ensures
            (*r)@ == wrapped(self.wrapper, (*scan)@),
    {
        match self.wrapper {
            ScanWrapper::Direct => scan,
            ScanWrapper::Cooperative => Arc::new(ExecutionPlan::Cooperative(scan)),
        }
    }
}

/// The scan that a plan is, directly or below one cooperative plan.
pub fn find_iceberg_scan(node: &Arc<ExecutionPlan>) -> (r: Option<ScanSite<'_>>)
    ensures
        match r {
            Some(site) => scan_below((**node)@) == Some((site.scan@, site.wrapper)),
            None => scan_below((**node)@) is None,
        },
{
    match &**node {
        ExecutionPlan::IcebergScan(scan) => Some(ScanSite { scan, wrapper: ScanWrapper::Direct }),
        ExecutionPlan::Cooperative(input) => match &**input {
            ExecutionPlan::IcebergScan(scan) => {
                assert((**input)@ == PlanView::IcebergScan((**scan)@));
                Some(ScanSite { scan, wrapper: ScanWrapper::Cooperative })
            },
            _ => {
                assert(!((**input)@ is IcebergScan));
                None
            },
        },
        _ => None,
    }
}

/// A projection in which one expression reads no nested field reads more than nested fields.
pub proof fn lemma_no_column_paths(exprs: Seq<ProjectionView>, input: Seq<FieldView>, i: int)
    requires
        0 <= i < exprs.len(),
        column_path(exprs[i].expr, input) is None,
    ensures
        column_paths(exprs, input) is None,
    decreases exprs.len(),
{
    if i < exprs.len() - 1 {
        lemma_no_column_paths(exprs.drop_last(), input, i);
    }
}

/// There is one nested field for each expression.
pub proof fn lemma_read_count(exprs: Seq<ProjectionView>, input: Seq<FieldView>)
    requires
        column_paths(exprs, input) is Some,
    ensures
        (column_paths(exprs, input)->0).len() == exprs.len(),
    decreases exprs.len(),
{
    if exprs.len() > 0 {
        lemma_read_count(exprs.drop_last(), input);
    }
}

/// Whether a map holds the paths inside each column that something is read of.
spec fn holds_paths(paths: Map<usize, Vec<Vec<String>>>, reads: Seq<ColumnPath>) -> bool {
    forall|c: usize|
        #![trigger paths.contains_key(c)]
        {
            &&& paths.contains_key(c) <==> is_read(reads, c as int)
            &&& paths.contains_key(c) ==> path_texts(paths[c]@) == paths_in(reads, c as int)
        }
}

/// Collects the nested fields that the expressions of a projection read, by the positions of their
/// columns; `None` if one of the expressions reads something else.
fn collect_reads(exprs: &Vec<ProjectionExpr>, input: &Vec<FieldRef>) -> (r: Option<
    BTreeMap<usize, Vec<Vec<String>>>,
>)
    ensures
        match r {
            Some(paths) => {
                let reads = column_paths(projection_views(exprs@), field_models(input@));
                reads is Some && holds_paths(paths@, reads->0)
            },
            None => column_paths(projection_views(exprs@), field_models(input@)) is None,
        },
{
    let ghost views = projection_views(exprs@);
    let ghost fields = field_models(input@);
    let mut paths: BTreeMap<usize, Vec<Vec<String>>> = BTreeMap::new();
    let ghost mut reads = Seq::<ColumnPath>::empty();
    let mut i: usize = 0;
    assert(views.take(0) =~= Seq::<ProjectionView>::empty());
    while i < exprs.len()
        invariant
            i <= exprs@.len(),
            views == projection_views(exprs@),
            fields == field_models(input@),
            column_paths(views.take(i as int), fields) == Some(reads),
            holds_paths(paths@, reads),
        decreases exprs@.len() - i,
    {
        let ghost before = reads;
        let ghost held = paths@;
        proof {
            let upto = views.take(i + 1);
            assert(upto.drop_last() =~= views.take(i as int));
            assert(upto.last() == views[i as int]);
            assert(views[i as int].expr == (*exprs@[i as int].expr)@);
            if column_path(views[i as int].expr, fields) is None {
                lemma_no_column_paths(views, fields, i as int);
            }
        }
        let (column, path): (Column, Vec<String>) = match extract_get_field_chain(&exprs[i].expr) {
            Some(chain) => chain,
            None => {
                return None;
            },
        };
        assert(texts(path@).len() == path@.len());
        if path.is_empty() || column.index >= input.len() {
            return None;
        }
        if !same_text(input[column.index].name.as_str(), column.name.as_str()) {
            return None;
        }
        let ghost read = ColumnPath { index: column.index as int, path: texts(path@) };
        let mut inner: Vec<Vec<String>> = match paths.remove(&column.index) {
            Some(inner) => inner,
            None => Vec::new(),
        };
        let ghost own = path_texts(inner@);
        inner.push(path);
        let ghost longer = path_texts(inner@);
        paths.insert(column.index, inner);
        proof {
            reads = before.push(read);
            assert(reads.drop_last() =~= before);
            assert(held.contains_key(column.index) <==> is_read(before, column.index as int));
            assert(own =~= paths_in(before, column.index as int));
            assert(longer =~= own.push(read.path));
            assert forall|c: usize|
                #![trigger paths@.contains_key(c)]
                {
                    &&& paths@.contains_key(c) <==> is_read(reads, c as int)
                    &&& paths@.contains_key(c) ==> path_texts(paths@[c]@) == paths_in(
                        reads,
                        c as int,
                    )
                } by {
                assert(held.contains_key(c) <==> is_read(before, c as int));
            }
        }
        i += 1;
    }
    assert(views.take(i as int) =~= views);
    Some(paths)
}

/// Moves the columns of the expressions of a projection.
fn move_projection(exprs: &Vec<ProjectionExpr>, positions: &Vec<usize>) -> (r: Vec<ProjectionExpr>)
    ensures
        projection_views(r@) == moved_exprs(projection_views(exprs@), positions@),
{
    let ghost next = moved_exprs(projection_views(exprs@), positions@);
    let mut out: Vec<ProjectionExpr> = Vec::new();
    let mut i: usize = 0;
    while i < exprs.len()
        invariant
            i <= exprs@.len(),
            next == moved_exprs(projection_views(exprs@), positions@),
            out@.len() == i,
            forall|j: int| 0 <= j < i ==> (#[trigger] out@[j])@ == next[j],
        decreases exprs@.len() - i,
    {
        let expr: Arc<PhysicalExpr> = move_columns(&exprs[i].expr, positions);
        out.push(ProjectionExpr { expr, alias: exprs[i].alias.clone() });
        i += 1;
    }
    assert(projection_views(out@) =~= next);
    out
}

fn push_dotted(column: &str, paths: &Vec<Vec<String>>, out: &mut Vec<String>)
    ensures
        texts(final(out)@) == texts(old(out)@) + dotted(column@, path_texts(paths@)),
{
    let ghost before = texts(out@);
    let ghost all = dotted(column@, path_texts(paths@));
    let mut i: usize = 0;
    assert(texts(out@) =~= before + all.take(0));
    while i < paths.len()
        invariant
            i <= paths@.len(),
            all == dotted(column@, path_texts(paths@)),
            texts(out@) == before + all.take(i as int),
        decreases paths@.len() - i,
    {
        let ghost current = texts(out@);
        let path: String = prefix_with_field_name(column, &paths[i]);
        proof {
            assert(all[i as int] == joined(column@, texts(paths@[i as int]@)));
            assert(all.take(i + 1) =~= all.take(i as int).push(all[i as int]));
        }
        out.push(path);
        assert(texts(out@) =~= current.push(all[i as int]));
        assert(texts(out@) =~= before + all.take(i + 1));
        i += 1;
    }
    assert(all.take(i as int) =~= all);
}

proof fn lemma_no_narrowed_columns(
    reads: Seq<ColumnPath>,
    input: Seq<FieldView>,
    columns: nat,
    more: nat,
)
    requires
        columns <= more,
        narrowed_columns(reads, input, columns) is None,
    ensures
        narrowed_columns(reads, input, more) is None,
    decreases more,
{
    if columns < more {
        lemma_no_narrowed_columns(reads, input, columns, (more - 1) as nat);
    }
}

/// The scan that reads what a projection on `scan` needs and no more, and the expressions that
/// read the same of it. `None` where the scan stays as it is: the projection reads a whole column,
/// or computes something, or reads a field that the scan's columns do not have, or reads nothing.
/// A path that the table's schema does not know is an error.
fn narrow_projection(exprs: &Vec<ProjectionExpr>, scan: &IcebergTableScan) -> (r: Result<
    Option<(Vec<ProjectionExpr>, IcebergTableScan)>,
    Error,
>)
    ensures
        narrowed_scan(projection_views(exprs@), scan@) == (match r {
            Ok(Some((_, next))) => Ok::<Option<ScanView>, ErrorView>(Some(next@)),
            Ok(None) => Ok::<Option<ScanView>, ErrorView>(None),
            Err(error) => Err::<Option<ScanView>, ErrorView>(error@),
        }),
        r matches Ok(Some((next, _))) ==> projection_views(next@) == reindexed(
            projection_views(exprs@),
            scan@.properties.schema.fields,
        ),
{
    let schema: &ArrowSchema = scan.schema();
    let fields: &Vec<FieldRef> = &schema.fields;
    let ghost input = field_models(fields@);
    let reads: BTreeMap<usize, Vec<Vec<String>>> = match collect_reads(exprs, fields) {
        Some(reads) => reads,
        None => {
            return Ok(None);
        },
    };
    let ghost all = column_paths(projection_views(exprs@), input)->0;
    proof {
        lemma_read_count(projection_views(exprs@), input);
    }
    if exprs.is_empty() {
        return Ok(None);
    }
    let mut paths: Vec<String> = Vec::new();
    let mut narrowed_fields: Vec<FieldRef> = Vec::new();
    let mut positions: Vec<usize> = Vec::new();
    let mut k: usize = 0;
    assert(texts(paths@) =~= dotted_paths(all, input, 0));
    assert(field_models(narrowed_fields@) =~= Seq::<FieldView>::empty());
    assert(positions@ =~= new_positions(all, 0));
    while k < fields.len()
        invariant
            k <= fields@.len(),
            schema@ == scan@.properties.schema,
            schema@.fields == input,
            *fields == *schema.fields,
            input == field_models(fields@),
            holds_paths(reads@, all),
            all.len() > 0,
            column_paths(projection_views(exprs@), input) == Some(all),
            texts(paths@) == dotted_paths(all, input, k as nat),
            narrowed_columns(all, input, k as nat) == Some(field_models(narrowed_fields@)),
            narrowed_fields@.len() == read_before(all, k as nat),
            positions@ == new_positions(all, k as nat),
        decreases fields@.len() - k,
    {
        let ghost before = field_models(narrowed_fields@);
        let ghost dotted_before = texts(paths@);
        assert(input[k as int] == (*fields@[k as int])@);
        assert(reads@.contains_key(k) <==> is_read(all, k as int));
        positions.push(narrowed_fields.len());
        assert(positions@ =~= new_positions(all, (k + 1) as nat));
        match reads.get(&k) {
            Some(inner) => {
                push_dotted(fields[k].name.as_str(), inner, &mut paths);
                let field: Field = match narrow_field(&fields[k], inner) {
                    Some(field) => field,
                    None => {
                        proof {
                            assert(narrowed_columns(all, input, (k + 1) as nat) is None);
                            lemma_no_narrowed_columns(all, input, (k + 1) as nat, input.len());
                        }
                        return Ok(None);
                    },
                };
                let ghost view = field@;
                narrowed_fields.push(Arc::new(field));
                assert(field_models(narrowed_fields@) =~= before.push(view));
            },
            None => {
                assert(dotted_before + dotted(input[k as int].name, paths_in(all, k as int))
                    =~= dotted_before);
            },
        }
        k += 1;
    }
    let narrowed_schema: ArrowSchema = ArrowSchema::new_with_metadata(
        narrowed_fields,
        schema.metadata.clone(),
    );
    match scan.with_nested_projection(paths, narrowed_schema) {
        Ok(next) => Ok(Some((move_projection(exprs, &positions), next))),
        Err(error) => Err(error),
    }
}

/// What the rule reads of an expression is read by a call, whose field does not depend on the
/// input, nor on where the columns stand.
proof fn lemma_fields_are_kept(
    exprs: Seq<ProjectionView>,
    input: Seq<FieldView>,
    next: Seq<FieldView>,
    positions: Seq<usize>,
    i: int,
)
    requires
        column_paths(exprs, input) is Some,
        0 <= i < exprs.len(),
    ensures
        field_of_expr(moved(exprs[i].expr, positions), next) == field_of_expr(exprs[i].expr, input),
    decreases exprs.len(),
{
    if i < exprs.len() - 1 {
        lemma_fields_are_kept(exprs.drop_last(), input, next, positions, i);
    } else {
        assert(column_path(exprs[i].expr, input) is Some);
    }
}

/// A projection returns the same columns, of the same types, when the scan below it is narrowed.
pub proof fn law_projected_columns_are_kept(exprs: Seq<ProjectionView>, scan: ScanView)
    requires
        narrowed_scan(exprs, scan) matches Ok(Some(_)),
    ensures
        narrowed_scan(exprs, scan) matches Ok(Some(next)) && projected_schema(
            reindexed(exprs, scan.properties.schema.fields),
            next.properties.schema,
        ) == projected_schema(exprs, scan.properties.schema),
{
    let schema = scan.properties.schema;
    let next = (narrowed_scan(exprs, scan)->Ok_0)->0;
    let positions = new_positions(column_paths(exprs, schema.fields)->0, schema.fields.len());
    let after = projected_schema(moved_exprs(exprs, positions), next.properties.schema);
    let before = projected_schema(exprs, schema);
    assert forall|i: int| 0 <= i < exprs.len() implies #[trigger] after.fields[i]
        == before.fields[i] by {
        lemma_fields_are_kept(exprs, schema.fields, next.properties.schema.fields, positions, i);
    }
    assert(after.fields =~= before.fields);
}

/// Rewrites one plan, without looking further down than the scan. A projection that reads nothing
/// but nested fields of a scan gets the narrowed scan as its input, and its expressions read the
/// same fields there. Any other plan is handed back.
pub fn try_rewrite(plan: Arc<ExecutionPlan>) -> (r: Result<Transformed, Error>)
    ensures
        match r {
            Ok(next) => {
                &&& rewritten((*plan)@) == Ok::<Option<PlanView>, ErrorView>(
                    if next.transformed {
                        Some((*next.data)@)
                    } else {
                        None
                    },
                )
                &&& !next.transformed ==> next.data == plan
                &&& plan_schema((*next.data)@) == plan_schema((*plan)@)
            },
            Err(error) => rewritten((*plan)@) == Err::<Option<PlanView>, ErrorView>(error@),
        },
{
    let projection: &ProjectionExec = match &*plan {
        ExecutionPlan::Projection(projection) => projection,
        _ => {
            return Ok(Transformed { data: plan, transformed: false });
        },
    };
    let site: ScanSite = match find_iceberg_scan(&projection.input) {
        Some(site) => site,
        None => {
            return Ok(Transformed { data: plan, transformed: false });
        },
    };
    let (exprs, next): (Vec<ProjectionExpr>, IcebergTableScan) = match narrow_projection(
        &projection.exprs,
        site.scan,
    ) {
        Ok(Some(narrowed)) => narrowed,
        Ok(None) => {
            return Ok(Transformed { data: plan, transformed: false });
        },
        Err(error) => {
            return Err(error);
        },
    };
    let ghost views = projection_views(projection.exprs@);
    let ghost next_view = next@;
    let leaf: Arc<ExecutionPlan> = Arc::new(ExecutionPlan::IcebergScan(Arc::new(next)));
    let input: Arc<ExecutionPlan> = site.rewrap(leaf);
    proof {
        use_type_invariant(projection);
        reveal_with_fuel(plan_schema, 2);
        law_projected_columns_are_kept(views, site.scan@);
        law_moved_columns_are_found(views, site.scan@);
        assert(plan_schema((*input)@) == next_view.properties.schema);
        assert(plan_schema((*projection.input)@) == site.scan@.properties.schema);
    }
    let projection: ProjectionExec = ProjectionExec::new(exprs, input).unwrap();
    Ok(
        Transformed {
            data: Arc::new(ExecutionPlan::Projection(projection)),
            transformed: true,
        },
    )
}

proof fn lemma_first_error(plans: Seq<PlanView>, i: int)
    requires
        0 <= i < plans.len(),
        optimized_all(plans.take(i + 1)) is Err,
    ensures
        optimized_all(plans) == optimized_all(plans.take(i + 1)),
    decreases plans.len(),
{
    if i == plans.len() - 1 {
        assert(plans.take(i + 1) =~= plans);
    } else {
        assert(plans.drop_last().take(i + 1) =~= plans.take(i + 1));
        lemma_first_error(plans.drop_last(), i);
    }
}

/// What the plans of a list are.
pub open spec fn plan_views(plans: Seq<Arc<ExecutionPlan>>) -> Seq<PlanView> {
    plans.map_values(|p: Arc<ExecutionPlan>| (*p)@)
}

/// Rewrites a tree from the leaves up.
fn rewrite_up(plan: &Arc<ExecutionPlan>) -> (r: Result<Transformed, Error>)
    ensures
        match r {
            Ok(next) => {
                &&& optimized((**plan)@) == Ok::<PlanView, ErrorView>((*next.data)@)
                &&& plan_schema((*next.data)@) == plan_schema((**plan)@)
                &&& !next.transformed ==> next.data == *plan
            },
            Err(error) => optimized((**plan)@) == Err::<PlanView, ErrorView>(error@),
        },
    decreases plan,
{
    match &**plan {
        ExecutionPlan::Projection(projection) => {
            let below: Transformed = match rewrite_up(&projection.input) {
                Ok(below) => below,
                failed => {
                    return failed;
                },
            };
            let changed: bool = below.transformed;
            let node: Arc<ExecutionPlan> = if changed {
                Arc::new(ExecutionPlan::Projection(projection.with_new_input(below.data)))
            } else {
                plan.clone()
            };
            match try_rewrite(node) {
                Ok(next) => Ok(
                    Transformed { data: next.data, transformed: changed || next.transformed },
                ),
                failed => failed,
            }
        },
        ExecutionPlan::Cooperative(input) => match rewrite_up(input) {
            Ok(below) => if below.transformed {
                Ok(
                    Transformed {
                        data: Arc::new(ExecutionPlan::Cooperative(below.data)),
                        transformed: true,
                    },
                )
            } else {
                Ok(Transformed { data: plan.clone(), transformed: false })
            },
            failed => failed,
        },
        ExecutionPlan::IcebergScan(_) => Ok(Transformed { data: plan.clone(), transformed: false }),
        ExecutionPlan::Other { name, schema, children } => {
            let ghost views = plan_views(children@);
            assert((**plan)@->Other_children =~= views);
            let mut next: Vec<Arc<ExecutionPlan>> = Vec::new();
            let mut changed: bool = false;
            let mut i: usize = 0;
            assert(views.take(0) =~= Seq::<PlanView>::empty());
            assert(plan_views(next@) =~= Seq::<PlanView>::empty());
            while i < children.len()
                invariant
                    i <= children@.len(),
                    **plan == (ExecutionPlan::Other {
                        name: *name,
                        schema: *schema,
                        children: *children,
                    }),
                    (**plan)@ == (PlanView::Other {
                        name: name@,
                        schema: schema@,
                        children: views,
                    }),
                    views == plan_views(children@),
                    optimized_all(views.take(i as int)) == Ok::<Seq<PlanView>, ErrorView>(
                        plan_views(next@),
                    ),
                    next@.len() == i,
                    !changed ==> next@ == children@.take(i as int),
                decreases children@.len() - i,
            {
                let ghost before = plan_views(next@);
                proof {
                    assert(views[i as int] == (*children@[i as int])@);
                    assert(decreases_to!(*plan => children@[i as int]));
                    let upto = views.take(i + 1);
                    assert(upto.drop_last() =~= views.take(i as int));
                    assert(upto.last() == views[i as int]);
                }
                match rewrite_up(&children[i]) {
                    Ok(child) => {
                        let ghost view = (*child.data)@;
                        changed = changed || child.transformed;
                        next.push(child.data);
                        assert(plan_views(next@) =~= before.push(view));
                    },
                    failed => {
                        proof {
                            lemma_first_error(views, i as int);
                        }
                        return failed;
                    },
                }
                i += 1;
                assert(!changed ==> next@ =~= children@.take(i as int));
            }
            assert(views.take(i as int) =~= views);
            if changed {
                let ghost after = plan_views(next@);
                let node: ExecutionPlan = ExecutionPlan::Other {
                    name: name.clone(),
                    schema: schema.clone(),
                    children: next,
                };
                assert(node@->Other_children =~= after);
                Ok(Transformed { data: Arc::new(node), transformed: true })
            } else {
                assert(next@ =~= children@);
                Ok(Transformed { data: plan.clone(), transformed: false })
            }
        },
    }
}

/// The rule: pushes the projection of nested fields into the scan below it.
#[derive(Debug, Clone, Copy, Default)]
pub struct NestedFieldProjectionPushdown;

impl NestedFieldProjectionPushdown {
    /// Rewrites a tree of plans, from the leaves up. The tree returns the same columns as before.
    pub fn optimize(&self, plan: Arc<ExecutionPlan>) -> (r: Result<Arc<ExecutionPlan>, Error>)
        ensures
            match r {
                Ok(next) => {
                    &&& optimized((*plan)@) == Ok::<PlanView, ErrorView>((*next)@)
                    &&& plan_schema((*next)@) == plan_schema((*plan)@)
                },
                Err(error) => optimized((*plan)@) == Err::<PlanView, ErrorView>(error@),
            },
    {
        match rewrite_up(&plan) {
            Ok(next) => Ok(next.data),
            Err(error) => Err(error),
        }
    }

    /// The name of the rule.
    pub fn name(&self) -> (r: &'static str)
        ensures
            r@ == "iceberg_nested_field_projection_pushdown"@,
    {
        "iceberg_nested_field_projection_pushdown"
    }

    /// Whether the planner is to hold the schemas inside a tree against those before the rule. The
    /// rule changes the columns that scans declare, so it is not.
    pub fn schema_check(&self) -> (r: bool)
        ensures
            !r,
    {
        false
    }
}

} // verus!
