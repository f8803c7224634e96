//! Plan trees.

use vstd::prelude::*;

use std::sync::Arc;

use crate::arrow::schema::{field_models, ArrowSchema, ArrowSchemaView, Field, FieldRef, FieldView};
use crate::physical_expr::{
    columns_of, columns_of_all, expr_models, field_of_expr, lemma_call_model,
    lemma_columns_of_all_occur, reads, ColumnView, ExprView, PhysicalExpr,
};
use crate::physical_plan::scan::{IcebergTableScan, ScanView};
use crate::text::same_text;

verus! {

/// An expression under the name of the column that it yields.
#[derive(Debug, PartialEq, Eq)]
pub struct ProjectionExpr {
    pub expr: Arc<PhysicalExpr>,
    pub alias: String,
}

/// A plan that computes expressions on each row of its input.
///
/// The columns that the expressions read are columns of the input, at the same positions and under
/// the same names.
#[derive(Debug, PartialEq, Eq)]
pub struct ProjectionExec {
    pub(crate) exprs: Vec<ProjectionExpr>,
    pub(crate) input: Arc<ExecutionPlan>,
    pub(crate) schema: ArrowSchema,
}

/// A tree of plans.
#[derive(Debug, PartialEq, Eq)]
pub enum ExecutionPlan {
    Projection(ProjectionExec),
    /// A plan that hands on the rows of its input, and yields to other work while it does so.
    Cooperative(Arc<ExecutionPlan>),
    IcebergScan(Arc<IcebergTableScan>),
    /// Any other plan. It returns the same columns when its inputs are replaced by ones that do.
    Other { name: String, schema: ArrowSchema, children: Vec<Arc<ExecutionPlan>> },
}

/// What a [`ProjectionExpr`] is.
pub struct ProjectionView {
    pub expr: ExprView,
    pub alias: Seq<char>,
}

/// What an [`ExecutionPlan`] is.
pub enum PlanView {
    Projection { exprs: Seq<ProjectionView>, input: Box<PlanView>, schema: ArrowSchemaView },
    Cooperative(Box<PlanView>),
    IcebergScan(ScanView),
    Other { name: Seq<char>, schema: ArrowSchemaView, children: Seq<PlanView> },
}

impl View for ProjectionExpr {
    type V = ProjectionView;

    open spec fn view(&self) -> ProjectionView {
        ProjectionView { expr: (*self.expr)@, alias: self.alias@ }
    }
}

/// What the expressions of a projection are.
pub open spec fn projection_views(exprs: Seq<ProjectionExpr>) -> Seq<ProjectionView> {
    exprs.map_values(|e: ProjectionExpr| e@)
}

impl ExecutionPlan {
    /// What the plan is.
    pub open(crate) spec fn model(self) -> PlanView
        decreases self,
    {
        match self {
            ExecutionPlan::Projection(projection) => PlanView::Projection {
                exprs: projection_views(projection.exprs@),
                input: Box::new((*projection.input).model()),
                schema: projection.schema@,
            },
            ExecutionPlan::Cooperative(input) => PlanView::Cooperative(Box::new((*input).model())),
            ExecutionPlan::IcebergScan(scan) => PlanView::IcebergScan((*scan)@),
            ExecutionPlan::Other { name, schema, children } => PlanView::Other {
                name: name@,
                schema: schema@,
                children: Seq::new(
                    children@.len(),
                    |i: int|
                        if 0 <= i < children@.len() {
                            (*children@[i]).model()
                        } else {
                            arbitrary()
                        },
                ),
            },
        }
    }
}

impl View for ExecutionPlan {
    type V = PlanView;

    open spec fn view(&self) -> PlanView {
        (*self).model()
    }
}

/// The columns that a plan returns.
pub open spec fn plan_schema(plan: PlanView) -> ArrowSchemaView
    decreases plan,
{
    match plan {
        PlanView::Projection { schema, .. } => schema,
        PlanView::Cooperative(input) => plan_schema(*input),
        PlanView::IcebergScan(scan) => scan.properties.schema,
        PlanView::Other { schema, .. } => schema,
    }
}

/// Whether an input has a column at its position, under its name.
pub open spec fn is_found(column: ColumnView, input: Seq<FieldView>) -> bool {
    column.index < input.len() && input[column.index as int].name == column.name
}

/// Whether an input has all columns of a list.
pub open spec fn all_found(columns: Seq<ColumnView>, input: Seq<FieldView>) -> bool {
    forall|i: int| 0 <= i < columns.len() ==> is_found(#[trigger] columns[i], input)
}

/// The columns that a projection reads, from left to right.
pub open spec fn columns_read(exprs: Seq<ProjectionView>) -> Seq<ColumnView> {
    columns_of_all(exprs.map_values(|e: ProjectionView| e.expr))
}

/// The columns that a projection on an input returns.
pub open spec fn projected_schema(
    exprs: Seq<ProjectionView>,
    input: ArrowSchemaView,
) -> ArrowSchemaView {
    ArrowSchemaView {
        fields: exprs.map_values(
            |e: ProjectionView|
                FieldView { name: e.alias, ..field_of_expr(e.expr, input.fields) },
        ),
        metadata: input.metadata,
    }
}

/// The plan that projects `input`.
pub open spec fn projection_plan(exprs: Seq<ProjectionView>, input: PlanView) -> PlanView {
    PlanView::Projection {
        exprs,
        input: Box::new(input),
        schema: projected_schema(exprs, plan_schema(input)),
    }
}

proof fn lemma_found_add(a: Seq<ColumnView>, b: Seq<ColumnView>, input: Seq<FieldView>)
    ensures
        all_found(a + b, input) <==> all_found(a, input) && all_found(b, input),
{
    let both = a + b;
    if all_found(both, input) {
        assert forall|i: int| 0 <= i < a.len() implies is_found(#[trigger] a[i], input) by {
            assert(both[i] == a[i]);
        }
        assert forall|i: int| 0 <= i < b.len() implies is_found(#[trigger] b[i], input) by {
            assert(both[a.len() + i] == b[i]);
        }
    }
}

/// Where the columns of a list of expressions are found, those of each expression are.
pub proof fn lemma_each_found(exprs: Seq<ExprView>, i: int, input: Seq<FieldView>)
    requires
        0 <= i < exprs.len(),
        all_found(columns_of_all(exprs), input),
    ensures
        all_found(columns_of(exprs[i]), input),
    decreases exprs.len(),
{
    let shorter = exprs.drop_last();
    lemma_found_add(columns_of_all(shorter), columns_of(exprs.last()), input);
    if i < exprs.len() - 1 {
        lemma_each_found(shorter, i, input);
    }
}

/// Where the columns of each expression of a list are found, those of the list are.
pub proof fn lemma_all_found(exprs: Seq<ExprView>, input: Seq<FieldView>)
    requires
        forall|i: int|
            0 <= i < exprs.len() ==> all_found(columns_of(#[trigger] exprs[i]), input),
    ensures
        all_found(columns_of_all(exprs), input),
    decreases exprs.len(),
{
    if exprs.len() > 0 {
        let shorter = exprs.drop_last();
        assert forall|i: int| 0 <= i < shorter.len() implies all_found(
            columns_of(#[trigger] shorter[i]),
            input,
        ) by {
            assert(shorter[i] == exprs[i]);
        }
        lemma_all_found(shorter, input);
        assert(all_found(columns_of(exprs[exprs.len() - 1]), input));
        lemma_found_add(columns_of_all(shorter), columns_of(exprs.last()), input);
    }
}

/// Looks for the columns of an expression.
fn finds_columns(expr: &PhysicalExpr, input: &Vec<FieldRef>) -> (r: bool)
    ensures
        r == all_found(columns_of(expr@), field_models(input@)),
    decreases expr,
{
    match expr {
        PhysicalExpr::Column(column) => {
            assert(seq![column@][0] == column@);
            column.index < input.len() && same_text(
                input[column.index].name.as_str(),
                column.name.as_str(),
            )
        },
        PhysicalExpr::Literal(_) => true,
        PhysicalExpr::ScalarFunction(call) => {
            proof {
                lemma_call_model(*call);
            }
            finds_all_columns(&call.args, input)
        },
        PhysicalExpr::Other { children, .. } => {
            assert(expr@->Other_children =~= expr_models(children@));
            finds_all_columns(children, input)
        },
    }
}

fn finds_all_columns(exprs: &Vec<Arc<PhysicalExpr>>, input: &Vec<FieldRef>) -> (r: bool)
    ensures
        r == all_found(columns_of_all(expr_models(exprs@)), field_models(input@)),
    decreases exprs,
{
    let ghost models = expr_models(exprs@);
    let ghost fields = field_models(input@);
    let mut i: usize = 0;
    while i < exprs.len()
        invariant
            models == expr_models(exprs@),
            fields == field_models(input@),
            i <= exprs@.len(),
            forall|j: int| 0 <= j < i ==> all_found(columns_of(#[trigger] models[j]), fields),
        decreases exprs@.len() - i,
    {
        proof {
            assert(models[i as int] == (*exprs@[i as int])@);
            assert(decreases_to!(*exprs => exprs@[i as int]));
        }
        if !finds_columns(&exprs[i], input) {
            proof {
                if all_found(columns_of_all(models), fields) {
                    lemma_each_found(models, i as int, fields);
                }
            }
            return false;
        }
        i += 1;
    }
    proof {
        lemma_all_found(models, fields);
    }
    true
}

/// Copies the expressions of a projection.
fn copy_projection(exprs: &Vec<ProjectionExpr>) -> (r: Vec<ProjectionExpr>)
    ensures
        projection_views(r@) == projection_views(exprs@),
{
    let mut out: Vec<ProjectionExpr> = Vec::new();
    let mut i: usize = 0;
    while i < exprs.len()
        invariant
            i <= exprs@.len(),
            out@ == exprs@.take(i as int),
        decreases exprs@.len() - i,
    {
        out.push(ProjectionExpr { expr: exprs[i].expr.clone(), alias: exprs[i].alias.clone() });
        i += 1;
        assert(out@ =~= exprs@.take(i as int));
    }
    assert(out@ =~= exprs@);
    out
}

impl ProjectionExec {
    #[verifier::type_invariant]
    pub open(crate) spec fn consistent(self) -> bool {
        let input = plan_schema((*self.input).model());
        &&& all_found(columns_read(projection_views(self.exprs@)), input.fields)
        &&& self.schema@ == projected_schema(projection_views(self.exprs@), input)
    }

    /// A projection on `input`; `None` if the input does not have the columns that it reads.
    pub fn new(exprs: Vec<ProjectionExpr>, input: Arc<ExecutionPlan>) -> (r: Option<ProjectionExec>)
        ensures
            r is Some <==> all_found(
                columns_read(projection_views(exprs@)),
                plan_schema((*input)@).fields,
            ),
            r matches Some(projection) ==> ExecutionPlan::Projection(projection)@
                == projection_plan(projection_views(exprs@), (*input)@),
    {
        let ghost views = projection_views(exprs@);
        let ghost models = views.map_values(|e: ProjectionView| e.expr);
        let input_schema: ArrowSchema = input.schema();
        let ghost columns = input_schema@.fields;
        let mut fields: Vec<FieldRef> = Vec::new();
        let mut i: usize = 0;
        while i < exprs.len()
            invariant
                views == projection_views(exprs@),
                models == views.map_values(|e: ProjectionView| e.expr),
                input_schema@ == plan_schema((*input)@),
                columns == input_schema@.fields,
                i <= exprs@.len(),
                fields@.len() == i,
                forall|j: int| 0 <= j < i ==> all_found(columns_of(#[trigger] models[j]), columns),
                forall|j: int|
                    0 <= j < i ==> (*#[trigger] fields@[j])@ == (FieldView {
                        name: views[j].alias,
                        ..field_of_expr(views[j].expr, columns)
                    }),
            decreases exprs@.len() - i,
        {
            assert(models[i as int] == (*exprs@[i as int].expr)@);
            if !finds_columns(&exprs[i].expr, &input_schema.fields) {
                proof {
                    if all_found(columns_of_all(models), columns) {
                        lemma_each_found(models, i as int, columns);
                    }
                }
                return None;
            }
            proof {
                if let ExprView::Column(column) = models[i as int] {
                    assert(columns_of(models[i as int])[0] == column);
                }
            }
            let field: Field = exprs[i].expr.return_field(&input_schema.fields);
            fields.push(
                Arc::new(
                    Field {
                        name: exprs[i].alias.clone(),
                        data_type: field.data_type,
                        nullable: field.nullable,
                        metadata: field.metadata,
                    },
                ),
            );
            i += 1;
        }
        proof {
            lemma_all_found(models, columns);
        }
        assert(field_models(fields@) =~= projected_schema(views, input_schema@).fields);
        let schema: ArrowSchema = ArrowSchema::new_with_metadata(fields, input_schema.metadata);
        Some(ProjectionExec { exprs, input, schema })
    }

    /// The expressions.
    pub fn expr(&self) -> (r: &Vec<ProjectionExpr>)
        ensures
            ExecutionPlan::Projection(*self)@ matches PlanView::Projection { exprs, .. } && exprs
                == projection_views(r@),
    {
        &self.exprs
    }

    /// The plan whose rows are projected.
    pub fn input(&self) -> (r: &Arc<ExecutionPlan>)
        ensures
            ExecutionPlan::Projection(*self)@ matches PlanView::Projection { input, .. } && *input
                == (**r)@,
    {
        &self.input
    }

    /// The same projection on another input with the same columns.
    pub(crate) fn with_new_input(&self, input: Arc<ExecutionPlan>) -> (r: ProjectionExec)
        requires
            plan_schema((*input)@) == plan_schema((*self.input)@),
        ensures
            ExecutionPlan::Projection(r)@ == (PlanView::Projection {
                exprs: projection_views(self.exprs@),
                input: Box::new((*input)@),
                schema: self.schema@,
            }),
    {
        proof {
            use_type_invariant(self);
        }
        let exprs: Vec<ProjectionExpr> = copy_projection(&self.exprs);
        ProjectionExec { exprs, input, schema: self.schema.clone() }
    }
}

impl ExecutionPlan {
    /// The columns that the plan returns.
    pub fn schema(&self) -> (r: ArrowSchema)
        ensures
            r@ == plan_schema(self@),
        decreases self,
    {
        match self {
            ExecutionPlan::Projection(projection) => projection.schema.clone(),
            ExecutionPlan::Cooperative(input) => input.schema(),
            ExecutionPlan::IcebergScan(scan) => scan.schema().clone(),
            ExecutionPlan::Other { schema, .. } => schema.clone(),
        }
    }
}

/// A projection returns a column for each expression, in order and under its alias. Otherwise the
/// column is the field that the expression evaluates to, and a column that is read comes out with the
/// type, the nullability and the annotations that it has in the input.
pub proof fn law_projected_columns(exprs: Seq<ProjectionView>, input: PlanView, i: int)
    requires
        0 <= i < exprs.len(),
    ensures
        ({
            let schema = plan_schema(projection_plan(exprs, input));
            let field = schema.fields[i];
            &&& schema.fields.len() == exprs.len()
            &&& schema.metadata == plan_schema(input).metadata
            &&& field.name == exprs[i].alias
            &&& exprs[i].expr matches ExprView::Column(c) ==> {
                let read = plan_schema(input).fields[c.index as int];
                &&& field.data_type == read.data_type
                &&& field.nullable == read.nullable
                &&& field.metadata == read.metadata
            }
            &&& exprs[i].expr matches ExprView::ScalarFunction { return_field, .. } ==> {
                &&& field.data_type == return_field.data_type
                &&& field.nullable == return_field.nullable
                &&& field.metadata == return_field.metadata
            }
            &&& exprs[i].expr matches ExprView::Other { return_field, .. } ==> {
                &&& field.data_type == return_field.data_type
                &&& field.nullable == return_field.nullable
                &&& field.metadata == return_field.metadata
            }
        }),
{
}

/// A plan that only hands rows on returns the columns of its input, a projection those that it was
/// made with, and a scan those of its properties.
pub proof fn law_columns_of_plans(plan: PlanView)
    ensures
        plan matches PlanView::Cooperative(input) ==> plan_schema(plan) == plan_schema(*input),
        plan matches PlanView::Projection { schema, .. } ==> plan_schema(plan) == schema,
        plan matches PlanView::IcebergScan(scan) ==> plan_schema(plan) == scan.properties.schema,
        plan matches PlanView::Other { schema, .. } ==> plan_schema(plan) == schema,
{
}

/// The columns that a projection needs are those that occur in its expressions: it can be made if and
/// only if each of them stands in the input, at its position and under its name.
pub proof fn law_projection_needs_the_columns_it_reads(
    exprs: Seq<ProjectionView>,
    input: Seq<FieldView>,
)
    ensures
        all_found(columns_read(exprs), input) <==> forall|i: int, column: ColumnView|
            0 <= i < exprs.len() && #[trigger] reads(exprs[i].expr, column) ==> column.index
                < input.len() && input[column.index as int].name == column.name,
{
    let models = exprs.map_values(|e: ProjectionView| e.expr);
    let columns = columns_read(exprs);
    if all_found(columns, input) {
        assert forall|i: int, column: ColumnView|
            0 <= i < exprs.len() && #[trigger] reads(exprs[i].expr, column) implies column.index
            < input.len() && input[column.index as int].name == column.name by {
            assert(reads(models[i], column));
            lemma_columns_of_all_occur(models, column);
            let k = choose|k: int| 0 <= k < columns.len() && columns[k] == column;
            assert(is_found(columns[k], input));
        }
    }
    if forall|i: int, column: ColumnView|
        0 <= i < exprs.len() && #[trigger] reads(exprs[i].expr, column) ==> column.index
            < input.len() && input[column.index as int].name == column.name {
        assert forall|k: int| 0 <= k < columns.len() implies is_found(
            #[trigger] columns[k],
            input,
        ) by {
            let column = columns[k];
            assert(columns.contains(column));
            lemma_columns_of_all_occur(models, column);
            let i = choose|i: int| 0 <= i < models.len() && #[trigger] reads(models[i], column);
            assert(reads(exprs[i].expr, column));
        }
    }
}

/// A projection returns as many columns as it has expressions, with the annotations of its input.
pub proof fn law_projection_has_a_column_for_each_expression(
    exprs: Seq<ProjectionView>,
    input: PlanView,
)
    ensures
        plan_schema(projection_plan(exprs, input)).fields.len() == exprs.len(),
        plan_schema(projection_plan(exprs, input)).metadata == plan_schema(input).metadata,
        projection_plan(exprs, input) matches PlanView::Projection {
            exprs: own,
            input: below,
            ..
        } && own == exprs && *below == input,
{
}

} // verus!
