//! Physical expressions: what a plan evaluates on the columns of its input.

use vstd::prelude::*;

use std::sync::Arc;

use crate::arrow::schema::{
    field_models, find_field, lemma_position_of, optional_text, position_of, same_field, same_optional_text,
    same_type, DataType, DataTypeView, Field, FieldRef, FieldView, LeafType,
};
use crate::text::{same_text, texts};

verus! {

/// The name of the function that reads a child of a struct, or the values of a map.
pub const GET_FIELD: &'static str = "get_field";

/// The name of the field that a literal evaluates to.
pub const LITERAL_FIELD_NAME: &'static str = "lit";

/// A column of the input, by position and name.
#[derive(Debug, PartialEq, Eq)]
pub struct Column {
    pub name: String,
    pub index: usize,
}

/// A constant.
#[derive(Debug, PartialEq, Eq)]
pub enum ScalarValue {
    Utf8(Option<String>),
    LargeUtf8(Option<String>),
    Utf8View(Option<String>),
    /// A constant that is no string, under its notation.
    Other { text: String, data_type: DataType, is_null: bool },
}

/// A call of a scalar function, with the field that it evaluates to.
#[derive(Debug, PartialEq, Eq)]
pub struct ScalarFunctionExpr {
    pub name: String,
    pub args: Vec<Arc<PhysicalExpr>>,
    pub return_field: FieldRef,
}

/// An expression over the columns of an input.
#[derive(Debug, PartialEq, Eq)]
pub enum PhysicalExpr {
    Column(Column),
    Literal(ScalarValue),
    ScalarFunction(ScalarFunctionExpr),
    /// Any other expression, under its notation.
    Other { text: String, children: Vec<Arc<PhysicalExpr>>, return_field: FieldRef },
}

/// What a [`Column`] is.
pub struct ColumnView {
    pub name: Seq<char>,
    pub index: usize,
}

/// What a [`ScalarValue`] is.
pub enum ScalarView {
    Utf8(Option<Seq<char>>),
    LargeUtf8(Option<Seq<char>>),
    Utf8View(Option<Seq<char>>),
    Other { text: Seq<char>, data_type: DataTypeView, is_null: bool },
}

/// What a [`PhysicalExpr`] is.
pub enum ExprView {
    Column(ColumnView),
    Literal(ScalarView),
    ScalarFunction { name: Seq<char>, args: Seq<ExprView>, return_field: FieldView },
    Other { text: Seq<char>, children: Seq<ExprView>, return_field: FieldView },
}

impl View for Column {
    type V = ColumnView;

    open spec fn view(&self) -> ColumnView {
        ColumnView { name: self.name@, index: self.index }
    }
}

impl View for ScalarValue {
    type V = ScalarView;

    open spec fn view(&self) -> ScalarView {
        match *self {
            ScalarValue::Utf8(value) => ScalarView::Utf8(optional_text(value)),
            ScalarValue::LargeUtf8(value) => ScalarView::LargeUtf8(optional_text(value)),
            ScalarValue::Utf8View(value) => ScalarView::Utf8View(optional_text(value)),
            ScalarValue::Other { text, data_type, is_null } => ScalarView::Other {
                text: text@,
                data_type: data_type@,
                is_null,
            },
        }
    }
}

impl PhysicalExpr {
    /// What the expression is.
    pub open spec fn model(self) -> ExprView
        decreases self,
    {
        match self {
            PhysicalExpr::Column(column) => ExprView::Column(column@),
            PhysicalExpr::Literal(value) => ExprView::Literal(value@),
            PhysicalExpr::ScalarFunction(call) => ExprView::ScalarFunction {
                name: call.name@,
                args: Seq::new(
                    call.args@.len(),
                    |i: int|
                        if 0 <= i < call.args@.len() {
                            (*call.args@[i]).model()
                        } else {
                            arbitrary()
                        },
                ),
                return_field: (*call.return_field)@,
            },
            PhysicalExpr::Other { text, children, return_field } => ExprView::Other {
                text: text@,
                children: Seq::new(
                    children@.len(),
                    |i: int|
                        if 0 <= i < children@.len() {
                            (*children@[i]).model()
                        } else {
                            arbitrary()
                        },
                ),
                return_field: (*return_field)@,
            },
        }
    }
}

impl View for PhysicalExpr {
    type V = ExprView;

    open spec fn view(&self) -> ExprView {
        (*self).model()
    }
}

/// What the expressions of a list are.
pub open spec fn expr_models(exprs: Seq<Arc<PhysicalExpr>>) -> Seq<ExprView> {
    exprs.map_values(|e: Arc<PhysicalExpr>| (*e).model())
}

impl Column {
    /// The column at position `index`, called `name`.
    pub fn new(name: &str, index: usize) -> (r: Column)
        ensures
            r@ == (ColumnView { name: name@, index }),
    {
        Column { name: name.to_owned(), index }
    }

    /// The name of the column.
    pub fn name(&self) -> (r: &str)
        ensures
            r@ == self@.name,
    {
        self.name.as_str()
    }

    /// The position of the column.
    pub fn index(&self) -> (r: usize)
        ensures
            r == self@.index,
    {
        self.index
    }
}

impl Clone for Column {
    fn clone(&self) -> (r: Column)
        ensures
            r == *self,
    {
        Column { name: self.name.clone(), index: self.index }
    }
}

/// The columns that an expression reads, from left to right.
pub open spec fn columns_of(expr: ExprView) -> Seq<ColumnView>
    decreases expr,
{
    match expr {
        ExprView::Column(column) => seq![column],
        ExprView::Literal(_) => Seq::empty(),
        ExprView::ScalarFunction { args, .. } => columns_of_all(args),
        ExprView::Other { children, .. } => columns_of_all(children),
    }
}

/// The columns that a list of expressions reads, from left to right.
pub open spec fn columns_of_all(exprs: Seq<ExprView>) -> Seq<ColumnView>
    decreases exprs,
{
    if exprs.len() == 0 {
        Seq::empty()
    } else {
        columns_of_all(exprs.drop_last()) + columns_of(exprs.last())
    }
}

/// An expression with each of its columns moved to the position that is listed for its own.
pub open spec fn moved(expr: ExprView, positions: Seq<usize>) -> ExprView
    decreases expr,
{
    match expr {
        ExprView::Column(column) => ExprView::Column(moved_column(column, positions)),
        ExprView::Literal(_) => expr,
        ExprView::ScalarFunction { name, args, return_field } => ExprView::ScalarFunction {
            name,
            args: Seq::new(
                args.len(),
                |i: int|
                    if 0 <= i < args.len() {
                        moved(args[i], positions)
                    } else {
                        arbitrary()
                    },
            ),
            return_field,
        },
        ExprView::Other { text, children, return_field } => ExprView::Other {
            text,
            children: Seq::new(
                children.len(),
                |i: int|
                    if 0 <= i < children.len() {
                        moved(children[i], positions)
                    } else {
                        arbitrary()
                    },
            ),
            return_field,
        },
    }
}

/// A column at the position that is listed for its own; one whose position is not listed stays.
pub open spec fn moved_column(column: ColumnView, positions: Seq<usize>) -> ColumnView {
    if column.index < positions.len() {
        ColumnView { name: column.name, index: positions[column.index as int] }
    } else {
        column
    }
}

/// Expressions with each of their columns moved.
pub open spec fn moved_all(exprs: Seq<ExprView>, positions: Seq<usize>) -> Seq<ExprView> {
    exprs.map_values(|e: ExprView| moved(e, positions))
}

/// Moves the columns of an expression to the positions that are listed for their own.
pub fn move_columns(expr: &Arc<PhysicalExpr>, positions: &Vec<usize>) -> (r: Arc<PhysicalExpr>)
    ensures
        (*r)@ == moved((**expr)@, positions@),
    decreases expr,
{
    match &**expr {
        PhysicalExpr::Column(column) => {
            let index: usize = if column.index < positions.len() {
                positions[column.index]
            } else {
                column.index
            };
            Arc::new(PhysicalExpr::Column(Column { name: column.name.clone(), index }))
        },
        PhysicalExpr::Literal(_) => expr.clone(),
        PhysicalExpr::ScalarFunction(call) => {
            let args: Vec<Arc<PhysicalExpr>> = move_all_columns(&call.args, positions);
            let next: ScalarFunctionExpr = ScalarFunctionExpr {
                name: call.name.clone(),
                args,
                return_field: call.return_field.clone(),
            };
            proof {
                lemma_call_model(*call);
                lemma_call_model(next);
                assert(moved((**expr)@, positions@)->args =~= moved_all(
                    expr_models(call.args@),
                    positions@,
                ));
            }
            Arc::new(PhysicalExpr::ScalarFunction(next))
        },
        PhysicalExpr::Other { text, children, return_field } => {
            let next: PhysicalExpr = PhysicalExpr::Other {
                text: text.clone(),
                children: move_all_columns(children, positions),
                return_field: return_field.clone(),
            };
            proof {
                assert((**expr)@->Other_children =~= expr_models(children@));
                assert(next@->Other_children =~= moved_all(expr_models(children@), positions@));
                assert(moved((**expr)@, positions@)->Other_children =~= moved_all(
                    expr_models(children@),
                    positions@,
                ));
            }
            Arc::new(next)
        },
    }
}

fn move_all_columns(exprs: &Vec<Arc<PhysicalExpr>>, positions: &Vec<usize>) -> (r: Vec<
    Arc<PhysicalExpr>,
>)
    ensures
        expr_models(r@) == moved_all(expr_models(exprs@), positions@),
    decreases exprs,
{
    let ghost models = expr_models(exprs@);
    let mut out: Vec<Arc<PhysicalExpr>> = Vec::new();
    let mut i: usize = 0;
    while i < exprs.len()
        invariant
            models == expr_models(exprs@),
            i <= exprs@.len(),
            out@.len() == i,
            forall|j: int| 0 <= j < i ==> (*#[trigger] out@[j])@ == moved(models[j], positions@),
        decreases exprs@.len() - i,
    {
        assert(models[i as int] == (*exprs@[i as int])@);
        assert(decreases_to!(*exprs => exprs@[i as int]));
        out.push(move_columns(&exprs[i], positions));
        i += 1;
    }
    assert(expr_models(out@) =~= moved_all(models, positions@));
    out
}

/// The data type of a constant.
pub open spec fn scalar_type(value: ScalarView) -> DataTypeView {
    match value {
        ScalarView::Utf8(_) => DataTypeView::Leaf(LeafType::Utf8),
        ScalarView::LargeUtf8(_) => DataTypeView::Leaf(LeafType::LargeUtf8),
        ScalarView::Utf8View(_) => DataTypeView::Leaf(LeafType::Utf8View),
        ScalarView::Other { data_type, .. } => data_type,
    }
}

/// Whether a constant is null.
pub open spec fn scalar_is_null(value: ScalarView) -> bool {
    match value {
        ScalarView::Utf8(text) => text is None,
        ScalarView::LargeUtf8(text) => text is None,
        ScalarView::Utf8View(text) => text is None,
        ScalarView::Other { is_null, .. } => is_null,
    }
}

/// The field that an expression evaluates to on an input with the given columns.
pub open spec fn field_of_expr(expr: ExprView, input: Seq<FieldView>) -> FieldView {
    match expr {
        ExprView::Column(column) => input[column.index as int],
        ExprView::Literal(value) => FieldView {
            name: LITERAL_FIELD_NAME@,
            data_type: scalar_type(value),
            nullable: scalar_is_null(value),
            metadata: Map::empty(),
        },
        ExprView::ScalarFunction { return_field, .. } => return_field,
        ExprView::Other { return_field, .. } => return_field,
    }
}

/// The field that `get_field` reads when it goes from `field` through `path`, one step for each
/// segment. A struct is entered by the name of a child, a map leads to its values whatever the
/// segment is, and a null stays null. Any other type, and a struct without the child, cannot be
/// entered. What is inside a nullable field is nullable.
pub open spec fn accessed_field(field: FieldView, path: Seq<Seq<char>>) -> Option<FieldView>
    decreases path.len(),
{
    if path.len() == 0 {
        Some(field)
    } else {
        match field.data_type {
            DataTypeView::Struct(children) => match child_named(children, path[0]) {
                Some(child) => accessed_field(
                    FieldView { nullable: child.nullable || field.nullable, ..child },
                    path.drop_first(),
                ),
                None => None,
            },
            DataTypeView::MapOf(entries, _) => match entries.data_type {
                DataTypeView::Struct(pair) => if pair.len() == 2 {
                    accessed_field(FieldView { nullable: true, ..pair[1] }, path.drop_first())
                } else {
                    None
                },
                _ => None,
            },
            DataTypeView::Leaf(LeafType::Null) => Some(
                FieldView {
                    name: GET_FIELD@,
                    data_type: DataTypeView::Leaf(LeafType::Null),
                    nullable: true,
                    metadata: Map::empty(),
                },
            ),
            _ => None,
        }
    }
}

/// The first child with the given name; the empty name names none.
pub open spec fn child_named(children: Seq<FieldView>, name: Seq<char>) -> Option<FieldView> {
    if name.len() == 0 {
        None
    } else {
        match position_of(children, name) {
            Some(i) => Some(children[i]),
            None => None,
        }
    }
}

/// The call of `get_field` that goes from `column` through `path`, as one call with a string
/// argument for each segment.
pub open spec fn get_field_call(
    column: ColumnView,
    path: Seq<Seq<char>>,
    return_field: FieldView,
) -> ExprView {
    ExprView::ScalarFunction {
        name: GET_FIELD@,
        args: seq![ExprView::Column(column)] + path.map_values(
            |segment: Seq<char>| ExprView::Literal(ScalarView::Utf8(Some(segment))),
        ),
        return_field,
    }
}

fn same_scalar(a: &ScalarValue, b: &ScalarValue) -> (r: bool)
    ensures
        r == (a@ == b@),
{
    match (a, b) {
        (ScalarValue::Utf8(x), ScalarValue::Utf8(y)) => same_optional_text(x, y),
        (ScalarValue::LargeUtf8(x), ScalarValue::LargeUtf8(y)) => same_optional_text(x, y),
        (ScalarValue::Utf8View(x), ScalarValue::Utf8View(y)) => same_optional_text(x, y),
        (
            ScalarValue::Other { text, data_type, is_null },
            ScalarValue::Other { text: other_text, data_type: other_type, is_null: other_null },
        ) => {
            same_text(text.as_str(), other_text.as_str()) && same_type(data_type, other_type)
                && *is_null == *other_null
        },
        _ => false,
    }
}

/// Whether two expressions are the same.
pub fn same_expr(a: &PhysicalExpr, b: &PhysicalExpr) -> (r: bool)
    ensures
        r == (a@ == b@),
    decreases a,
{
    match (a, b) {
        (PhysicalExpr::Column(x), PhysicalExpr::Column(y)) => {
            x.index == y.index && same_text(x.name.as_str(), y.name.as_str())
        },
        (PhysicalExpr::Literal(x), PhysicalExpr::Literal(y)) => same_scalar(x, y),
        (PhysicalExpr::ScalarFunction(x), PhysicalExpr::ScalarFunction(y)) => {
            proof {
                lemma_call_model(*x);
                lemma_call_model(*y);
            }
            same_text(x.name.as_str(), y.name.as_str()) && same_field(
                &x.return_field,
                &y.return_field,
            ) && same_exprs(&x.args, &y.args)
        },
        (
            PhysicalExpr::Other { text, children, return_field },
            PhysicalExpr::Other {
                text: other_text,
                children: other_children,
                return_field: other_field,
            },
        ) => {
            assert(a@->Other_children =~= expr_models(children@));
            assert(b@->Other_children =~= expr_models(other_children@));
            same_text(text.as_str(), other_text.as_str()) && same_field(return_field, other_field)
                && same_exprs(children, other_children)
        },
        _ => false,
    }
}

/// What a call of a scalar function is.
pub proof fn lemma_call_model(call: ScalarFunctionExpr)
    ensures
        PhysicalExpr::ScalarFunction(call).model() == (ExprView::ScalarFunction {
            name: call.name@,
            args: expr_models(call.args@),
            return_field: (*call.return_field)@,
        }),
{
    let expr = PhysicalExpr::ScalarFunction(call);
    assert(expr.model()->args =~= expr_models(call.args@));
}

fn same_exprs(a: &Vec<Arc<PhysicalExpr>>, b: &Vec<Arc<PhysicalExpr>>) -> (r: bool)
    ensures
        r == (expr_models(a@) == expr_models(b@)),
    decreases a,
{
    let ghost left = expr_models(a@);
    let ghost right = expr_models(b@);
    if a.len() != b.len() {
        assert(left.len() != right.len());
        return false;
    }
    let mut i: usize = 0;
    while i < a.len()
        invariant
            left == expr_models(a@),
            right == expr_models(b@),
            a@.len() == b@.len(),
            i <= a@.len(),
            forall|j: int| 0 <= j < i ==> #[trigger] left[j] == right[j],
        decreases a@.len() - i,
    {
        assert(left[i as int] == (*a@[i as int])@);
        assert(right[i as int] == (*b@[i as int])@);
        assert(decreases_to!(*a => a@[i as int]));
        if !same_expr(&a[i], &b[i]) {
            return false;
        }
        i += 1;
    }
    assert(left =~= right);
    true
}

fn scalar_field(value: &ScalarValue) -> (r: Field)
    ensures
        r@ == field_of_expr(ExprView::Literal(value@), Seq::empty()),
{
    match value {
        ScalarValue::Utf8(text) => {
            Field::new(LITERAL_FIELD_NAME, DataType::Leaf(LeafType::Utf8), text.is_none())
        },
        ScalarValue::LargeUtf8(text) => {
            Field::new(LITERAL_FIELD_NAME, DataType::Leaf(LeafType::LargeUtf8), text.is_none())
        },
        ScalarValue::Utf8View(text) => {
            Field::new(LITERAL_FIELD_NAME, DataType::Leaf(LeafType::Utf8View), text.is_none())
        },
        ScalarValue::Other { data_type, is_null, .. } => {
            Field::new(LITERAL_FIELD_NAME, data_type.clone(), *is_null)
        },
    }
}

impl PhysicalExpr {
    /// The field that the expression evaluates to on an input with the given columns.
    pub fn return_field(&self, input: &Vec<FieldRef>) -> (r: Field)
        requires
            self@ matches ExprView::Column(column) ==> column.index < input@.len(),
        ensures
            r@ == field_of_expr(self@, field_models(input@)),
    {
        match self {
            PhysicalExpr::Column(column) => (*input[column.index]).clone(),
            PhysicalExpr::Literal(value) => scalar_field(value),
            PhysicalExpr::ScalarFunction(call) => (*call.return_field).clone(),
            PhysicalExpr::Other { return_field, .. } => (**return_field).clone(),
        }
    }
}

/// The field that `get_field` reads when it goes from `field` through the segments of `path` from
/// position `from` on.
pub fn access_field(field: &Field, path: &Vec<String>, from: usize) -> (r: Option<Field>)
    requires
        from <= path@.len(),
    ensures
        match r {
            Some(f) => accessed_field(field@, texts(path@).skip(from as int)) == Some(f@),
            None => accessed_field(field@, texts(path@).skip(from as int)) is None,
        },
    decreases path@.len() - from,
{
    let ghost rest = texts(path@).skip(from as int);
    if from == path.len() {
        return Some(field.clone());
    }
    proof {
        assert(rest[0] == path@[from as int]@);
        assert(rest.drop_first() =~= texts(path@).skip(from + 1));
    }
    match &field.data_type {
        DataType::Struct(children) => {
            proof {
                assert(field@.data_type->Struct_0 =~= field_models(
                    children@,
                ));
            }
            if path[from].as_str().unicode_len() == 0 {
                return None;
            }
            match find_field(children, path[from].as_str()) {
                Some(i) => {
                    let child: Field = (*children[i]).clone();
                    let nullable: bool = child.nullable || field.nullable;
                    let child: Field = child.with_nullable(nullable);
                    access_field(&child, path, from + 1)
                },
                None => None,
            }
        },
        DataType::MapOf(entries, _) => match &entries.data_type {
            DataType::Struct(pair) => {
                assert(entries@.data_type->Struct_0 =~= field_models(pair@));
                if pair.len() == 2 {
                    let values: Field = (*pair[1]).clone().with_nullable(true);
                    access_field(&values, path, from + 1)
                } else {
                    None
                }
            },
            _ => None,
        },
        DataType::Leaf(LeafType::Null) => Some(
            Field::new(GET_FIELD, DataType::Leaf(LeafType::Null), true),
        ),
        _ => None,
    }
}

impl ScalarFunctionExpr {
    /// The call of `get_field` that goes from the column at `index` of `input` through `path`, if
    /// every step can be made.
    pub fn try_get_field(input: &Vec<FieldRef>, column: Column, path: &Vec<String>) -> (r: Option<
        ScalarFunctionExpr,
    >)
        requires
            column@.index < input@.len(),
        ensures
            ({
                let read = accessed_field(
                    field_models(input@)[column@.index as int],
                    texts(path@),
                );
                match r {
                    Some(call) => read is Some && PhysicalExpr::ScalarFunction(call)@
                        == get_field_call(column@, texts(path@), read->0),
                    None => read is None,
                }
            }),
    {
        assert(texts(path@).skip(0) =~= texts(path@));
        let field: Field = match access_field(&input[column.index], path, 0) {
            Some(field) => field,
            None => {
                return None;
            },
        };
        let ghost root = ExprView::Column(column@);
        let mut args: Vec<Arc<PhysicalExpr>> = Vec::new();
        args.push(Arc::new(PhysicalExpr::Column(column)));
        let ghost literals = texts(path@).map_values(
            |segment: Seq<char>| ExprView::Literal(ScalarView::Utf8(Some(segment))),
        );
        assert(expr_models(args@) =~= seq![root] + literals.take(0));
        let mut i: usize = 0;
        while i < path.len()
            invariant
                i <= path@.len(),
                literals == texts(path@).map_values(
                    |segment: Seq<char>| ExprView::Literal(ScalarView::Utf8(Some(segment))),
                ),
                expr_models(args@) == seq![root] + literals.take(i as int),
            decreases path@.len() - i,
        {
            let ghost before = expr_models(args@);
            let value: ScalarValue = ScalarValue::Utf8(Some(path[i].clone()));
            args.push(Arc::new(PhysicalExpr::Literal(value)));
            proof {
                assert(expr_models(args@) =~= before.push(literals[i as int]));
                assert(expr_models(args@) =~= seq![root] + literals.take(i + 1));
            }
            i += 1;
        }
        assert(literals.take(i as int) =~= literals);
        let call: ScalarFunctionExpr = ScalarFunctionExpr {
            name: GET_FIELD.to_owned(),
            args,
            return_field: Arc::new(field),
        };
        proof {
            lemma_call_model(call);
        }
        Some(call)
    }
}

/// A path is walked step by step: what a longer path leads to is what its second part leads to
/// from where the first part leads.
pub proof fn law_access_goes_step_by_step(
    field: FieldView,
    first: Seq<Seq<char>>,
    second: Seq<Seq<char>>,
)
    ensures
        accessed_field(field, first + second) == (match accessed_field(field, first) {
            Some(inner) => accessed_field(inner, second),
            None => None,
        }),
    decreases first.len(),
{
    let path = first + second;
    if first.len() == 0 {
        assert(path =~= second);
    } else {
        assert(path[0] == first[0]);
        assert(path.drop_first() =~= first.drop_first() + second);
        match field.data_type {
            DataTypeView::Struct(children) => {
                if let Some(child) = child_named(children, first[0]) {
                    law_access_goes_step_by_step(
                        FieldView { nullable: child.nullable || field.nullable, ..child },
                        first.drop_first(),
                        second,
                    );
                }
            },
            DataTypeView::MapOf(entries, _) => {
                if let DataTypeView::Struct(pair) = entries.data_type {
                    if pair.len() == 2 {
                        law_access_goes_step_by_step(
                            FieldView { nullable: true, ..pair[1] },
                            first.drop_first(),
                            second,
                        );
                    }
                }
            },
            _ => {},
        }
    }
}

/// One step into a struct leads to the first child of that name. What is inside a field that may
/// be null may be null.
pub proof fn law_access_of_a_child(
    field: FieldView,
    children: Seq<FieldView>,
    name: Seq<char>,
    i: int,
)
    requires
        field.data_type == DataTypeView::Struct(children),
        name.len() > 0,
        0 <= i <= children.len(),
        forall|k: int| 0 <= k < i ==> (#[trigger] children[k]).name != name,
        i < children.len() ==> children[i].name == name,
    ensures
        i < children.len() ==> accessed_field(field, seq![name]) == Some(
            FieldView { nullable: children[i].nullable || field.nullable, ..children[i] },
        ),
        i == children.len() ==> accessed_field(field, seq![name]) is None,
{
    lemma_position_of(children, name, i);
    let path = seq![name];
    assert(path.drop_first() =~= Seq::<Seq<char>>::empty());
    if i < children.len() {
        let child = FieldView { nullable: children[i].nullable || field.nullable, ..children[i] };
        assert(accessed_field(child, path.drop_first()) == Some(child));
    }
}

/// A path of no steps stays, and types without children cannot be entered.
pub proof fn law_access_of_other_types(field: FieldView, name: Seq<char>)
    ensures
        accessed_field(field, Seq::empty()) == Some(field),
        field.data_type is Struct && name.len() == 0 ==> accessed_field(field, seq![name]) is None,
        field.data_type is Leaf && field.data_type != DataTypeView::Leaf(LeafType::Null)
            ==> accessed_field(field, seq![name]) is None,
        field.data_type == DataTypeView::Leaf(LeafType::Null) ==> accessed_field(
            field,
            seq![name],
        ) == Some(
            FieldView {
                name: "get_field"@,
                data_type: DataTypeView::Leaf(LeafType::Null),
                nullable: true,
                metadata: Map::empty(),
            },
        ),
        !(field.data_type is Struct || field.data_type is MapOf || field.data_type is Leaf)
            ==> accessed_field(field, seq![name]) is None,
{
}

/// One step into a map leads to its values, whatever the name is; a missing key makes them null.
pub proof fn law_access_of_a_map(field: FieldView, pair: Seq<FieldView>, name: Seq<char>)
    requires
        field.data_type matches DataTypeView::MapOf(entries, _) && entries.data_type
            == DataTypeView::Struct(pair),
        pair.len() == 2,
    ensures
        accessed_field(field, seq![name]) == Some(FieldView { nullable: true, ..pair[1] }),
{
    let path = seq![name];
    let values = FieldView { nullable: true, ..pair[1] };
    assert(path.drop_first() =~= Seq::<Seq<char>>::empty());
    assert(accessed_field(values, path.drop_first()) == Some(values));
}

/// An expression whose columns are moved reads as many columns as before, under the same names,
/// each at the position that is listed for its own.
pub proof fn law_moved_columns(expr: ExprView, positions: Seq<usize>)
    ensures
        columns_of(moved(expr, positions)) == columns_of(expr).map_values(
            |c: ColumnView| moved_column(c, positions),
        ),
    decreases expr,
{
    let f = |c: ColumnView| moved_column(c, positions);
    match expr {
        ExprView::Column(column) => {
            assert(seq![column].map_values(f) =~= seq![moved_column(column, positions)]);
        },
        ExprView::Literal(_) => {
            assert(Seq::<ColumnView>::empty().map_values(f) =~= Seq::<ColumnView>::empty());
        },
        ExprView::ScalarFunction { args, .. } => {
            let next = moved(expr, positions)->args;
            assert(next =~= moved_all(args, positions));
            lemma_moved_columns_of_all(args, positions);
        },
        ExprView::Other { children, .. } => {
            let next = moved(expr, positions)->Other_children;
            assert(next =~= moved_all(children, positions));
            lemma_moved_columns_of_all(children, positions);
        },
    }
}

proof fn lemma_moved_columns_of_all(exprs: Seq<ExprView>, positions: Seq<usize>)
    ensures
        columns_of_all(moved_all(exprs, positions)) == columns_of_all(exprs).map_values(
            |c: ColumnView| moved_column(c, positions),
        ),
    decreases exprs,
{
    let f = |c: ColumnView| moved_column(c, positions);
    let next = moved_all(exprs, positions);
    if exprs.len() == 0 {
        assert(columns_of_all(next) =~= columns_of_all(exprs).map_values(f));
    } else {
        let shorter = exprs.drop_last();
        lemma_moved_columns_of_all(shorter, positions);
        law_moved_columns(exprs.last(), positions);
        assert(next.drop_last() =~= moved_all(shorter, positions));
        assert(columns_of_all(next) =~= columns_of_all(exprs).map_values(f));
    }
}

/// Moving columns changes their positions and nothing else: a column whose position is listed goes
/// there, and names, constants, functions, the order of arguments and return fields stay.
pub proof fn law_moving_keeps_all_but_positions(expr: ExprView, positions: Seq<usize>)
    ensures
        expr matches ExprView::Column(c) ==> {
            &&& moved(expr, positions) matches ExprView::Column(next)
            &&& next.name == c.name
            &&& c.index < positions.len() ==> next.index == positions[c.index as int]
            &&& c.index >= positions.len() ==> next.index == c.index
        },
        expr is Literal ==> moved(expr, positions) == expr,
        expr matches ExprView::ScalarFunction { name, args, return_field } ==> {
            &&& moved(expr, positions) matches ExprView::ScalarFunction {
                name: next_name,
                args: next_args,
                return_field: next_field,
            }
            &&& next_name == name
            &&& next_field == return_field
            &&& next_args.len() == args.len()
            &&& forall|i: int|
                0 <= i < args.len() ==> #[trigger] next_args[i] == moved(args[i], positions)
        },
        expr matches ExprView::Other { text, children, return_field } ==> {
            &&& moved(expr, positions) matches ExprView::Other {
                text: next_text,
                children: next_children,
                return_field: next_field,
            }
            &&& next_text == text
            &&& next_field == return_field
            &&& next_children.len() == children.len()
            &&& forall|i: int|
                0 <= i < children.len() ==> #[trigger] next_children[i] == moved(
                    children[i],
                    positions,
                )
        },
{
}

/// Whether a column occurs in an expression, at whatever depth.
pub open spec fn reads(expr: ExprView, column: ColumnView) -> bool
    decreases expr,
{
    match expr {
        ExprView::Column(own) => own == column,
        ExprView::Literal(_) => false,
        ExprView::ScalarFunction { args, .. } => exists|i: int|
            0 <= i < args.len() && reads(#[trigger] args[i], column),
        ExprView::Other { children, .. } => exists|i: int|
            0 <= i < children.len() && reads(#[trigger] children[i], column),
    }
}

/// The columns of an expression are those that occur in it.
pub proof fn law_columns_are_those_that_occur(expr: ExprView, column: ColumnView)
    ensures
        columns_of(expr).contains(column) <==> reads(expr, column),
    decreases expr,
{
    match expr {
        ExprView::Column(own) => {
            assert(seq![own][0] == own);
            assert(columns_of(expr) =~= seq![own]);
        },
        ExprView::Literal(_) => {
            assert(columns_of(expr) =~= Seq::<ColumnView>::empty());
        },
        ExprView::ScalarFunction { args, .. } => {
            lemma_columns_of_all_occur(args, column);
            if columns_of(expr).contains(column) {
                let i = choose|i: int| 0 <= i < args.len() && #[trigger] reads(args[i], column);
                assert(reads(args[i], column));
            }
            if reads(expr, column) {
                let i = choose|i: int| 0 <= i < args.len() && reads(#[trigger] args[i], column);
                assert(reads(args[i], column));
            }
        },
        ExprView::Other { children, .. } => {
            lemma_columns_of_all_occur(children, column);
            if columns_of(expr).contains(column) {
                let i = choose|i: int|
                    0 <= i < children.len() && #[trigger] reads(children[i], column);
                assert(reads(children[i], column));
            }
            if reads(expr, column) {
                let i = choose|i: int|
                    0 <= i < children.len() && reads(#[trigger] children[i], column);
                assert(reads(children[i], column));
            }
        },
    }
}

/// The columns of a list of expressions are those that occur in one of them.
pub proof fn lemma_columns_of_all_occur(exprs: Seq<ExprView>, column: ColumnView)
    ensures
        columns_of_all(exprs).contains(column) <==> exists|i: int|
            0 <= i < exprs.len() && #[trigger] reads(exprs[i], column),
    decreases exprs,
{
    if exprs.len() > 0 {
        let shorter = exprs.drop_last();
        let before = columns_of_all(shorter);
        let own = columns_of(exprs.last());
        let all = before + own;
        let last = exprs.len() - 1;
        lemma_columns_of_all_occur(shorter, column);
        law_columns_are_those_that_occur(exprs.last(), column);
        assert(exprs[last] == exprs.last());
        if all.contains(column) {
            let k = choose|k: int| 0 <= k < all.len() && all[k] == column;
            if k < before.len() {
                assert(before[k] == column);
                let i = choose|i: int| 0 <= i < shorter.len() && #[trigger] reads(shorter[i], column);
                assert(reads(exprs[i], column));
            } else {
                assert(own[k - before.len()] == column);
                assert(reads(exprs[last], column));
            }
        }
        if exists|i: int| 0 <= i < exprs.len() && #[trigger] reads(exprs[i], column) {
            let i = choose|i: int| 0 <= i < exprs.len() && #[trigger] reads(exprs[i], column);
            if i < last {
                assert(shorter[i] == exprs[i]);
                assert(reads(shorter[i], column));
                let k = choose|k: int| 0 <= k < before.len() && before[k] == column;
                assert(all[k] == column);
            } else {
                let k = choose|k: int| 0 <= k < own.len() && own[k] == column;
                assert(all[before.len() + k] == column);
            }
        }
    }
}

/// A column evaluates to the field at its position, a string constant to a field of its own type that
/// may be null if the constant is, and a call to the field that it was made with.
pub proof fn law_fields_of_expressions(expr: ExprView, input: Seq<FieldView>)
    ensures
        expr matches ExprView::Column(c) ==> field_of_expr(expr, input) == input[c.index as int],
        expr matches ExprView::ScalarFunction { return_field, .. } ==> field_of_expr(expr, input)
            == return_field,
        expr matches ExprView::Other { return_field, .. } ==> field_of_expr(expr, input)
            == return_field,
        expr matches ExprView::Literal(value) ==> {
            let field = field_of_expr(expr, input);
            &&& field.name == "lit"@
            &&& field.metadata == Map::<Seq<char>, Seq<char>>::empty()
            &&& value matches ScalarView::Utf8(text) ==> field.data_type == DataTypeView::Leaf(
                LeafType::Utf8,
            ) && field.nullable == (text is None)
            &&& value matches ScalarView::LargeUtf8(text) ==> field.data_type == DataTypeView::Leaf(
                LeafType::LargeUtf8,
            ) && field.nullable == (text is None)
            &&& value matches ScalarView::Utf8View(text) ==> field.data_type == DataTypeView::Leaf(
                LeafType::Utf8View,
            ) && field.nullable == (text is None)
            &&& value matches ScalarView::Other { data_type, is_null, .. } ==> field.data_type
                == data_type && field.nullable == is_null
        },
{
}

/// A call of `get_field` has the column as its first argument, and then each step as a string.
pub proof fn law_arguments_of_a_call_of_get_field(
    column: ColumnView,
    path: Seq<Seq<char>>,
    return_field: FieldView,
)
    ensures
        get_field_call(column, path, return_field) matches ExprView::ScalarFunction {
            name,
            args,
            return_field: field,
        } && name == "get_field"@ && field == return_field && args.len() == path.len() + 1
            && args[0] == ExprView::Column(column) && forall|i: int|
            0 <= i < path.len() ==> #[trigger] args[i + 1] == ExprView::Literal(
                ScalarView::Utf8(Some(path[i])),
            ),
{
}

/// A map whose entries are no struct of two fields cannot be entered.
pub proof fn law_access_of_other_maps(field: FieldView, name: Seq<char>)
    requires
        field.data_type matches DataTypeView::MapOf(entries, _) && !(
        entries.data_type matches DataTypeView::Struct(pair) && pair.len() == 2),
    ensures
        accessed_field(field, seq![name]) is None,
{
}

} // verus!
