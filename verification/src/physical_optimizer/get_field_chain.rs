//! Recognizes expressions that read one nested field of one column.

use vstd::prelude::*;

use crate::arrow::schema::FieldView;
use crate::physical_expr::{
    expr_models, get_field_call, lemma_call_model, Column, ColumnView, ExprView, PhysicalExpr,
    ScalarValue, ScalarView, GET_FIELD,
};
use crate::text::{same_text, texts};

verus! {

/// A column and the path that leads from it to the field that is read.
pub struct ChainView {
    pub column: ColumnView,
    pub path: Seq<Seq<char>>,
}

/// The text of a string constant.
pub open spec fn string_constant(expr: ExprView) -> Option<Seq<char>> {
    match expr {
        ExprView::Literal(ScalarView::Utf8(text)) => text,
        ExprView::Literal(ScalarView::LargeUtf8(text)) => text,
        ExprView::Literal(ScalarView::Utf8View(text)) => text,
        _ => None,
    }
}

/// The texts of a list of expressions, if all of them are string constants.
pub open spec fn string_constants(exprs: Seq<ExprView>) -> Option<Seq<Seq<char>>>
    decreases exprs.len(),
{
    if exprs.len() == 0 {
        Some(Seq::empty())
    } else {
        match (string_constants(exprs.drop_last()), string_constant(exprs.last())) {
            (Some(before), Some(text)) => Some(before.push(text)),
            _ => None,
        }
    }
}

/// The column and the path that an expression reads. A column alone has an empty path. A call of
/// `get_field` goes on from what its first argument reads, through its other arguments, which have
/// to be string constants. Other expressions are no chains.
pub open spec fn get_field_chain(expr: ExprView) -> Option<ChainView>
    decreases expr,
{
    match expr {
        ExprView::Column(column) => Some(ChainView { column, path: Seq::empty() }),
        ExprView::ScalarFunction { name, args, .. } => if name == GET_FIELD@ && args.len() >= 2 {
            match (get_field_chain(args[0]), string_constants(args.drop_first())) {
                (Some(chain), Some(rest)) => Some(
                    ChainView { column: chain.column, path: chain.path + rest },
                ),
                _ => None,
            }
        } else {
            None
        },
        _ => None,
    }
}

fn constant_text(expr: &PhysicalExpr) -> (r: Option<&String>)
    ensures
        match r {
            Some(text) => string_constant(expr@) == Some(text@),
            None => string_constant(expr@) is None,
        },
{
    match expr {
        PhysicalExpr::Literal(value) => match value {
            ScalarValue::Utf8(text) => text.as_ref(),
            ScalarValue::LargeUtf8(text) => text.as_ref(),
            ScalarValue::Utf8View(text) => text.as_ref(),
            ScalarValue::Other { .. } => None,
        },
        _ => None,
    }
}

proof fn lemma_no_string_constants(exprs: Seq<ExprView>, i: int)
    requires
        0 <= i < exprs.len(),
        string_constant(exprs[i]) is None,
    ensures
        string_constants(exprs) is None,
    decreases exprs.len(),
{
    if i < exprs.len() - 1 {
        lemma_no_string_constants(exprs.drop_last(), i);
    }
}

/// Takes an expression apart into a column and a path, if it reads one nested field of one column.
///
/// Both nested calls, `get_field(get_field(c, 'a'), 'b')`, and one call with several names,
/// `get_field(c, 'a', 'b')`, are recognized.
pub fn extract_get_field_chain(expr: &PhysicalExpr) -> (r: Option<(Column, Vec<String>)>)
    ensures
        match r {
            Some((column, path)) => get_field_chain(expr@) == Some(
                ChainView { column: column@, path: texts(path@) },
            ),
            None => get_field_chain(expr@) is None,
        },
    decreases expr,
{
    let call = match expr {
        PhysicalExpr::Column(column) => {
            let path: Vec<String> = Vec::new();
            assert(texts(path@) =~= Seq::<Seq<char>>::empty());
            return Some((column.clone(), path));
        },
        PhysicalExpr::ScalarFunction(call) => call,
        _ => {
            return None;
        },
    };
    let ghost models = expr_models(call.args@);
    let ghost rest = models.drop_first();
    proof {
        lemma_call_model(*call);
    }
    if !same_text(call.name.as_str(), GET_FIELD) || call.args.len() < 2 {
        return None;
    }
    assert(models[0] == (*call.args@[0])@);
    let (column, mut path): (Column, Vec<String>) = match extract_get_field_chain(&call.args[0]) {
        Some(chain) => chain,
        None => {
            return None;
        },
    };
    let ghost base = texts(path@);
    let mut i: usize = 1;
    assert(rest.take(0) =~= Seq::<ExprView>::empty());
    assert(base + Seq::<Seq<char>>::empty() =~= base);
    while i < call.args.len()
        invariant
            1 <= i <= call.args@.len(),
            models == expr_models(call.args@),
            rest == models.drop_first(),
            string_constants(rest.take(i - 1)) is Some,
            texts(path@) == base + string_constants(rest.take(i - 1))->0,
            expr@ == (ExprView::ScalarFunction {
                name: call.name@,
                args: models,
                return_field: (*call.return_field)@,
            }),
        decreases call.args@.len() - i,
    {
        let ghost before = texts(path@);
        proof {
            let upto = rest.take(i as int);
            assert(upto.drop_last() =~= rest.take(i - 1));
            assert(upto.last() == rest[i - 1]);
            assert(rest[i - 1] == (*call.args@[i as int])@);
        }
        match constant_text(&call.args[i]) {
            Some(text) => {
                path.push(text.clone());
                assert(texts(path@) =~= before.push(text@));
            },
            None => {
                proof {
                    lemma_no_string_constants(rest, i - 1);
                }
                return None;
            },
        }
        i += 1;
        assert(texts(path@) =~= base + string_constants(rest.take(i - 1))->0);
    }
    assert(rest.take(i - 1) =~= rest);
    Some((column, path))
}

proof fn lemma_string_constants_add(a: Seq<ExprView>, b: Seq<ExprView>)
    ensures
        string_constants(a + b) == (match (string_constants(a), string_constants(b)) {
            (Some(x), Some(y)) => Some(x + y),
            _ => None,
        }),
    decreases b.len(),
{
    if b.len() == 0 {
        assert(a + b =~= a);
        if let Some(x) = string_constants(a) {
            assert(x + Seq::<Seq<char>>::empty() =~= x);
        }
    } else {
        assert((a + b).drop_last() =~= a + b.drop_last());
        lemma_string_constants_add(a, b.drop_last());
        if let (Some(x), Some(y)) = (string_constants(a), string_constants(b.drop_last())) {
            if let Some(text) = string_constant(b.last()) {
                assert((x + y).push(text) =~= x + y.push(text));
            }
        }
    }
}

/// Whether a field is read by nested calls or by one call makes no difference: a call of
/// `get_field` on a call of `get_field` reads what the one call with the arguments of both reads.
pub proof fn law_nested_and_flat_calls_agree(
    base: ExprView,
    inner: Seq<ExprView>,
    outer: Seq<ExprView>,
    inner_field: FieldView,
    field: FieldView,
)
    requires
        inner.len() > 0,
        outer.len() > 0,
    ensures
        ({
            let nested = ExprView::ScalarFunction {
                name: GET_FIELD@,
                args: seq![
                    ExprView::ScalarFunction {
                        name: GET_FIELD@,
                        args: seq![base] + inner,
                        return_field: inner_field,
                    },
                ] + outer,
                return_field: field,
            };
            let flat = ExprView::ScalarFunction {
                name: GET_FIELD@,
                args: seq![base] + (inner + outer),
                return_field: field,
            };
            get_field_chain(nested) == get_field_chain(flat)
        }),
{
    let first = ExprView::ScalarFunction {
        name: GET_FIELD@,
        args: seq![base] + inner,
        return_field: inner_field,
    };
    let nested = ExprView::ScalarFunction {
        name: GET_FIELD@,
        args: seq![first] + outer,
        return_field: field,
    };
    let flat = ExprView::ScalarFunction {
        name: GET_FIELD@,
        args: seq![base] + (inner + outer),
        return_field: field,
    };
    reveal_with_fuel(get_field_chain, 3);
    assert((seq![base] + inner).drop_first() =~= inner);
    assert((seq![first] + outer).drop_first() =~= outer);
    assert((seq![base] + (inner + outer)).drop_first() =~= inner + outer);
    lemma_string_constants_add(inner, outer);
    if let (Some(chain), Some(x)) = (get_field_chain(base), string_constants(inner)) {
        if let Some(y) = string_constants(outer) {
            assert((chain.path + x) + y =~= chain.path + (x + y));
        }
    }
    assert(get_field_chain(nested) == get_field_chain(flat));
}

/// The call of `get_field` that goes from a column through a path is recognized as just that.
pub proof fn law_built_calls_are_recognized(
    column: ColumnView,
    path: Seq<Seq<char>>,
    field: FieldView,
)
    requires
        path.len() > 0,
    ensures
        get_field_chain(get_field_call(column, path, field)) == Some(ChainView { column, path }),
{
    let literals = path.map_values(
        |segment: Seq<char>| ExprView::Literal(ScalarView::Utf8(Some(segment))),
    );
    let args = seq![ExprView::Column(column)] + literals;
    reveal_with_fuel(get_field_chain, 2);
    assert(args.drop_first() =~= literals);
    lemma_constants_of_literals(path);
    assert(Seq::<Seq<char>>::empty() + path =~= path);
}

proof fn lemma_constants_of_literals(path: Seq<Seq<char>>)
    ensures
        string_constants(
            path.map_values(
                |segment: Seq<char>| ExprView::Literal(ScalarView::Utf8(Some(segment))),
            ),
        ) == Some(path),
    decreases path.len(),
{
    let f = |segment: Seq<char>| ExprView::Literal(ScalarView::Utf8(Some(segment)));
    if path.len() == 0 {
        assert(path =~= Seq::<Seq<char>>::empty());
    } else {
        lemma_constants_of_literals(path.drop_last());
        assert(path.map_values(f).drop_last() =~= path.drop_last().map_values(f));
        assert(path.drop_last().push(path.last()) =~= path);
    }
}

/// The three kinds of string constants say their text alike. Nulls and other constants, columns and
/// calls are no string constants.
pub proof fn law_string_constants_say_their_text(text: Seq<char>, expr: ExprView)
    ensures
        string_constant(ExprView::Literal(ScalarView::Utf8(Some(text)))) == Some(text),
        string_constant(ExprView::Literal(ScalarView::LargeUtf8(Some(text)))) == Some(text),
        string_constant(ExprView::Literal(ScalarView::Utf8View(Some(text)))) == Some(text),
        string_constant(expr) == Some(text) ==> expr == ExprView::Literal(
            ScalarView::Utf8(Some(text)),
        ) || expr == ExprView::Literal(ScalarView::LargeUtf8(Some(text))) || expr
            == ExprView::Literal(ScalarView::Utf8View(Some(text))),
{
}

proof fn lemma_constants_one_by_one(exprs: Seq<ExprView>)
    ensures
        string_constants(exprs) is Some <==> (forall|i: int|
            0 <= i < exprs.len() ==> string_constant(#[trigger] exprs[i]) is Some),
        string_constants(exprs) matches Some(all) ==> all.len() == exprs.len() && (forall|i: int|
            0 <= i < exprs.len() ==> string_constant(exprs[i]) == Some(#[trigger] all[i])),
    decreases exprs.len(),
{
    if exprs.len() > 0 {
        let shorter = exprs.drop_last();
        lemma_constants_one_by_one(shorter);
        assert forall|i: int| 0 <= i < shorter.len() implies shorter[i] == exprs[i] by {}
        if string_constants(exprs) is Some {
            let all = string_constants(exprs)->0;
            let before = string_constants(shorter)->0;
            assert forall|i: int| 0 <= i < exprs.len() implies string_constant(exprs[i]) == Some(
                #[trigger] all[i],
            ) by {
                if i < shorter.len() {
                    assert(all[i] == before[i]);
                    assert(shorter[i] == exprs[i]);
                }
            }
            assert forall|i: int| 0 <= i < exprs.len() implies string_constant(
                #[trigger] exprs[i],
            ) is Some by {
                assert(string_constant(exprs[i]) == Some(all[i]));
            }
        } else if forall|i: int|
            0 <= i < exprs.len() ==> string_constant(#[trigger] exprs[i]) is Some {
            assert(string_constant(exprs[exprs.len() - 1]) is Some);
            assert forall|i: int| 0 <= i < shorter.len() implies string_constant(
                #[trigger] shorter[i],
            ) is Some by {
                assert(string_constant(exprs[i]) is Some);
            }
        }
    }
}

/// A column is a chain that goes nowhere. A call is a chain exactly if it is one of `get_field`,
/// with a chain for its first argument and string constants, at least one, for the others: it goes
/// on through them. Nothing else is a chain.
pub proof fn law_chains_are_columns_and_calls_of_get_field(
    column: ColumnView,
    name: Seq<char>,
    args: Seq<ExprView>,
    return_field: FieldView,
    other: ExprView,
)
    ensures
        get_field_chain(ExprView::Column(column)) == Some(
            ChainView { column, path: Seq::empty() },
        ),
        ({
            let call = ExprView::ScalarFunction { name, args, return_field };
            &&& get_field_chain(call) is Some <==> {
                &&& name == "get_field"@
                &&& args.len() >= 2
                &&& get_field_chain(args[0]) is Some
                &&& forall|i: int|
                    1 <= i < args.len() ==> string_constant(#[trigger] args[i]) is Some
            }
            &&& get_field_chain(call) matches Some(chain) ==> {
                let inner = get_field_chain(args[0])->0;
                &&& chain.column == inner.column
                &&& chain.path.len() == inner.path.len() + args.len() - 1
                &&& chain.path.take(inner.path.len() as int) == inner.path
                &&& forall|i: int|
                    1 <= i < args.len() ==> string_constant(#[trigger] args[i]) == Some(
                        chain.path[inner.path.len() + i - 1],
                    )
            }
        }),
        other is Literal || other is Other ==> get_field_chain(other) is None,
{
    let call = ExprView::ScalarFunction { name, args, return_field };
    reveal_with_fuel(get_field_chain, 2);
    if args.len() >= 2 {
        let rest = args.drop_first();
        lemma_constants_one_by_one(rest);
        assert forall|i: int| 1 <= i < args.len() implies #[trigger] args[i] == rest[i - 1] by {}
        if forall|i: int| 1 <= i < args.len() ==> string_constant(#[trigger] args[i]) is Some {
            assert forall|i: int| 0 <= i < rest.len() implies string_constant(
                #[trigger] rest[i],
            ) is Some by {
                assert(rest[i] == args[i + 1]);
                assert(string_constant(args[i + 1]) is Some);
            }
        }
        if string_constants(rest) is Some {
            assert forall|i: int| 1 <= i < args.len() implies string_constant(
                #[trigger] args[i],
            ) is Some by {
                assert(args[i] == rest[i - 1]);
            }
        }
        if get_field_chain(call) is Some {
            let chain = get_field_chain(call)->0;
            let inner = get_field_chain(args[0])->0;
            let texts = string_constants(rest)->0;
            assert(chain.path == inner.path + texts);
            assert(chain.path.take(inner.path.len() as int) =~= inner.path);
            assert forall|i: int| 1 <= i < args.len() implies string_constant(#[trigger] args[i])
                == Some(chain.path[inner.path.len() + i - 1]) by {
                assert(args[i] == rest[i - 1]);
                assert(chain.path[inner.path.len() + i - 1] == texts[i - 1]);
            }
        }
    }
}

} // verus!
