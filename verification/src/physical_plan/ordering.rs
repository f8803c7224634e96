//! Lexicographic orderings of rows.

use vstd::prelude::*;

use std::sync::Arc;

use crate::physical_expr::{same_expr, ExprView, PhysicalExpr};

verus! {

/// How the values of an expression are ordered.
#[derive(Debug, Clone, Copy, PartialEq, Eq, Structural)]
pub struct SortOptions {
    pub descending: bool,
    pub nulls_first: bool,
}

/// An expression by which rows are ordered.
#[derive(Debug, PartialEq, Eq)]
pub struct PhysicalSortExpr {
    pub expr: Arc<PhysicalExpr>,
    pub options: SortOptions,
}

/// What a [`PhysicalSortExpr`] is.
pub struct SortExprView {
    pub expr: ExprView,
    pub options: SortOptions,
}

impl View for PhysicalSortExpr {
    type V = SortExprView;

    open spec fn view(&self) -> SortExprView {
        SortExprView { expr: (*self.expr)@, options: self.options }
    }
}

/// What the sort expressions of a list are.
pub open spec fn sort_views(exprs: Seq<PhysicalSortExpr>) -> Seq<SortExprView> {
    exprs.map_values(|e: PhysicalSortExpr| e@)
}

/// Whether one of the keys orders by an expression.
pub open spec fn orders_by(keys: Seq<SortExprView>, expr: ExprView) -> bool {
    exists|i: int| 0 <= i < keys.len() && (#[trigger] keys[i]).expr == expr
}

/// Whether no two keys order by the same expression.
pub open spec fn distinct_keys(keys: Seq<SortExprView>) -> bool {
    forall|i: int, j: int|
        0 <= i < j < keys.len() ==> (#[trigger] keys[i]).expr != (#[trigger] keys[j]).expr
}

/// The keys without those that order by an expression that an earlier key orders by.
pub open spec fn without_repeats(keys: Seq<SortExprView>) -> Seq<SortExprView>
    decreases keys.len(),
{
    if keys.len() == 0 {
        Seq::empty()
    } else {
        let before = without_repeats(keys.drop_last());
        if orders_by(before, keys.last().expr) {
            before
        } else {
            before.push(keys.last())
        }
    }
}

/// How two rows compare by the first of the keys that tells them apart; 0 where none does. `side`
/// says how they compare by one key: below 0 where the first row stands before the second.
pub open spec fn lexicographic<K>(keys: Seq<K>, side: spec_fn(K) -> int) -> int
    decreases keys.len(),
{
    if keys.len() == 0 {
        0
    } else if side(keys.first()) != 0 {
        side(keys.first())
    } else {
        lexicographic(keys.drop_first(), side)
    }
}

/// A lexicographic ordering: at least one sort expression, the most significant first, and no two
/// with the same expression.
#[derive(Debug, PartialEq, Eq)]
pub struct LexOrdering {
    exprs: Vec<PhysicalSortExpr>,
}

impl View for LexOrdering {
    type V = Seq<SortExprView>;

    closed spec fn view(&self) -> Seq<SortExprView> {
        sort_views(self.exprs@)
    }
}

proof fn lemma_without_repeats_step(keys: Seq<SortExprView>, i: int)
    requires
        0 <= i < keys.len(),
    ensures
        without_repeats(keys.take(i + 1)) == (if orders_by(
            without_repeats(keys.take(i)),
            keys[i].expr,
        ) {
            without_repeats(keys.take(i))
        } else {
            without_repeats(keys.take(i)).push(keys[i])
        }),
{
    assert(keys.take(i + 1).drop_last() =~= keys.take(i));
    assert(keys.take(i + 1).last() == keys[i]);
}

fn find_expr(exprs: &Vec<PhysicalSortExpr>, expr: &PhysicalExpr) -> (r: bool)
    ensures
        r == orders_by(sort_views(exprs@), expr@),
{
    let ghost keys = sort_views(exprs@);
    let mut i: usize = 0;
    while i < exprs.len()
        invariant
            i <= exprs@.len(),
            keys == sort_views(exprs@),
            forall|j: int| 0 <= j < i ==> (#[trigger] keys[j]).expr != expr@,
        decreases exprs@.len() - i,
    {
        assert(keys[i as int].expr == (*exprs@[i as int].expr)@);
        if same_expr(&exprs[i].expr, expr) {
            return true;
        }
        i += 1;
    }
    false
}

impl LexOrdering {
    #[verifier::type_invariant]
    spec fn ordered(self) -> bool {
        self@.len() > 0 && distinct_keys(self@)
    }

    /// The ordering by the given sort expressions. One that repeats the expression of an earlier
    /// one is left out. There is no ordering by nothing.
    pub fn new(exprs: Vec<PhysicalSortExpr>) -> (r: Option<LexOrdering>)
        ensures
            match r {
                Some(ordering) => exprs@.len() > 0 && ordering@ == without_repeats(
                    sort_views(exprs@),
                ),
                None => exprs@.len() == 0,
            },
    {
        let ghost keys = sort_views(exprs@);
        let mut kept: Vec<PhysicalSortExpr> = Vec::new();
        let mut i: usize = 0;
        assert(keys.take(0) =~= Seq::<SortExprView>::empty());
        assert(sort_views(kept@) =~= Seq::<SortExprView>::empty());
        while i < exprs.len()
            invariant
                i <= exprs@.len(),
                keys == sort_views(exprs@),
                sort_views(kept@) == without_repeats(keys.take(i as int)),
                distinct_keys(sort_views(kept@)),
                i > 0 ==> kept@.len() > 0,
            decreases exprs@.len() - i,
        {
            let ghost before = sort_views(kept@);
            proof {
                lemma_without_repeats_step(keys, i as int);
                assert(keys[i as int] == exprs@[i as int]@);
            }
            if !find_expr(&kept, &exprs[i].expr) {
                kept.push(
                    PhysicalSortExpr { expr: exprs[i].expr.clone(), options: exprs[i].options },
                );
                assert(sort_views(kept@) =~= before.push(keys[i as int]));
            } else {
                assert(before.len() > 0);
            }
            i += 1;
        }
        assert(keys.take(i as int) =~= keys);
        if exprs.is_empty() {
            None
        } else {
            Some(LexOrdering { exprs: kept })
        }
    }

    /// The sort expressions, the most significant first.
    pub fn exprs(&self) -> (r: &[PhysicalSortExpr])
        ensures
            sort_views(r@) == self@,
            self@.len() > 0,
            distinct_keys(self@),
    {
        proof {
            use_type_invariant(self);
        }
        self.exprs.as_slice()
    }

    /// The number of sort expressions.
    pub fn len(&self) -> (r: usize)
        ensures
            r == self@.len(),
    {
        self.exprs.len()
    }
}

proof fn lemma_lexicographic_push<K>(keys: Seq<K>, key: K, side: spec_fn(K) -> int)
    ensures
        lexicographic(keys.push(key), side) == (if lexicographic(keys, side) != 0 {
            lexicographic(keys, side)
        } else {
            side(key)
        }),
    decreases keys.len(),
{
    let longer = keys.push(key);
    if keys.len() == 0 {
        assert(longer.drop_first() =~= keys);
    } else {
        assert(longer.first() == keys.first());
        assert(longer.drop_first() =~= keys.drop_first().push(key));
        lemma_lexicographic_push(keys.drop_first(), key, side);
    }
}

/// Rows that are in order by some keys are in order by the first of those keys.
pub proof fn law_prefix_is_an_ordering<K>(keys: Seq<K>, count: int, side: spec_fn(K) -> int)
    requires
        0 <= count <= keys.len(),
        lexicographic(keys, side) <= 0,
    ensures
        lexicographic(keys.take(count), side) <= 0,
    decreases keys.len(),
{
    let front = keys.take(count);
    if count > 0 && side(keys.first()) == 0 {
        assert(front.first() == keys.first());
        assert(front.drop_first() =~= keys.drop_first().take(count - 1));
        law_prefix_is_an_ordering(keys.drop_first(), count - 1, side);
    } else if count > 0 {
        assert(front.first() == keys.first());
    }
}

proof fn lemma_equal_keys<K>(keys: Seq<K>, side: spec_fn(K) -> int, i: int)
    requires
        lexicographic(keys, side) == 0,
        0 <= i < keys.len(),
    ensures
        side(keys[i]) == 0,
    decreases keys.len(),
{
    if i > 0 {
        lemma_equal_keys(keys.drop_first(), side, i - 1);
        assert(keys.drop_first()[i - 1] == keys[i]);
    }
}

/// Leaving out a repeated expression does not change how rows compare, whatever its options are:
/// rows that come to it are equal in the expression already.
pub proof fn law_repeats_do_not_matter(keys: Seq<SortExprView>, side: spec_fn(SortExprView) -> int)
    requires
        forall|a: SortExprView, b: SortExprView|
            a.expr == b.expr ==> (#[trigger] side(a) == 0 <==> #[trigger] side(b) == 0),
    ensures
        lexicographic(without_repeats(keys), side) == lexicographic(keys, side),
    decreases keys.len(),
{
    if keys.len() > 0 {
        let shorter = keys.drop_last();
        let before = without_repeats(shorter);
        let key = keys.last();
        law_repeats_do_not_matter(shorter, side);
        lemma_lexicographic_push(shorter, key, side);
        lemma_lexicographic_push(before, key, side);
        assert(keys =~= shorter.push(key));
        if orders_by(before, key.expr) && lexicographic(before, side) == 0 {
            let i = choose|i: int| 0 <= i < before.len() && (#[trigger] before[i]).expr == key.expr;
            lemma_equal_keys(before, side, i);
            assert(side(before[i]) == 0 <==> side(key) == 0);
        }
    }
}

/// Keys with different expressions all stay.
pub proof fn law_distinct_keys_stay(keys: Seq<SortExprView>)
    requires
        distinct_keys(keys),
    ensures
        without_repeats(keys) == keys,
    decreases keys.len(),
{
    if keys.len() > 0 {
        let before = keys.drop_last();
        assert forall|i: int, j: int| 0 <= i < j < before.len() implies (#[trigger] before[i]).expr
            != (#[trigger] before[j]).expr by {
            assert(before[i] == keys[i] && before[j] == keys[j]);
        }
        law_distinct_keys_stay(before);
        assert(!orders_by(before, keys.last().expr)) by {
            if orders_by(before, keys.last().expr) {
                let i = choose|i: int|
                    0 <= i < before.len() && (#[trigger] before[i]).expr == keys.last().expr;
                assert(keys[i] == before[i]);
                assert(keys[keys.len() - 1].expr == keys[i].expr);
            }
        }
        assert(before.push(keys.last()) =~= keys);
    }
}

/// The first keys give the first part of what all keys give.
pub proof fn law_first_keys_give_a_prefix(keys: Seq<SortExprView>, count: int)
    requires
        0 <= count <= keys.len(),
    ensures
        without_repeats(keys.take(count)).is_prefix_of(without_repeats(keys)),
    decreases keys.len(),
{
    if count == keys.len() {
        assert(keys.take(count) =~= keys);
    } else {
        let before = keys.drop_last();
        assert(keys.take(count) =~= before.take(count));
        law_first_keys_give_a_prefix(before, count);
    }
}

/// Each key that is left is one of the keys, and the first with its expression.
pub proof fn law_kept_keys_are_keys(keys: Seq<SortExprView>, n: int) -> (i: int)
    requires
        0 <= n < without_repeats(keys).len(),
    ensures
        0 <= i < keys.len(),
        without_repeats(keys)[n] == keys[i],
        forall|k: int| 0 <= k < i ==> (#[trigger] keys[k]).expr != keys[i].expr,
    decreases keys.len(),
{
    let before = without_repeats(keys.drop_last());
    if n < before.len() {
        let i = law_kept_keys_are_keys(keys.drop_last(), n);
        assert(keys.drop_last()[i] == keys[i]);
        assert forall|k: int| 0 <= k < i implies (#[trigger] keys[k]).expr != keys[i].expr by {
            assert(keys.drop_last()[k] == keys[k]);
        }
        i
    } else {
        let last = keys.len() - 1;
        assert forall|k: int| 0 <= k < last implies (#[trigger] keys[k]).expr
            != keys[last].expr by {
            let m = law_every_expression_is_kept(keys.drop_last(), k);
            assert(keys.drop_last()[k] == keys[k]);
            assert(before[m].expr == keys[k].expr);
        }
        last
    }
}

/// The expression of each key is that of a key that is left.
pub proof fn law_every_expression_is_kept(keys: Seq<SortExprView>, i: int) -> (n: int)
    requires
        0 <= i < keys.len(),
    ensures
        0 <= n < without_repeats(keys).len(),
        without_repeats(keys)[n].expr == keys[i].expr,
    decreases keys.len(),
{
    let before = without_repeats(keys.drop_last());
    if i < keys.len() - 1 {
        let n = law_every_expression_is_kept(keys.drop_last(), i);
        assert(keys.drop_last()[i] == keys[i]);
        assert(without_repeats(keys)[n] == before[n]);
        n
    } else if orders_by(before, keys.last().expr) {
        choose|n: int| 0 <= n < before.len() && (#[trigger] before[n]).expr == keys.last().expr
    } else {
        before.len() as int
    }
}

/// The first key with an expression is left, behind what is left of the keys before it.
pub proof fn law_first_occurrences_are_kept(keys: Seq<SortExprView>, i: int)
    requires
        0 <= i < keys.len(),
        forall|k: int| 0 <= k < i ==> (#[trigger] keys[k]).expr != keys[i].expr,
    ensures
        ({
            let n = without_repeats(keys.take(i)).len() as int;
            n < without_repeats(keys).len() && without_repeats(keys)[n] == keys[i]
        }),
{
    let front = keys.take(i);
    let before = without_repeats(front);
    lemma_without_repeats_step(keys, i);
    if orders_by(before, keys[i].expr) {
        let n = choose|n: int|
            0 <= n < before.len() && (#[trigger] before[n]).expr == keys[i].expr;
        let k = law_kept_keys_are_keys(front, n);
        assert(front[k] == keys[k]);
    }
    law_first_keys_give_a_prefix(keys, i + 1);
    let longer = without_repeats(keys.take(i + 1));
    assert(longer[before.len() as int] == keys[i]);
}

/// No two keys that are left have the same expression.
pub proof fn law_kept_keys_are_distinct(keys: Seq<SortExprView>, m: int, n: int)
    requires
        0 <= m < n < without_repeats(keys).len(),
    ensures
        without_repeats(keys)[m].expr != without_repeats(keys)[n].expr,
    decreases keys.len(),
{
    let before = without_repeats(keys.drop_last());
    if n < before.len() {
        law_kept_keys_are_distinct(keys.drop_last(), m, n);
    } else {
        assert(before[m] == without_repeats(keys)[m]);
    }
}

} // verus!
