//! Row-group pruning by bloom filters.
//!
//! A bloom filter can rule out a row group only for equality and `IN`: where it rejects a value,
//! the value is definitely absent. It says nothing about any other operator.

use vstd::prelude::*;

use std::collections::HashMap;

use fnv::FnvHashSet;
use parquet::bloom_filter::Sbbf;

use crate::error::Error;
use crate::expr::bloom_filter_bytes::{
    datum_to_bloom_filter_bytes, encoded, law_bytes_are_those_that_are_written, written_as,
    ColumnDescriptor,
};
use crate::expr::predicate::{
    BinaryOperator, BoundPredicate, BoundReference, Datum, LiteralView, SetOperator,
};

verus! {

/// The split block bloom filter of the `parquet` crate.
#[verifier::external_type_specification]
#[verifier::external_body]
pub struct ExSbbf(parquet::bloom_filter::Sbbf);

/// The hasher of the `fnv` crate.
#[verifier::external_type_specification]
#[verifier::external_body]
pub struct ExFnvHasher(fnv::FnvHasher);

/// The builder of default hashers that the sets of the `fnv` crate use.
#[verifier::external_type_specification]
#[verifier::external_body]
#[verifier::reject_recursive_types(H)]
pub struct ExBuildHasherDefault<H>(core::hash::BuildHasherDefault<H>);

/// The byte strings that `filter` does not rule out.
pub uninterp spec fn sbbf_accepted(filter: &Sbbf) -> Set<Seq<u8>>;

/// The number of blocks that `filter` was made with.
pub uninterp spec fn sbbf_blocks(filter: &Sbbf) -> nat;

/// [`Sbbf::num_blocks`]: the number of blocks in the filter.
#[verifier::external_body]
fn sbbf_num_blocks(filter: &Sbbf) -> (r: usize)
    ensures
        r == sbbf_blocks(filter),
{
    filter.num_blocks()
}

/// [`Sbbf::check`]: whether the filter accepts the byte string. The answer depends on the filter
/// and on the bytes alone. The call indexes a block, so the filter must have one.
#[verifier::external_body]
fn sbbf_check(filter: &Sbbf, bytes: &Vec<u8>) -> (r: bool)
    requires
        sbbf_blocks(filter) > 0,
    ensures
        r == sbbf_accepted(filter).contains(bytes@),
{
    filter.check(bytes.as_slice())
}

/// `insert` of the sets of the `fnv` crate: the set gains the item.
#[verifier::external_body]
fn fnv_insert(set: &mut FnvHashSet<usize>, item: usize)
    ensures
        final(set)@ == old(set)@.insert(item),
{
    set.insert(item);
}

/// The bloom filters that were loaded for one row group, by the index of the leaf column that
/// they cover.
pub type RowGroupBloomFilters = HashMap<usize, Sbbf>;

/// The filter and the column shape that speak for a field, where both are known.
pub open spec fn filter_of(
    field_id: i32,
    filters: Map<usize, Sbbf>,
    field_ids: Map<i32, usize>,
    columns: Seq<ColumnDescriptor>,
) -> Option<(Sbbf, ColumnDescriptor)> {
    if field_ids.contains_key(field_id) && filters.contains_key(field_ids[field_id])
        && field_ids[field_id] < columns.len() {
        Some((filters[field_ids[field_id]], columns[field_ids[field_id] as int]))
    } else {
        None
    }
}

/// Whether `filter` leaves it open that a column of shape `column` holds `literal`. A filter
/// without blocks cannot be asked, and rules out nothing.
pub open spec fn may_hold(filter: Sbbf, column: ColumnDescriptor, literal: LiteralView) -> bool {
    match encoded(literal, column) {
        Some(bytes) => sbbf_blocks(&filter) == 0 || sbbf_accepted(&filter).contains(bytes),
        None => true,
    }
}

/// Whether the filters leave it open that a row of the row group satisfies the predicate.
pub open spec fn may_match(
    predicate: BoundPredicate,
    filters: Map<usize, Sbbf>,
    field_ids: Map<i32, usize>,
    columns: Seq<ColumnDescriptor>,
) -> bool
    decreases predicate,
{
    match predicate {
        BoundPredicate::AlwaysFalse => false,
        BoundPredicate::And(left, right) => may_match(*left, filters, field_ids, columns)
            && may_match(*right, filters, field_ids, columns),
        BoundPredicate::Or(left, right) => may_match(*left, filters, field_ids, columns)
            || may_match(*right, filters, field_ids, columns),
        BoundPredicate::Binary(BinaryOperator::Eq, reference, datum) => match filter_of(
            reference.field_id,
            filters,
            field_ids,
            columns,
        ) {
            Some((filter, column)) => may_hold(filter, column, datum.literal@),
            None => true,
        },
        BoundPredicate::Membership(SetOperator::In, reference, literals) => match filter_of(
            reference.field_id,
            filters,
            field_ids,
            columns,
        ) {
            Some((filter, column)) => exists|i: int|
                0 <= i < literals@.len() && may_hold(
                    filter,
                    column,
                    (#[trigger] literals@[i]).literal@,
                ),
            None => true,
        },
        _ => true,
    }
}

/// Asks the bloom filters of one row group about a predicate.
pub struct RowGroupBloomFilterEvaluator<'a> {
    bloom_filters: &'a RowGroupBloomFilters,
    /// From field id to leaf column index.
    field_id_map: &'a HashMap<i32, usize>,
    parquet_columns: &'a Vec<ColumnDescriptor>,
}

impl<'a> RowGroupBloomFilterEvaluator<'a> {
    /// The filters that are asked.
    pub closed spec fn filters(self) -> Map<usize, Sbbf> {
        self.bloom_filters@
    }

    /// The leaf column index of each field id.
    pub closed spec fn field_ids(self) -> Map<i32, usize> {
        self.field_id_map@
    }

    /// The shapes of the leaf columns.
    pub closed spec fn columns(self) -> Seq<ColumnDescriptor> {
        self.parquet_columns@
    }

    /// An evaluator for one row group.
    pub fn new(
        bloom_filters: &'a RowGroupBloomFilters,
        field_id_map: &'a HashMap<i32, usize>,
        parquet_columns: &'a Vec<ColumnDescriptor>,
    ) -> (r: RowGroupBloomFilterEvaluator<'a>)
        ensures
            r.filters() == bloom_filters@,
            r.field_ids() == field_id_map@,
            r.columns() == parquet_columns@,
    {
        RowGroupBloomFilterEvaluator { bloom_filters, field_id_map, parquet_columns }
    }

    /// `Ok(true)` when the row group might hold rows that satisfy `predicate`, `Ok(false)` when
    /// the filters prove that it cannot.
    pub fn eval(
        predicate: &BoundPredicate,
        bloom_filters: &'a RowGroupBloomFilters,
        field_id_map: &'a HashMap<i32, usize>,
        parquet_columns: &'a Vec<ColumnDescriptor>,
    ) -> (r: Result<bool, Error>)
        ensures
            r == Ok::<bool, Error>(
                may_match(*predicate, bloom_filters@, field_id_map@, parquet_columns@),
            ),
    {
        let evaluator: RowGroupBloomFilterEvaluator = RowGroupBloomFilterEvaluator::new(
            bloom_filters,
            field_id_map,
            parquet_columns,
        );
        Ok(evaluator.visit(predicate))
    }

    /// The filter and the column shape for a field, when both are known.
    pub fn bloom_filter_for(&self, field_id: i32) -> (r: Option<(&Sbbf, &ColumnDescriptor)>)
        ensures
            match r {
                Some((filter, column)) => filter_of(
                    field_id,
                    self.filters(),
                    self.field_ids(),
                    self.columns(),
                ) == Some((*filter, *column)),
                None => filter_of(
                    field_id,
                    self.filters(),
                    self.field_ids(),
                    self.columns(),
                ) is None,
            },
    {
        let column_idx: usize = match self.field_id_map.get(&field_id) {
            Some(column_idx) => *column_idx,
            None => {
                return None;
            },
        };
        match self.bloom_filters.get(&column_idx) {
            Some(filter) => if column_idx < self.parquet_columns.len() {
                Some((filter, &self.parquet_columns[column_idx]))
            } else {
                None
            },
            None => None,
        }
    }

    /// Whether the filter leaves it open that the column holds the value. A value that cannot be
    /// encoded may be present.
    pub fn datum_might_be_in(&self, filter: &Sbbf, column: &ColumnDescriptor, datum: &Datum) -> (r:
        bool)
        requires
            encoded(datum.literal@, *column) is Some ==> sbbf_blocks(filter) > 0,
        ensures
            r == may_hold(*filter, *column, datum.literal@),
    {
        match datum_to_bloom_filter_bytes(datum, column) {
            Some(bytes) => sbbf_check(filter, &bytes),
            None => true,
        }
    }

    /// Whether the column may hold the value, for any filter: one that has no blocks is not asked.
    pub fn might_hold(&self, filter: &Sbbf, column: &ColumnDescriptor, datum: &Datum) -> (r: bool)
        ensures
            r == may_hold(*filter, *column, datum.literal@),
    {
        sbbf_num_blocks(filter) == 0 || self.datum_might_be_in(filter, column, datum)
    }

    /// Equality with one literal.
    pub fn equal(&self, reference: &BoundReference, datum: &Datum) -> (r: bool)
        ensures
            r == match filter_of(
                reference.field_id,
                self.filters(),
                self.field_ids(),
                self.columns(),
            ) {
                Some((filter, column)) => may_hold(filter, column, datum.literal@),
                None => true,
            },
    {
        match self.bloom_filter_for(reference.field_id) {
            Some((filter, column)) => self.might_hold(filter, column, datum),
            None => true,
        }
    }

    /// Membership in a set of literals: ruled out only when every literal is.
    pub fn member(&self, reference: &BoundReference, literals: &Vec<Datum>) -> (r: bool)
        ensures
            r == match filter_of(
                reference.field_id,
                self.filters(),
                self.field_ids(),
                self.columns(),
            ) {
                Some((filter, column)) => exists|i: int|
                    0 <= i < literals@.len() && may_hold(
                        filter,
                        column,
                        (#[trigger] literals@[i]).literal@,
                    ),
                None => true,
            },
    {
        match self.bloom_filter_for(reference.field_id) {
            Some((filter, column)) => {
                let mut i: usize = 0;
                while i < literals.len()
                    invariant
                        i <= literals@.len(),
                        filter_of(
                            reference.field_id,
                            self.filters(),
                            self.field_ids(),
                            self.columns(),
                        ) == Some((*filter, *column)),
                        forall|j: int|
                            0 <= j < i ==> !may_hold(
                                *filter,
                                *column,
                                (#[trigger] literals@[j]).literal@,
                            ),
                    decreases literals@.len() - i,
                {
                    if self.might_hold(filter, column, &literals[i]) {
                        return true;
                    }
                    i += 1;
                }
                false
            },
            None => true,
        }
    }

    /// Evaluates a predicate from the inside out. Filters confirm absence and nothing else, so
    /// they cannot rule out a negation, or any operator but equality and `IN`.
    fn visit(&self, predicate: &BoundPredicate) -> (r: bool)
        ensures
            r == may_match(*predicate, self.filters(), self.field_ids(), self.columns()),
        decreases predicate,
    {
        match predicate {
            BoundPredicate::AlwaysTrue => true,
            BoundPredicate::AlwaysFalse => false,
            BoundPredicate::And(left, right) => {
                let lhs: bool = self.visit(left);
                let rhs: bool = self.visit(right);
                lhs && rhs
            },
            BoundPredicate::Or(left, right) => {
                let lhs: bool = self.visit(left);
                let rhs: bool = self.visit(right);
                lhs || rhs
            },
            BoundPredicate::Binary(BinaryOperator::Eq, reference, datum) => self.equal(
                reference,
                datum,
            ),
            BoundPredicate::Membership(SetOperator::In, reference, literals) => self.member(
                reference,
                literals,
            ),
            _ => true,
        }
    }
}

/// The leaf columns that equality and `IN` sub-predicates refer to.
pub open spec fn filterable_columns(
    predicate: BoundPredicate,
    field_ids: Map<i32, usize>,
) -> Set<usize>
    decreases predicate,
{
    match predicate {
        BoundPredicate::And(left, right) => filterable_columns(*left, field_ids).union(
            filterable_columns(*right, field_ids),
        ),
        BoundPredicate::Or(left, right) => filterable_columns(*left, field_ids).union(
            filterable_columns(*right, field_ids),
        ),
        BoundPredicate::Not(inner) => filterable_columns(*inner, field_ids),
        BoundPredicate::Binary(BinaryOperator::Eq, reference, _) => column_of(reference, field_ids),
        BoundPredicate::Membership(SetOperator::In, reference, _) => column_of(
            reference,
            field_ids,
        ),
        _ => Set::empty(),
    }
}

/// The leaf column of a reference, as a set: empty where the file has no such column.
pub open spec fn column_of(reference: BoundReference, field_ids: Map<i32, usize>) -> Set<usize> {
    if field_ids.contains_key(reference.field_id) {
        set![field_ids[reference.field_id]]
    } else {
        Set::empty()
    }
}

/// Reports the leaf columns that equality and `IN` sub-predicates refer to: only their filters
/// are worth loading.
pub fn collect_bloom_filterable_column_indices(
    predicate: &BoundPredicate,
    field_id_map: &HashMap<i32, usize>,
) -> (r: Result<FnvHashSet<usize>, Error>)
    ensures
        r matches Ok(columns) && columns@ == filterable_columns(*predicate, field_id_map@),
{
    let mut visitor: BloomFilterableColumnCollector = BloomFilterableColumnCollector {
        field_id_map,
        column_indices: FnvHashSet::default(),
    };
    visitor.visit(predicate);
    assert(visitor.column_indices@ =~= filterable_columns(*predicate, field_id_map@));
    Ok(visitor.column_indices)
}

struct BloomFilterableColumnCollector<'a> {
    field_id_map: &'a HashMap<i32, usize>,
    column_indices: FnvHashSet<usize>,
}

impl<'a> BloomFilterableColumnCollector<'a> {
    fn record(&mut self, reference: &BoundReference)
        ensures
            final(self).field_id_map == old(self).field_id_map,
            final(self).column_indices@ == old(self).column_indices@.union(
                column_of(*reference, old(self).field_id_map@),
            ),
    {
        if let Some(column) = self.field_id_map.get(&reference.field_id) {
            fnv_insert(&mut self.column_indices, *column);
        }
        assert(self.column_indices@ =~= old(self).column_indices@.union(
            column_of(*reference, old(self).field_id_map@),
        ));
    }

    fn visit(&mut self, predicate: &BoundPredicate)
        ensures
            final(self).field_id_map == old(self).field_id_map,
            final(self).column_indices@ == old(self).column_indices@.union(
                filterable_columns(*predicate, old(self).field_id_map@),
            ),
        decreases predicate,
    {
        match predicate {
            BoundPredicate::And(left, right) => {
                self.visit(left);
                self.visit(right);
            },
            BoundPredicate::Or(left, right) => {
                self.visit(left);
                self.visit(right);
            },
            BoundPredicate::Not(inner) => self.visit(inner),
            BoundPredicate::Binary(BinaryOperator::Eq, reference, _) => self.record(reference),
            BoundPredicate::Membership(SetOperator::In, reference, _) => self.record(reference),
            _ => {},
        }
        assert(self.column_indices@ =~= old(self).column_indices@.union(
            filterable_columns(*predicate, old(self).field_id_map@),
        ));
    }
}

/// A row of a table: the value of each field that is not null, and which of the predicates that
/// filters say nothing about it satisfies.
pub struct RowView {
    pub values: Map<i32, LiteralView>,
    pub satisfies: spec_fn(BoundPredicate) -> bool,
}

/// Whether a row satisfies a predicate. Equality is that of the literals, bit for bit.
pub open spec fn holds(predicate: BoundPredicate, row: RowView) -> bool
    decreases predicate,
{
    match predicate {
        BoundPredicate::AlwaysTrue => true,
        BoundPredicate::AlwaysFalse => false,
        BoundPredicate::And(left, right) => holds(*left, row) && holds(*right, row),
        BoundPredicate::Or(left, right) => holds(*left, row) || holds(*right, row),
        BoundPredicate::Not(inner) => !holds(*inner, row),
        BoundPredicate::Binary(BinaryOperator::Eq, reference, datum) => row.values.contains_key(
            reference.field_id,
        ) && row.values[reference.field_id] == datum.literal@,
        BoundPredicate::Membership(SetOperator::In, reference, literals) => row.values.contains_key(
            reference.field_id,
        ) && exists|i: int|
            0 <= i < literals@.len() && row.values[reference.field_id] == (
            #[trigger] literals@[i]).literal@,
        _ => (row.satisfies)(predicate),
    }
}

/// Whether a field has a filter: the file has it as a leaf column, whose shape is known and whose
/// filter was loaded.
pub open spec fn has_filter(
    field_id: i32,
    filters: Map<usize, Sbbf>,
    field_ids: Map<i32, usize>,
    columns: Seq<ColumnDescriptor>,
) -> bool {
    &&& field_ids.contains_key(field_id)
    &&& filters.contains_key(field_ids[field_id])
    &&& field_ids[field_id] < columns.len()
}

/// Whether the filter of a field rejects the bytes that a writer puts into it for a value.
pub open spec fn rejects(
    field_id: i32,
    value: LiteralView,
    filters: Map<usize, Sbbf>,
    field_ids: Map<i32, usize>,
    columns: Seq<ColumnDescriptor>,
) -> bool {
    &&& has_filter(field_id, filters, field_ids, columns)
    &&& sbbf_blocks(&filters[field_ids[field_id]]) > 0
    &&& exists|bytes: Seq<u8>| #[trigger]
        written_as(value, columns[field_ids[field_id] as int], bytes) && !sbbf_accepted(
            &filters[field_ids[field_id]],
        ).contains(bytes)
}

/// Whether the filters accept the bytes of every value of the row, as they do when the row group's
/// writer put each value into the filter of its column.
pub open spec fn row_recorded(
    row: RowView,
    filters: Map<usize, Sbbf>,
    field_ids: Map<i32, usize>,
    columns: Seq<ColumnDescriptor>,
) -> bool {
    forall|field_id: i32, bytes: Seq<u8>|
        #![trigger row.values.contains_key(field_id), sbbf_accepted(
            &filters[field_ids[field_id]],
        ).contains(bytes)]
        row.values.contains_key(field_id) && has_filter(field_id, filters, field_ids, columns)
            && sbbf_blocks(&filters[field_ids[field_id]]) > 0 && written_as(
            row.values[field_id],
            columns[field_ids[field_id] as int],
            bytes,
        ) ==> sbbf_accepted(&filters[field_ids[field_id]]).contains(bytes)
}

/// Whether a predicate is made of something that filters can rule out.
pub open spec fn can_be_ruled_out(predicate: BoundPredicate) -> bool
    decreases predicate,
{
    match predicate {
        BoundPredicate::AlwaysFalse => true,
        BoundPredicate::And(left, right) => can_be_ruled_out(*left) || can_be_ruled_out(*right),
        BoundPredicate::Or(left, right) => can_be_ruled_out(*left) && can_be_ruled_out(*right),
        BoundPredicate::Binary(operator, _, _) => operator == BinaryOperator::Eq,
        BoundPredicate::Membership(operator, _, _) => operator == SetOperator::In,
        _ => false,
    }
}

/// Only equality and `IN` can be ruled out, and only outside of a negation. Whatever the filters
/// are, any other predicate might match.
pub proof fn law_other_predicates_are_never_ruled_out(
    predicate: BoundPredicate,
    filters: Map<usize, Sbbf>,
    field_ids: Map<i32, usize>,
    columns: Seq<ColumnDescriptor>,
)
    requires
        !can_be_ruled_out(predicate),
    ensures
        may_match(predicate, filters, field_ids, columns),
    decreases predicate,
{
    match predicate {
        BoundPredicate::And(left, right) => {
            law_other_predicates_are_never_ruled_out(*left, filters, field_ids, columns);
            law_other_predicates_are_never_ruled_out(*right, filters, field_ids, columns);
        },
        BoundPredicate::Or(left, right) => {
            if can_be_ruled_out(*left) {
                law_other_predicates_are_never_ruled_out(*right, filters, field_ids, columns);
            } else {
                law_other_predicates_are_never_ruled_out(*left, filters, field_ids, columns);
            }
        },
        _ => {},
    }
}

/// No false negatives: a row group with a row that satisfies the predicate is never ruled out.
pub proof fn law_matching_row_group_is_kept(
    predicate: BoundPredicate,
    row: RowView,
    filters: Map<usize, Sbbf>,
    field_ids: Map<i32, usize>,
    columns: Seq<ColumnDescriptor>,
)
    requires
        row_recorded(row, filters, field_ids, columns),
        holds(predicate, row),
    ensures
        may_match(predicate, filters, field_ids, columns),
    decreases predicate,
{
    match predicate {
        BoundPredicate::And(left, right) => {
            law_matching_row_group_is_kept(*left, row, filters, field_ids, columns);
            law_matching_row_group_is_kept(*right, row, filters, field_ids, columns);
        },
        BoundPredicate::Or(left, right) => {
            if holds(*left, row) {
                law_matching_row_group_is_kept(*left, row, filters, field_ids, columns);
            } else {
                law_matching_row_group_is_kept(*right, row, filters, field_ids, columns);
            }
        },
        BoundPredicate::Binary(BinaryOperator::Eq, reference, datum) => {
            lemma_recorded_value_is_not_rejected(
                reference.field_id,
                row,
                filters,
                field_ids,
                columns,
            );
            law_equality_is_ruled_out_by_rejection(reference, datum, filters, field_ids, columns);
        },
        BoundPredicate::Membership(SetOperator::In, reference, literals) => {
            lemma_recorded_value_is_not_rejected(
                reference.field_id,
                row,
                filters,
                field_ids,
                columns,
            );
            law_in_is_ruled_out_by_rejections(reference, literals, filters, field_ids, columns);
        },
        _ => {},
    }
}

proof fn lemma_recorded_value_is_not_rejected(
    field_id: i32,
    row: RowView,
    filters: Map<usize, Sbbf>,
    field_ids: Map<i32, usize>,
    columns: Seq<ColumnDescriptor>,
)
    requires
        row_recorded(row, filters, field_ids, columns),
        row.values.contains_key(field_id),
    ensures
        !rejects(field_id, row.values[field_id], filters, field_ids, columns),
{
}

proof fn lemma_may_hold_unless_rejected(
    field_id: i32,
    value: LiteralView,
    filters: Map<usize, Sbbf>,
    field_ids: Map<i32, usize>,
    columns: Seq<ColumnDescriptor>,
)
    requires
        has_filter(field_id, filters, field_ids, columns),
    ensures
        may_hold(
            filters[field_ids[field_id]],
            columns[field_ids[field_id] as int],
            value,
        ) <==> !rejects(field_id, value, filters, field_ids, columns),
{
    let column = columns[field_ids[field_id] as int];
    assert forall|bytes: Seq<u8>| #[trigger]
        written_as(value, column, bytes) == (encoded(value, column) == Some(bytes)) by {
        law_bytes_are_those_that_are_written(value, column, bytes);
    }
    if let Some(bytes) = encoded(value, column) {
        assert(written_as(value, column, bytes));
    }
}

/// An equality is ruled out if and only if the filter of the field rejects the bytes that the
/// column's writer hashes for the literal.
pub proof fn law_equality_is_ruled_out_by_rejection(
    reference: BoundReference,
    datum: Datum,
    filters: Map<usize, Sbbf>,
    field_ids: Map<i32, usize>,
    columns: Seq<ColumnDescriptor>,
)
    ensures
        may_match(
            BoundPredicate::Binary(BinaryOperator::Eq, reference, datum),
            filters,
            field_ids,
            columns,
        ) <==> !rejects(reference.field_id, datum.literal@, filters, field_ids, columns),
{
    if has_filter(reference.field_id, filters, field_ids, columns) {
        lemma_may_hold_unless_rejected(
            reference.field_id,
            datum.literal@,
            filters,
            field_ids,
            columns,
        );
    }
}

/// An `IN` is ruled out if and only if the field has a filter, and it rejects every literal. Over no
/// literals it is ruled out wherever there is a filter.
pub proof fn law_in_is_ruled_out_by_rejections(
    reference: BoundReference,
    literals: Vec<Datum>,
    filters: Map<usize, Sbbf>,
    field_ids: Map<i32, usize>,
    columns: Seq<ColumnDescriptor>,
)
    ensures
        may_match(
            BoundPredicate::Membership(SetOperator::In, reference, literals),
            filters,
            field_ids,
            columns,
        ) <==> {
            ||| !has_filter(reference.field_id, filters, field_ids, columns)
            ||| exists|i: int|
                0 <= i < literals@.len() && !rejects(
                    reference.field_id,
                    (#[trigger] literals@[i]).literal@,
                    filters,
                    field_ids,
                    columns,
                )
        },
{
    let field_id = reference.field_id;
    if has_filter(field_id, filters, field_ids, columns) {
        let filter = filters[field_ids[field_id]];
        let column = columns[field_ids[field_id] as int];
        assert forall|i: int| 0 <= i < literals@.len() implies may_hold(
            filter,
            column,
            (#[trigger] literals@[i]).literal@,
        ) == !rejects(field_id, literals@[i].literal@, filters, field_ids, columns) by {
            lemma_may_hold_unless_rejected(
                field_id,
                literals@[i].literal@,
                filters,
                field_ids,
                columns,
            );
        }
    }
}

/// A conjunction is ruled out where one side is, a disjunction where both are; what always holds
/// never is, and what never holds always is.
pub proof fn law_connectives_are_ruled_out_by_their_sides(
    left: BoundPredicate,
    right: BoundPredicate,
    filters: Map<usize, Sbbf>,
    field_ids: Map<i32, usize>,
    columns: Seq<ColumnDescriptor>,
)
    ensures
        !may_match(
            BoundPredicate::And(Box::new(left), Box::new(right)),
            filters,
            field_ids,
            columns,
        ) <==> !may_match(left, filters, field_ids, columns) || !may_match(
            right,
            filters,
            field_ids,
            columns,
        ),
        !may_match(
            BoundPredicate::Or(Box::new(left), Box::new(right)),
            filters,
            field_ids,
            columns,
        ) <==> !may_match(left, filters, field_ids, columns) && !may_match(
            right,
            filters,
            field_ids,
            columns,
        ),
        may_match(BoundPredicate::AlwaysTrue, filters, field_ids, columns),
        !may_match(BoundPredicate::AlwaysFalse, filters, field_ids, columns),
        may_match(BoundPredicate::Not(Box::new(left)), filters, field_ids, columns),
{
}

/// Whether a predicate compares a field for equality, or with the members of a set, anywhere in it.
pub open spec fn asks_about(predicate: BoundPredicate, field_id: i32) -> bool
    decreases predicate,
{
    match predicate {
        BoundPredicate::And(left, right) => asks_about(*left, field_id) || asks_about(
            *right,
            field_id,
        ),
        BoundPredicate::Or(left, right) => asks_about(*left, field_id) || asks_about(
            *right,
            field_id,
        ),
        BoundPredicate::Not(inner) => asks_about(*inner, field_id),
        BoundPredicate::Binary(operator, reference, _) => operator == BinaryOperator::Eq
            && reference.field_id == field_id,
        BoundPredicate::Membership(operator, reference, _) => operator == SetOperator::In
            && reference.field_id == field_id,
        _ => false,
    }
}

/// The columns that are collected are those that hold a field which the predicate asks about: none
/// of them is left out, and no other is taken.
pub proof fn law_collected_columns_are_asked_about(
    predicate: BoundPredicate,
    field_ids: Map<i32, usize>,
    column: usize,
)
    ensures
        filterable_columns(predicate, field_ids).contains(column) <==> exists|field_id: i32|
            #[trigger] asks_about(predicate, field_id) && field_ids.contains_key(field_id)
                && field_ids[field_id] == column,
    decreases predicate,
{
    match predicate {
        BoundPredicate::And(left, right) => {
            law_collected_columns_are_asked_about(*left, field_ids, column);
            law_collected_columns_are_asked_about(*right, field_ids, column);
            lemma_asked_about_by_sides(predicate, *left, *right);
        },
        BoundPredicate::Or(left, right) => {
            law_collected_columns_are_asked_about(*left, field_ids, column);
            law_collected_columns_are_asked_about(*right, field_ids, column);
            lemma_asked_about_by_sides(predicate, *left, *right);
        },
        BoundPredicate::Not(inner) => {
            law_collected_columns_are_asked_about(*inner, field_ids, column);
            assert forall|field_id: i32|
                #![trigger asks_about(predicate, field_id)]
                #![trigger asks_about(*inner, field_id)]
                asks_about(predicate, field_id) == asks_about(*inner, field_id) by {}
        },
        BoundPredicate::Binary(operator, reference, _) => {
            assert(asks_about(predicate, reference.field_id) == (operator == BinaryOperator::Eq));
        },
        BoundPredicate::Membership(operator, reference, _) => {
            assert(asks_about(predicate, reference.field_id) == (operator == SetOperator::In));
        },
        _ => {},
    }
}

proof fn lemma_asked_about_by_sides(
    predicate: BoundPredicate,
    left: BoundPredicate,
    right: BoundPredicate,
)
    requires
        predicate == BoundPredicate::And(Box::new(left), Box::new(right)) || predicate
            == BoundPredicate::Or(Box::new(left), Box::new(right)),
    ensures
        forall|field_id: i32|
            #![trigger asks_about(predicate, field_id)]
            #![trigger asks_about(left, field_id)]
            #![trigger asks_about(right, field_id)]
            asks_about(predicate, field_id) == (asks_about(left, field_id) || asks_about(
                right,
                field_id,
            )),
{
}

/// The collected columns are the only ones whose filters count: with the filters of the other
/// columns left out, every answer stays the same.
pub proof fn law_collected_columns_suffice(
    predicate: BoundPredicate,
    wanted: Set<usize>,
    filters: Map<usize, Sbbf>,
    field_ids: Map<i32, usize>,
    columns: Seq<ColumnDescriptor>,
)
    requires
        filterable_columns(predicate, field_ids).subset_of(wanted),
    ensures
        may_match(predicate, filters.restrict(wanted), field_ids, columns) == may_match(
            predicate,
            filters,
            field_ids,
            columns,
        ),
    decreases predicate,
{
    match predicate {
        BoundPredicate::And(left, right) => {
            law_collected_columns_suffice(*left, wanted, filters, field_ids, columns);
            law_collected_columns_suffice(*right, wanted, filters, field_ids, columns);
        },
        BoundPredicate::Or(left, right) => {
            law_collected_columns_suffice(*left, wanted, filters, field_ids, columns);
            law_collected_columns_suffice(*right, wanted, filters, field_ids, columns);
        },
        BoundPredicate::Binary(BinaryOperator::Eq, reference, _) => {
            assert(column_of(reference, field_ids).subset_of(wanted));
            if field_ids.contains_key(reference.field_id) {
                assert(column_of(reference, field_ids).contains(field_ids[reference.field_id]));
            }
        },
        BoundPredicate::Membership(SetOperator::In, reference, _) => {
            assert(column_of(reference, field_ids).subset_of(wanted));
            if field_ids.contains_key(reference.field_id) {
                assert(column_of(reference, field_ids).contains(field_ids[reference.field_id]));
            }
        },
        _ => {},
    }
}

/// An `IN` depends on which literals there are, not on their order or on repetitions.
pub proof fn law_in_depends_on_literal_set(
    reference: BoundReference,
    a: Vec<Datum>,
    b: Vec<Datum>,
    filters: Map<usize, Sbbf>,
    field_ids: Map<i32, usize>,
    columns: Seq<ColumnDescriptor>,
)
    requires
        a@.map_values(|d: Datum| d.literal@).to_set() == b@.map_values(
            |d: Datum| d.literal@,
        ).to_set(),
    ensures
        may_match(
            BoundPredicate::Membership(SetOperator::In, reference, a),
            filters,
            field_ids,
            columns,
        ) == may_match(
            BoundPredicate::Membership(SetOperator::In, reference, b),
            filters,
            field_ids,
            columns,
        ),
{
    if let Some((filter, column)) = filter_of(reference.field_id, filters, field_ids, columns) {
        lemma_accepted_literal_is_shared(a, b, filter, column);
        lemma_accepted_literal_is_shared(b, a, filter, column);
    }
}

proof fn lemma_accepted_literal_is_shared(
    a: Vec<Datum>,
    b: Vec<Datum>,
    filter: Sbbf,
    column: ColumnDescriptor,
)
    requires
        a@.map_values(|d: Datum| d.literal@).to_set() == b@.map_values(
            |d: Datum| d.literal@,
        ).to_set(),
    ensures
        (exists|i: int|
            0 <= i < a@.len() && may_hold(filter, column, (#[trigger] a@[i]).literal@)) ==> (
        exists|j: int|
            0 <= j < b@.len() && may_hold(filter, column, (#[trigger] b@[j]).literal@)),
{
    if exists|i: int| 0 <= i < a@.len() && may_hold(filter, column, (#[trigger] a@[i]).literal@) {
        let literals_a = a@.map_values(|d: Datum| d.literal@);
        let literals_b = b@.map_values(|d: Datum| d.literal@);
        let i = choose|i: int|
            0 <= i < a@.len() && may_hold(filter, column, (#[trigger] a@[i]).literal@);
        assert(literals_a[i] == a@[i].literal@);
        assert(literals_a.to_set().contains(literals_a[i]));
        assert(literals_b.contains(literals_a[i]));
        let j = choose|j: int| 0 <= j < literals_b.len() && literals_b[j] == literals_a[i];
        assert(b@[j].literal@ == a@[i].literal@);
    }
}

/// A filter leaves it open that a column holds a value unless it has blocks and rejects the bytes that
/// a writer puts into it for the value.
pub proof fn law_filters_reject_written_bytes(
    filter: Sbbf,
    column: ColumnDescriptor,
    literal: LiteralView,
)
    ensures
        may_hold(filter, column, literal) <==> sbbf_blocks(&filter) == 0 || forall|bytes: Seq<u8>|
            #[trigger] written_as(literal, column, bytes) ==> sbbf_accepted(&filter).contains(
                bytes,
            ),
{
    assert forall|bytes: Seq<u8>| #[trigger]
        written_as(literal, column, bytes) == (encoded(literal, column) == Some(bytes)) by {
        law_bytes_are_those_that_are_written(literal, column, bytes);
    }
    if let Some(bytes) = encoded(literal, column) {
        assert(written_as(literal, column, bytes));
    }
}

/// The filter of a field is the one of its leaf column, with the shape of that column, where the file
/// has the column and its filter was loaded.
pub proof fn law_filter_of_a_field(
    field_id: i32,
    filters: Map<usize, Sbbf>,
    field_ids: Map<i32, usize>,
    columns: Seq<ColumnDescriptor>,
)
    ensures
        filter_of(field_id, filters, field_ids, columns) is Some <==> has_filter(
            field_id,
            filters,
            field_ids,
            columns,
        ),
        filter_of(field_id, filters, field_ids, columns) matches Some((filter, column)) ==> filter
            == filters[field_ids[field_id]] && column == columns[field_ids[field_id] as int],
{
}

} // verus!
