//! A limit on the number of rows of a stream of batches.

use vstd::prelude::*;

verus! {

/// How many rows of the next batch are returned, when `remaining` rows are still wanted and the
/// batch has `rows` rows: all of them or as many as are wanted. Where no row is wanted any more,
/// no batch is returned at all.
pub open spec fn returned_rows(remaining: nat, rows: nat) -> Option<nat> {
    if remaining == 0 {
        None
    } else if rows <= remaining {
        Some(rows)
    } else {
        Some(remaining)
    }
}

/// How many rows are still wanted behind a batch of `rows` rows.
pub open spec fn remaining_after(remaining: nat, rows: nat) -> nat {
    if rows <= remaining {
        (remaining - rows) as nat
    } else {
        0
    }
}

/// The rows that are returned of `batches` when `remaining` rows are wanted.
pub open spec fn limited<T>(remaining: nat, batches: Seq<Seq<T>>) -> Seq<T>
    decreases batches.len(),
{
    if batches.len() == 0 {
        Seq::empty()
    } else {
        let rows = batches.first().len();
        let returned = match returned_rows(remaining, rows) {
            Some(n) => batches.first().take(n as int),
            None => Seq::empty(),
        };
        returned + limited(remaining_after(remaining, rows), batches.drop_first())
    }
}

/// The number of rows that are still wanted of a stream.
#[derive(Debug, Clone, Copy, PartialEq, Eq, Structural)]
pub struct RowLimit {
    pub remaining: usize,
}

impl RowLimit {
    /// A limit of `limit` rows.
    pub fn new(limit: usize) -> (r: RowLimit)
        ensures
            r.remaining == limit,
    {
        RowLimit { remaining: limit }
    }

    /// How many rows of the next batch, which has `rows` rows, are returned. `None` drops the
    /// batch.
    pub fn take_rows(&mut self, rows: usize) -> (r: Option<usize>)
        ensures
            returned_rows(old(self).remaining as nat, rows as nat) == (match r {
                Some(n) => Some(n as nat),
                None => None,
            }),
            final(self).remaining == remaining_after(old(self).remaining as nat, rows as nat),
            r is None <==> old(self).remaining == 0,
            r matches Some(n) ==> {
                &&& n <= rows
                &&& n == rows || n == old(self).remaining
                &&& final(self).remaining + n == old(self).remaining
            },
    {
        if self.remaining == 0 {
            None
        } else if rows <= self.remaining {
            self.remaining = self.remaining - rows;
            Some(rows)
        } else {
            let n: usize = self.remaining;
            self.remaining = 0;
            Some(n)
        }
    }
}

/// A limit returns the first rows of the stream, in order: as many as the limit says, or all where
/// there are fewer. How the rows are spread over batches makes no difference.
pub proof fn law_limit_returns_first_rows<T>(limit: nat, batches: Seq<Seq<T>>)
    ensures
        limited(limit, batches) == batches.flatten().take(
            if limit <= batches.flatten().len() {
                limit as int
            } else {
                batches.flatten().len() as int
            },
        ),
    decreases batches.len(),
{
    let all = batches.flatten();
    if batches.len() == 0 {
        assert(limited(limit, batches) =~= all.take(0));
    } else {
        let first = batches.first();
        let rest = batches.drop_first();
        let left = remaining_after(limit, first.len());
        assert(all == first + rest.flatten());
        law_limit_returns_first_rows(left, rest);
        let cut: int = if limit <= all.len() {
            limit as int
        } else {
            all.len() as int
        };
        assert(limited(limit, batches) =~= all.take(cut));
    }
}

} // verus!
