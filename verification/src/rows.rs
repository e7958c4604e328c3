//! Which rows of a page to go on with.
use vstd::prelude::*;

use crate::bits::rank;
use crate::record_reader::Levels;
use crate::types::ColumnDescriptor;

verus! {

/// The rows of a page that have not been passed yet.
pub struct RowCursor {
    pub levels: Levels,
    pub next: usize,
}

/// What to do next to get at more records.
pub enum Step {
    /// Go on to the next page.
    Fetch,
    /// Read or skip these rows.
    Rows(Levels),
    /// There are as many records as were wanted.
    Done,
}

/// How many records start in rows `from` to `to`.
pub open spec fn starts_between(starts: Seq<bool>, from: int, to: int) -> int {
    rank(starts, to) - rank(starts, from)
}

/// Rows `from` to `to` are as many as there are before a record starts that is one too many.
pub open spec fn is_run(starts: Seq<bool>, from: int, to: int, max_records: int) -> bool {
    &&& from <= to <= starts.len()
    &&& starts_between(starts, from, to) <= max_records
    &&& to < starts.len() ==> starts[to] && starts_between(starts, from, to) == max_records
}

/// The levels of rows `from` to `to`, none where the column has none.
fn copy_levels(has_levels: bool, levels: &Vec<i16>, from: usize, to: usize) -> (r: Vec<i16>)
    requires
        has_levels ==> from <= to <= levels@.len(),
    ensures
        r@ == if has_levels {
            levels@.subrange(from as int, to as int)
        } else {
            Seq::empty()
        },
{
    let mut copy: Vec<i16> = Vec::new();
    if has_levels {
        let mut i: usize = from;
        while i < to
            invariant
                from <= i <= to <= levels@.len(),
                copy@ == levels@.subrange(from as int, i as int),
            decreases to - i,
        {
            copy.push(levels[i]);
            proof {
                assert(copy@ =~= levels@.subrange(from as int, i + 1));
            }
            i = i + 1;
        }
    }
    copy
}

impl RowCursor {
    /// The cursor is at a row of the page, or past its last row.
    pub open spec fn wf(self, column: ColumnDescriptor) -> bool {
        &&& self.levels.fits(column)
        &&& self.next <= self.levels.count
    }

    /// `r` are the rows from the cursor on to row `to`.
    pub open spec fn gives(self, column: ColumnDescriptor, to: int, r: Levels) -> bool {
        &&& r.fits(column)
        &&& r.count == to - self.next
        &&& r.def_levels@ == if column.max_def_level > 0 {
            self.levels.def_levels@.subrange(self.next as int, to)
        } else {
            Seq::empty()
        }
        &&& r.rep_levels@ == if column.max_rep_level > 0 {
            self.levels.rep_levels@.subrange(self.next as int, to)
        } else {
            Seq::empty()
        }
    }

    /// What taking the rows of the next `max_records` records does: `r` are these rows, and the
    /// cursor is behind them.
    pub open spec fn takes_run(
        before: Self,
        column: ColumnDescriptor,
        max_records: usize,
        after: Self,
        r: Levels,
    ) -> bool {
        &&& after.levels == before.levels
        &&& is_run(
            before.levels.starts(column),
            before.next as int,
            after.next as int,
            max_records as int,
        )
        &&& before.gives(column, after.next as int, r)
    }

    /// What `r` says to do next when `records_left` records are wanted, and where the cursor is
    /// then.
    pub open spec fn steps(
        before: Self,
        column: ColumnDescriptor,
        records_left: usize,
        after: Self,
        r: Step,
    ) -> bool {
        &&& after.levels == before.levels
        &&& if before.next == before.levels.count {
            &&& after.next == before.next
            &&& r == if records_left == 0 && column.max_rep_level <= 0 {
                Step::Done
            } else {
                Step::Fetch
            }
        } else {
            &&& is_run(
                before.levels.starts(column),
                before.next as int,
                after.next as int,
                records_left as int,
            )
            &&& match r {
                Step::Rows(run) => after.next > before.next && before.gives(
                    column,
                    after.next as int,
                    run,
                ),
                Step::Done => after.next == before.next,
                Step::Fetch => false,
            }
        }
    }

    /// At the first row of a page.
    pub fn new(levels: Levels) -> (r: Self)
        ensures
            r.levels == levels,
            r.next == 0,
    {
        RowCursor { levels, next: 0 }
    }

    /// A cursor without rows.
    pub fn at_end() -> (r: Self)
        ensures
            r.levels.count == 0,
            r.next == 0,
            r.levels.def_levels@.len() == 0,
            r.levels.rep_levels@.len() == 0,
    {
        RowCursor {
            levels: Levels { count: 0, def_levels: Vec::new(), rep_levels: Vec::new() },
            next: 0,
        }
    }

    /// The rows of the next `max_records` records, or what the page has of them. Rows that go on
    /// with the record before come first.
    pub fn next_run(&mut self, column: &ColumnDescriptor, max_records: usize) -> (r: Levels)
        requires
            old(self).wf(*column),
        ensures
            final(self).wf(*column),
            Self::takes_run(*old(self), *column, max_records, *final(self), r),
    {
        let ghost starts = self.levels.starts(*column);
        let count: usize = self.levels.count;
        let from: usize = self.next;
        let has_lists: bool = column.max_rep_level > 0;
        let mut to: usize = from;
        let mut records: usize = 0;
        while to < count && (records < max_records || has_lists && self.levels.rep_levels[to] != 0)
            invariant
                from <= to <= count,
                count == self.levels.count,
                self.levels.fits(*column),
                has_lists == (column.max_rep_level > 0),
                starts == self.levels.starts(*column),
                records == starts_between(starts, from as int, to as int),
                records <= max_records,
            decreases count - to,
        {
            if !has_lists || self.levels.rep_levels[to] == 0 {
                records = records + 1;
            }
            to = to + 1;
        }
        let run = Levels {
            count: to - from,
            def_levels: copy_levels(
                column.max_def_level > 0,
                &self.levels.def_levels,
                from,
                to,
            ),
            rep_levels: copy_levels(has_lists, &self.levels.rep_levels, from, to),
        };
        self.next = to;
        run
    }

    /// What to do next when `records_left` records are wanted. A page that has been passed is
    /// followed by another, unless no row there can go on with the last record.
    pub fn next_step(&mut self, column: &ColumnDescriptor, records_left: usize) -> (r: Step)
        requires
            old(self).wf(*column),
        ensures
            final(self).wf(*column),
            Self::steps(*old(self), *column, records_left, *final(self), r),
    {
        if self.next == self.levels.count {
            return if records_left == 0 && column.max_rep_level <= 0 {
                Step::Done
            } else {
                Step::Fetch
            };
        }
        let run = self.next_run(column, records_left);
        if run.count == 0 {
            Step::Done
        } else {
            Step::Rows(run)
        }
    }
}

/// A run is a stretch of rows of its own: the rows that hold a value, and the records that start,
/// are those of the stretch.
pub proof fn law_run_is_a_stretch(
    cursor: RowCursor,
    column: ColumnDescriptor,
    to: int,
    run: Levels,
)
    requires
        cursor.wf(column),
        cursor.next <= to <= cursor.levels.count,
        cursor.gives(column, to, run),
    ensures
        run.validity(column) == cursor.levels.validity(column).subrange(cursor.next as int, to),
        run.starts(column) == cursor.levels.starts(column).subrange(cursor.next as int, to),
{
    let from = cursor.next as int;
    assert(run.validity(column) =~= cursor.levels.validity(column).subrange(from, to));
    assert(run.starts(column) =~= cursor.levels.starts(column).subrange(from, to));
}

} // verus!
