//! What the levels of rows say: which rows hold a value, which start a record, and which levels a
//! batch is given out with.
use arrow_array::BooleanArray;
use arrow_schema::DataType as ArrowType;
use vstd::prelude::*;

use crate::arrow::{
    array_len, array_type, boolean_array_values, dictionary_values, ArrowArray,
};
use crate::batch_laws::{
    answers_rows, holds_rows, law_batch_answers_rows, law_batch_holds_rows,
    law_int32_batch_holds_rows, law_int64_batch_holds_rows, lemma_rows_of,
    lemma_values_joined, lemma_values_of, row_validity, rows_of, valid_of, values_of,
};
use crate::bits::{
    lemma_rank_bounds, lemma_rank_extended, lemma_rank_full_run, rank, set_count,
};
use crate::column::{ColumnValueDecoder, ValuesBuffer};
use crate::dictionary::{
    DictionaryContent, PrimitiveDictionaryBuffer, PrimitiveDictionaryDecoder,
};
use crate::errors::{ParquetError, Reason};
use crate::laws::{answers_to, lemma_rows_follow, row_of, rows_follow};
use crate::page_laws::{
    answer_bytes, comes_next, fewer, is_answered_next, keys_find_values, law_next_answers_are_read,
    law_next_answers_are_ready, law_next_answers_are_skipped, law_next_values_are_read,
    law_next_values_are_ready, law_next_values_are_skipped,
};
use crate::plain::ColumnValueDecoderImpl;
use crate::predicate::{
    PredicateSlot, PrimitiveDictionaryPredicate, PrimitivePredicateDecoder,
};
use crate::reader::{
    batch_validity, value_type_of, DictionaryRecords, DictionaryState, PredicateRecords,
    PredicateState, PrimitiveDictionaryReader, PrimitivePredicateReader,
};
use crate::record_reader::{extended, starts_empty, validity_covers, Levels, RecordState};
use crate::rows::{RowCursor, Step};
use crate::types::{ColumnDescriptor, DataType, Int32Type, Int64Type};

verus! {

/// There is a level for each row, of each kind that the column has.
pub open spec fn is_leveled(column: ColumnDescriptor, levels: Levels) -> bool {
    &&& column.max_def_level > 0 ==> levels.def_levels@.len() == levels.count
    &&& column.max_rep_level > 0 ==> levels.rep_levels@.len() == levels.count
}

/// Row `i` holds a value: its definition level is the highest that the column has.
pub open spec fn row_has_value(column: ColumnDescriptor, levels: Levels, i: int) -> bool {
    column.max_def_level <= 0 || levels.def_levels@[i] == column.max_def_level
}

/// Row `i` starts a record: its repetition level is zero.
pub open spec fn row_starts_record(column: ColumnDescriptor, levels: Levels, i: int) -> bool {
    column.max_rep_level <= 0 || levels.rep_levels@[i] == 0
}

/// How many of the first `n` rows hold a value.
pub open spec fn values_before(column: ColumnDescriptor, levels: Levels, n: int) -> nat
    decreases n,
{
    if n <= 0 {
        0
    } else if row_has_value(column, levels, n - 1) {
        values_before(column, levels, n - 1) + 1
    } else {
        values_before(column, levels, n - 1)
    }
}

/// How many of the first `n` rows start a record.
pub open spec fn records_before(column: ColumnDescriptor, levels: Levels, n: int) -> nat
    decreases n,
{
    if n <= 0 {
        0
    } else if row_starts_record(column, levels, n - 1) {
        records_before(column, levels, n - 1) + 1
    } else {
        records_before(column, levels, n - 1)
    }
}

/// How many rows hold a value.
pub open spec fn num_values(column: ColumnDescriptor, levels: Levels) -> nat {
    values_before(column, levels, levels.count as int)
}

/// How many rows start a record.
pub open spec fn num_records(column: ColumnDescriptor, levels: Levels) -> nat {
    records_before(column, levels, levels.count as int)
}

/// The rows that levels tell of: those that hold a value hold the next of `values`.
pub open spec fn told_rows<A>(
    column: ColumnDescriptor,
    levels: Levels,
    values: Seq<A>,
) -> Seq<Option<A>> {
    Seq::new(
        levels.count as nat,
        |i: int|
            if row_has_value(column, levels, i) {
                Some(values[values_before(column, levels, i) as int])
            } else {
                None
            },
    )
}

proof fn lemma_counts(column: ColumnDescriptor, levels: Levels, n: int)
    requires
        0 <= n <= levels.count,
    ensures
        rank(levels.validity(column), n) == values_before(column, levels, n) <= n,
        rank(levels.starts(column), n) == records_before(column, levels, n) <= n,
    decreases n,
{
    if n > 0 {
        lemma_counts(column, levels, n - 1);
    }
}

/// The rows that hold a value are those whose definition level is the highest, and the records that
/// start are the rows whose repetition level is zero.
pub proof fn law_levels_are_counted(column: ColumnDescriptor, levels: Levels)
    ensures
        levels.fits(column) == is_leveled(column, levels),
        set_count(levels.validity(column)) == num_values(column, levels),
        set_count(levels.starts(column)) == num_records(column, levels),
        num_values(column, levels) <= levels.count,
        num_records(column, levels) <= levels.count,
        forall|i: int|
            0 <= i < levels.count ==> #[trigger] levels.validity(column)[i] == row_has_value(
                column,
                levels,
                i,
            ),
{
    lemma_counts(column, levels, levels.count as int);
}

proof fn lemma_told_rows<A>(column: ColumnDescriptor, levels: Levels, values: Seq<A>)
    requires
        num_values(column, levels) <= values.len(),
    ensures
        rows_of(
            levels.validity(column),
            values.take(num_values(column, levels) as int),
        ) == told_rows(column, levels, values),
{
    law_levels_are_counted(column, levels);
    let validity = levels.validity(column);
    let taken = values.take(num_values(column, levels) as int);
    let told = told_rows(column, levels, values);
    assert forall|i: int| 0 <= i < levels.count implies #[trigger] rows_of(validity, taken)[i]
        == told[i] by {
        lemma_counts(column, levels, i);
        lemma_rank_bounds(validity, i + 1, levels.count as int);
        assert(validity[i] == row_has_value(column, levels, i));
    }
    assert(rows_of(validity, taken) =~= told);
}

/// A reader has the levels of its rows: a row holds a value where its definition level is the
/// highest. A column without nulls has no definition levels, and one without lists no repetition
/// levels.
pub open spec fn has_levels<C, D, A>(
    state: RecordState<C, D>,
    rows: Seq<Option<A>>,
    defs: Seq<i16>,
    reps: Seq<i16>,
) -> bool {
    &&& if state.column.max_def_level > 0 {
        &&& state.def_levels == Some(defs)
        &&& defs.len() == rows.len()
        &&& forall|i: int|
            0 <= i < rows.len() ==> (#[trigger] rows[i] is Some <==> defs[i]
                == state.column.max_def_level)
    } else {
        &&& state.def_levels is None
        &&& defs.len() == 0
        &&& forall|i: int| 0 <= i < rows.len() ==> (#[trigger] rows[i]) is Some
    }
    &&& if state.column.max_rep_level > 0 {
        &&& state.rep_levels == Some(reps)
        &&& reps.len() == rows.len()
    } else {
        &&& state.rep_levels is None
        &&& reps.len() == 0
    }
}

/// The definition levels with those of more rows behind them, where the column has any.
pub open spec fn more_defs(column: ColumnDescriptor, defs: Seq<i16>, levels: Levels) -> Seq<i16> {
    if column.max_def_level > 0 {
        defs + levels.def_levels@
    } else {
        defs
    }
}

/// The repetition levels with those of more rows behind them, where the column has any.
pub open spec fn more_reps(column: ColumnDescriptor, reps: Seq<i16>, levels: Levels) -> Seq<i16> {
    if column.max_rep_level > 0 {
        reps + levels.rep_levels@
    } else {
        reps
    }
}

proof fn lemma_has_levels<C, D, A>(
    before: RecordState<C, D>,
    rows: Seq<Option<A>>,
    defs: Seq<i16>,
    reps: Seq<i16>,
    levels: Levels,
    values: Seq<A>,
    after: RecordState<C, D>,
)
    requires
        has_levels(before, rows, defs, reps),
        is_leveled(before.column, levels),
        after.column == before.column,
        after.def_levels == extended(
            before.def_levels,
            levels.def_levels@,
        ),
        after.rep_levels == extended(
            before.rep_levels,
            levels.rep_levels@,
        ),
    ensures
        has_levels(
            after,
            rows + told_rows(before.column, levels, values),
            more_defs(before.column, defs, levels),
            more_reps(before.column, reps, levels),
        ),
{
    let told = told_rows(before.column, levels, values);
    let all = rows + told;
    let n = rows.len() as int;
    assert forall|i: int| 0 <= i < all.len() implies (#[trigger] all[i] is Some <==> if i < n {
        rows[i] is Some
    } else {
        row_has_value(before.column, levels, i - n)
    }) by {
        if i >= n {
            assert(all[i] == told[i - n]);
        }
    }
}

/// A dictionary reader holds rows and their levels.
pub open spec fn holds_leveled_rows<T, F>(
    state: DictionaryState<T, F>,
    rows: Seq<Option<T::T>>,
    defs: Seq<i16>,
    reps: Seq<i16>,
) -> bool where T: DataType, F: ColumnValueDecoder<Buffer = Vec<T::T>> {
    &&& holds_rows(state, rows)
    &&& has_levels(state, rows, defs, reps)
}

/// A dictionary reader that has just been made holds no rows.
pub proof fn law_new_dictionary_reader<T, F>(
    state: DictionaryState<T, F>,
    column: ColumnDescriptor,
) where T: DataType, F: ColumnValueDecoder<Buffer = Vec<T::T>>
    requires
        starts_empty(state, column),
        state.content == DictionaryContent::Values(Seq::<T::T>::empty()),
    ensures
        state.column == column,
        state.decoder is None,
        state.num_records == 0,
        holds_leveled_rows(state, Seq::empty(), Seq::empty(), Seq::empty()),
{
    assert(row_validity(state) =~= valid_of(Seq::<Option<T::T>>::empty()));
}

/// Reading rows appends the rows that their levels tell of, with the values that come next, and
/// their levels, behind what was read before. As many values are taken as there are rows that hold
/// one. The number of records that start among the rows is given.
pub proof fn law_rows_are_read<T: DataType>(
    before: DictionaryState<T, ColumnValueDecoderImpl<T>>,
    rows: Seq<Option<T::T>>,
    defs: Seq<i16>,
    reps: Seq<i16>,
    levels: Levels,
    values: Seq<T::T>,
    after: DictionaryState<T, ColumnValueDecoderImpl<T>>,
    r: Result<usize, ParquetError>,
)
    requires
        holds_leveled_rows(before, rows, defs, reps),
        before.decoder matches Some(decoder) && comes_next(decoder, values),
        num_values(before.column, levels) <= values.len(),
        DictionaryRecords::<T, ColumnValueDecoderImpl<T>>::can_read_rows(before, levels),
        DictionaryRecords::<T, ColumnValueDecoderImpl<T>>::reads_rows(before, levels, after, r),
    ensures
        r == Ok::<usize, ParquetError>(num_records(before.column, levels) as usize),
        after.column == before.column,
        after.num_records == before.num_records + num_records(before.column, levels),
        holds_leveled_rows(
            after,
            rows + told_rows(before.column, levels, values),
            more_defs(before.column, defs, levels),
            more_reps(before.column, reps, levels),
        ),
        after.decoder matches Some(decoder) && {
            &&& comes_next(decoder, values.skip(num_values(before.column, levels) as int))
            &&& decoder.values() == before.decoder->0.values()
        },
{
    law_levels_are_counted(before.column, levels);
    let validity = levels.validity(before.column);
    let want = set_count(validity) as usize;
    let decoder = before.decoder->0;
    let kept: DictionaryContent<T::T> = before.content;
    let (next, content, got) = choose|
        next: PrimitiveDictionaryDecoder<T, ColumnValueDecoderImpl<T>>,
        content: DictionaryContent<T::T>,
        got: Result<usize, ParquetError>,
    |
        {
            &&& #[trigger] PrimitiveDictionaryDecoder::<T, ColumnValueDecoderImpl<T>>::reads(
                decoder,
                before.content,
                want,
                next,
                content,
                got,
            )
            &&& match got {
                Ok(read) => read == want ==> {
                    &&& after == DictionaryRecords::<T, ColumnValueDecoderImpl<T>>::with_rows(
                        before,
                        levels,
                        next,
                        content,
                    )
                    &&& r == Ok::<usize, ParquetError>(
                        set_count(levels.starts(before.column)) as usize,
                    )
                },
                Err(_) => true,
            }
        };
    law_next_values_are_read(decoder, values, kept, want, next, content, got);
    let taken = values.take(want as int);
    lemma_rows_follow(before, levels, next, content, taken);
    lemma_told_rows(before.column, levels, values);
    let told = told_rows(before.column, levels, values);
    let all = rows + told;
    let n = rows.len() as int;
    let made: DictionaryContent<T::T> = after.content;
    assert(rows_follow::<T, _>(before, levels, taken, after));
    assert forall|i: int| 0 <= i < all.len() && all[i] is Some implies #[trigger] all[i] == Some(
        made.rows()[i],
    ) by {
        if i < n {
            assert(rows[i] == Some(kept.rows()[i]));
            assert(made.rows().take(n)[i] == kept.rows()[i]);
        } else {
            assert(all[i] == told[i - n]);
            assert(validity[i - n]);
            lemma_counts(before.column, levels, i - n);
            assert(made.rows()[n + (i - n)] == taken[rank(validity, i - n) as int]);
            lemma_rank_bounds(validity, i - n + 1, levels.count as int);
        }
    }
    assert(made.len() == made.rows().len());
    lemma_has_levels(before, rows, defs, reps, levels, values, after);
    assert forall|i: int| 0 <= i < all.len() implies row_validity(after)[i] == (all[i] is Some) by {
        if i < n {
            assert(row_validity(before)[i] == valid_of(rows)[i]);
        } else {
            assert(all[i] == told[i - n]);
            assert(validity[i - n] == row_has_value(before.column, levels, i - n));
        }
    }
    assert(row_validity(after) =~= valid_of(all));
}

/// Rows can be read where a dictionary reader holds rows whose keys point to values, and there is
/// room for more.
pub proof fn law_rows_are_ready<T: DataType>(
    state: DictionaryState<T, ColumnValueDecoderImpl<T>>,
    rows: Seq<Option<T::T>>,
    levels: Levels,
    values: Seq<T::T>,
)
    requires
        holds_rows(state, rows),
        keys_find_values(state.content),
        state.decoder matches Some(decoder) && comes_next(decoder, values),
        is_leveled(state.column, levels),
        rows.len() + levels.count <= usize::MAX,
    ensures
        DictionaryRecords::<T, ColumnValueDecoderImpl<T>>::can_read_rows(state, levels),
        DictionaryRecords::<T, ColumnValueDecoderImpl<T>>::can_skip_rows(state, levels),
{
    law_levels_are_counted(state.column, levels);
    let want = num_values(state.column, levels) as usize;
    let content: DictionaryContent<T::T> = state.content;
    law_next_values_are_ready(state.decoder->0, values, content, want);
}

/// Where fewer values come next than there are rows that hold one, reading the rows is an error and
/// no row is appended.
pub proof fn law_missing_values<T: DataType>(
    before: DictionaryState<T, ColumnValueDecoderImpl<T>>,
    levels: Levels,
    values: Seq<T::T>,
    after: DictionaryState<T, ColumnValueDecoderImpl<T>>,
    r: Result<usize, ParquetError>,
)
    requires
        before.decoder matches Some(decoder) && comes_next(decoder, values),
        values.len() < num_values(before.column, levels),
        DictionaryRecords::<T, ColumnValueDecoderImpl<T>>::reads_rows(before, levels, after, r),
    ensures
        r == Err::<usize, ParquetError>(
            ParquetError::General(
                Reason::InsufficientValues {
                    expected: num_values(before.column, levels) as usize,
                    read: values.len() as usize,
                },
            ),
        ),
        after.num_values == before.num_values,
        after.num_records == before.num_records,
        after.def_levels == before.def_levels,
        after.rep_levels == before.rep_levels,
        after.valid == before.valid,
{
    law_levels_are_counted(before.column, levels);
    let want = set_count(levels.validity(before.column)) as usize;
    let decoder = before.decoder->0;
    let (next, content, got) = choose|
        next: PrimitiveDictionaryDecoder<T, ColumnValueDecoderImpl<T>>,
        content: DictionaryContent<T::T>,
        got: Result<usize, ParquetError>,
    |
        {
            &&& #[trigger] PrimitiveDictionaryDecoder::<T, ColumnValueDecoderImpl<T>>::reads(
                decoder,
                before.content,
                want,
                next,
                content,
                got,
            )
            &&& got matches Ok(read) ==> read != want ==> {
                &&& after == RecordState { decoder: Some(next), content, ..before }
                &&& r == Err::<usize, ParquetError>(
                    ParquetError::General(Reason::InsufficientValues { expected: want, read }),
                )
            }
        };
    law_next_values_are_read(decoder, values, before.content, want, next, content, got);
}

/// Skipping rows passes over as many values as there are rows that hold one and gives the number of
/// records that start among the rows. The rows and the levels that are held stay. Where fewer
/// values come next it is an error.
pub proof fn law_rows_are_skipped<T: DataType>(
    before: DictionaryState<T, ColumnValueDecoderImpl<T>>,
    levels: Levels,
    values: Seq<T::T>,
    after: DictionaryState<T, ColumnValueDecoderImpl<T>>,
    r: Result<usize, ParquetError>,
)
    requires
        before.decoder matches Some(decoder) && comes_next(decoder, values),
        DictionaryRecords::<T, ColumnValueDecoderImpl<T>>::skips_rows(before, levels, after, r),
    ensures
        after == (RecordState { decoder: after.decoder, ..before }),
        after.decoder matches Some(decoder) && {
            &&& comes_next(
                decoder,
                values.skip(fewer(num_values(before.column, levels), values.len()) as int),
            )
            &&& decoder.values() == before.decoder->0.values()
        },
        r == if num_values(before.column, levels) <= values.len() {
            Ok::<usize, ParquetError>(num_records(before.column, levels) as usize)
        } else {
            Err(
                ParquetError::General(
                    Reason::InsufficientSkip {
                        expected: num_values(before.column, levels) as usize,
                        skipped: values.len() as usize,
                    },
                ),
            )
        },
{
    law_levels_are_counted(before.column, levels);
    let want = set_count(levels.validity(before.column)) as usize;
    let decoder = before.decoder->0;
    let (next, got) = choose|
        next: PrimitiveDictionaryDecoder<T, ColumnValueDecoderImpl<T>>,
        got: Result<usize, ParquetError>,
    |
        {
            &&& #[trigger] PrimitiveDictionaryDecoder::<T, ColumnValueDecoderImpl<T>>::skips(
                decoder,
                want,
                next,
                got,
            )
            &&& after == RecordState { decoder: Some(next), ..before }
            &&& r == match got {
                Ok(skipped) => if skipped == want {
                    Ok::<usize, ParquetError>(set_count(levels.starts(before.column)) as usize)
                } else {
                    Err(
                        ParquetError::General(
                            Reason::InsufficientSkip { expected: want, skipped },
                        ),
                    )
                },
                Err(e) => Err(e),
            }
        };
    law_next_values_are_skipped(decoder, values, want, next, got);
}

/// A batch of 64-bit integers holds the rows that were read, one after the other, and is given out
/// with their levels: a row is null where its definition level is not the highest.
pub proof fn law_int64_batch_goes_with_its_levels<F>(
    before: PrimitiveDictionaryReader<Int64Type, F>,
    rows: Seq<Option<i64>>,
    defs: Seq<i16>,
    reps: Seq<i16>,
    after: PrimitiveDictionaryReader<Int64Type, F>,
    batch: ArrowArray,
) where F: ColumnValueDecoder<Buffer = Vec<<Int64Type as DataType>::T>>
    requires
        holds_leveled_rows(before.records(), rows, defs, reps),
        before.records().column.is_optional || before.records().column.max_def_level <= 0,
        PrimitiveDictionaryReader::<Int64Type, F>::gives_batch(
            before.arrays_type(),
            before.records(),
            after.records(),
            Ok(batch),
        ),
        PrimitiveDictionaryReader::<Int64Type, F>::gives_levels(before, after),
    ensures
        ({
            let column = before.records().column;
            &&& array_len(batch) == rows.len()
            &&& forall|i: int|
                0 <= i < rows.len() ==> #[trigger] row_of(batch, i) == match rows[i] {
                    Some(value) => Some(value as int),
                    None => None,
                }
            &&& column.max_def_level > 0 ==> {
                &&& after.def_levels() == Some(defs)
                &&& defs.len() == rows.len()
                &&& forall|i: int|
                    0 <= i < rows.len() ==> (#[trigger] row_of(batch, i) is Some <==> defs[i]
                        == column.max_def_level)
            }
            &&& column.max_def_level <= 0 ==> after.def_levels() is None
            &&& column.max_rep_level > 0 ==> after.rep_levels() == Some(reps) && reps.len()
                == rows.len()
            &&& column.max_rep_level <= 0 ==> after.rep_levels() is None
            &&& rows.len() > 0 ==> after.records().num_records == 0
            &&& after.records().decoder == before.records().decoder
            &&& holds_leveled_rows(after.records(), Seq::empty(), Seq::empty(), Seq::empty())
        }),
{
    law_int64_batch_holds_rows(
        before.arrays_type(),
        before.records(),
        rows,
        after.records(),
        batch,
    );
    law_batch_holds_rows(
        before.arrays_type(),
        before.records(),
        rows,
        after.records(),
        batch,
    );
    assert forall|i: int| 0 <= i < rows.len() implies #[trigger] row_of(batch, i) == match rows[i] {
        Some(value) => Some(value as int),
        None => None,
    } by {
        assert(rows[i] is Some || rows[i] is None);
    }
}

/// A batch of 32-bit integers holds the rows that were read, one after the other, and is given out
/// with their levels: a row is null where its definition level is not the highest.
pub proof fn law_int32_batch_goes_with_its_levels<F>(
    before: PrimitiveDictionaryReader<Int32Type, F>,
    rows: Seq<Option<i32>>,
    defs: Seq<i16>,
    reps: Seq<i16>,
    after: PrimitiveDictionaryReader<Int32Type, F>,
    batch: ArrowArray,
) where F: ColumnValueDecoder<Buffer = Vec<<Int32Type as DataType>::T>>
    requires
        holds_leveled_rows(before.records(), rows, defs, reps),
        before.records().column.is_optional || before.records().column.max_def_level <= 0,
        PrimitiveDictionaryReader::<Int32Type, F>::gives_batch(
            before.arrays_type(),
            before.records(),
            after.records(),
            Ok(batch),
        ),
        PrimitiveDictionaryReader::<Int32Type, F>::gives_levels(before, after),
    ensures
        ({
            let column = before.records().column;
            &&& array_len(batch) == rows.len()
            &&& forall|i: int|
                0 <= i < rows.len() ==> #[trigger] row_of(batch, i) == match rows[i] {
                    Some(value) => Some(value as int),
                    None => None,
                }
            &&& column.max_def_level > 0 ==> {
                &&& after.def_levels() == Some(defs)
                &&& defs.len() == rows.len()
                &&& forall|i: int|
                    0 <= i < rows.len() ==> (#[trigger] row_of(batch, i) is Some <==> defs[i]
                        == column.max_def_level)
            }
            &&& column.max_def_level <= 0 ==> after.def_levels() is None
            &&& column.max_rep_level > 0 ==> after.rep_levels() == Some(reps) && reps.len()
                == rows.len()
            &&& column.max_rep_level <= 0 ==> after.rep_levels() is None
            &&& rows.len() > 0 ==> after.records().num_records == 0
            &&& after.records().decoder == before.records().decoder
            &&& holds_leveled_rows(after.records(), Seq::empty(), Seq::empty(), Seq::empty())
        }),
{
    law_int32_batch_holds_rows(
        before.arrays_type(),
        before.records(),
        rows,
        after.records(),
        batch,
    );
    law_batch_holds_rows(
        before.arrays_type(),
        before.records(),
        rows,
        after.records(),
        batch,
    );
    assert forall|i: int| 0 <= i < rows.len() implies #[trigger] row_of(batch, i) == match rows[i] {
        Some(value) => Some(value as int),
        None => None,
    } by {
        assert(rows[i] is Some || rows[i] is None);
    }
}

/// A reader of answers holds rows and their levels.
pub open spec fn answers_leveled_rows<T, P, F>(
    state: PredicateState<T, P, F>,
    rows: Seq<Option<T::T>>,
    defs: Seq<i16>,
    reps: Seq<i16>,
    holds: spec_fn(T::T) -> Option<bool>,
) -> bool where
    T: DataType,
    P: PrimitiveDictionaryPredicate,
    F: ColumnValueDecoder<Buffer = Vec<T::T>>,
 {
    &&& answers_rows(state, rows, holds)
    &&& has_levels(state, rows, defs, reps)
}

/// A reader of answers that has just been made holds no rows.
pub proof fn law_new_predicate_reader<T, P, F>(
    state: PredicateState<T, P, F>,
    column: ColumnDescriptor,
    holds: spec_fn(T::T) -> Option<bool>,
) where
    T: DataType,
    P: PrimitiveDictionaryPredicate,
    F: ColumnValueDecoder<Buffer = Vec<T::T>>,

    requires
        starts_empty(state, column),
        state.content.len() == 0,
    ensures
        state.column == column,
        state.decoder is None,
        state.num_records == 0,
        answers_leveled_rows(state, Seq::empty(), Seq::empty(), Seq::empty(), holds),
{
    let none = Seq::<Option<T::T>>::empty();
    assert(row_validity(state) =~= valid_of(none));
    assert(state.content =~= answers_to(values_of(none), holds));
}

/// Reading rows appends the rows that their levels tell of, with the predicate's answers for the
/// values that come next, and their levels, behind what was read before. As many values are taken
/// as there are rows that hold one. The number of records that start among the rows is given.
pub proof fn law_answered_rows_are_read<T, P>(
    before: PredicateState<T, P, ColumnValueDecoderImpl<T>>,
    rows: Seq<Option<T::T>>,
    defs: Seq<i16>,
    reps: Seq<i16>,
    levels: Levels,
    values: Seq<T::T>,
    after: PredicateState<T, P, ColumnValueDecoderImpl<T>>,
    r: Result<usize, ParquetError>,
    holds: spec_fn(T::T) -> Option<bool>,
) where T: DataType, P: PrimitiveDictionaryPredicate
    requires
        answers_leveled_rows(before, rows, defs, reps, holds),
        before.decoder matches Some(decoder) && is_answered_next(decoder, values, holds),
        is_leveled(before.column, levels),
        num_values(before.column, levels) <= values.len(),
        PredicateRecords::<T, P, ColumnValueDecoderImpl<T>>::reads_rows(before, levels, after, r),
    ensures
        r == Ok::<usize, ParquetError>(num_records(before.column, levels) as usize),
        after.column == before.column,
        after.num_records == before.num_records + num_records(before.column, levels),
        answers_leveled_rows(
            after,
            rows + told_rows(before.column, levels, values),
            more_defs(before.column, defs, levels),
            more_reps(before.column, reps, levels),
            holds,
        ),
        after.decoder matches Some(decoder) && {
            &&& is_answered_next(
                decoder,
                values.skip(num_values(before.column, levels) as int),
                holds,
            )
            &&& decoder.mask() == before.decoder->0.mask()
            &&& decoder.same_setup(before.decoder->0)
        },
{
    law_levels_are_counted(before.column, levels);
    let validity = levels.validity(before.column);
    let want = set_count(validity) as usize;
    let decoder = before.decoder->0;
    let (next, content, got) = choose|
        next: PrimitivePredicateDecoder<T, P, ColumnValueDecoderImpl<T>>,
        content: Seq<u8>,
        got: Result<usize, ParquetError>,
    |
        {
            &&& #[trigger] PrimitivePredicateDecoder::<T, P, ColumnValueDecoderImpl<T>>::reads(
                decoder,
                before.content,
                want,
                next,
                content,
                got,
            )
            &&& match got {
                Ok(read) => read == want ==> {
                    &&& after == PredicateRecords::<T, P, ColumnValueDecoderImpl<T>>::with_rows(
                        before,
                        levels,
                        next,
                        content,
                    )
                    &&& r == Ok::<usize, ParquetError>(
                        set_count(levels.starts(before.column)) as usize,
                    )
                },
                Err(_) => true,
            }
        };
    law_next_answers_are_read(decoder, values, before.content, want, next, content, got, holds);
    let taken = values.take(want as int);
    let more = rows_of(validity, taken);
    lemma_told_rows(before.column, levels, values);
    lemma_rows_of(validity, taken);
    lemma_values_joined(rows, more);
    assert(row_validity(after) =~= row_validity(before) + validity);
    assert(answer_bytes(taken, holds) =~= answers_to(taken, holds));
    assert(after.content =~= answers_to(values_of(rows + more), holds));
    lemma_has_levels(before, rows, defs, reps, levels, values, after);
}

/// Rows can be read and skipped where values come next and there is room for more rows.
pub proof fn law_answered_rows_are_ready<T, P>(
    state: PredicateState<T, P, ColumnValueDecoderImpl<T>>,
    rows: Seq<Option<T::T>>,
    levels: Levels,
    values: Seq<T::T>,
    holds: spec_fn(T::T) -> Option<bool>,
) where T: DataType, P: PrimitiveDictionaryPredicate
    requires
        answers_rows(state, rows, holds),
        state.decoder matches Some(decoder) && is_answered_next(decoder, values, holds),
        is_leveled(state.column, levels),
        rows.len() + levels.count <= usize::MAX,
    ensures
        PredicateRecords::<T, P, ColumnValueDecoderImpl<T>>::can_read_rows(state, levels),
        PredicateRecords::<T, P, ColumnValueDecoderImpl<T>>::can_skip_rows(state, levels),
{
    law_levels_are_counted(state.column, levels);
    lemma_values_of(rows);
    lemma_rank_bounds(valid_of(rows), 0, rows.len() as int);
    let want = num_values(state.column, levels) as usize;
    law_next_answers_are_ready(state.decoder->0, values, state.content, want, holds);
}

/// Skipping rows passes over as many values as there are rows that hold one and gives the number of
/// records that start among the rows. The rows and the levels that are held stay. Where fewer
/// values come next it is an error.
pub proof fn law_answered_rows_are_skipped<T, P>(
    before: PredicateState<T, P, ColumnValueDecoderImpl<T>>,
    levels: Levels,
    values: Seq<T::T>,
    after: PredicateState<T, P, ColumnValueDecoderImpl<T>>,
    r: Result<usize, ParquetError>,
    holds: spec_fn(T::T) -> Option<bool>,
) where T: DataType, P: PrimitiveDictionaryPredicate
    requires
        before.decoder matches Some(decoder) && is_answered_next(decoder, values, holds),
        PredicateRecords::<T, P, ColumnValueDecoderImpl<T>>::skips_rows(before, levels, after, r),
    ensures
        after == (RecordState { decoder: after.decoder, ..before }),
        after.decoder matches Some(decoder) && {
            &&& is_answered_next(
                decoder,
                values.skip(fewer(num_values(before.column, levels), values.len()) as int),
                holds,
            )
            &&& decoder.mask() == before.decoder->0.mask()
            &&& decoder.same_setup(before.decoder->0)
        },
        r == if num_values(before.column, levels) <= values.len() {
            Ok::<usize, ParquetError>(num_records(before.column, levels) as usize)
        } else {
            Err(
                ParquetError::General(
                    Reason::InsufficientSkip {
                        expected: num_values(before.column, levels) as usize,
                        skipped: values.len() as usize,
                    },
                ),
            )
        },
{
    law_levels_are_counted(before.column, levels);
    let want = set_count(levels.validity(before.column)) as usize;
    let decoder = before.decoder->0;
    let (next, got) = choose|
        next: PrimitivePredicateDecoder<T, P, ColumnValueDecoderImpl<T>>,
        got: Result<usize, ParquetError>,
    |
        {
            &&& #[trigger] PrimitivePredicateDecoder::<T, P, ColumnValueDecoderImpl<T>>::skips(
                decoder,
                want,
                next,
                got,
            )
            &&& after == RecordState { decoder: Some(next), ..before }
            &&& r == match got {
                Ok(skipped) => if skipped == want {
                    Ok::<usize, ParquetError>(set_count(levels.starts(before.column)) as usize)
                } else {
                    Err(
                        ParquetError::General(
                            Reason::InsufficientSkip { expected: want, skipped },
                        ),
                    )
                },
                Err(e) => Err(e),
            }
        };
    law_next_answers_are_skipped(decoder, values, want, next, got, holds);
}

/// Where fewer values come next than there are rows that hold one, reading the rows is an error and
/// no row is appended.
pub proof fn law_missing_answers<T, P>(
    before: PredicateState<T, P, ColumnValueDecoderImpl<T>>,
    levels: Levels,
    values: Seq<T::T>,
    after: PredicateState<T, P, ColumnValueDecoderImpl<T>>,
    r: Result<usize, ParquetError>,
    holds: spec_fn(T::T) -> Option<bool>,
) where T: DataType, P: PrimitiveDictionaryPredicate
    requires
        before.decoder matches Some(decoder) && is_answered_next(decoder, values, holds),
        values.len() < num_values(before.column, levels),
        PredicateRecords::<T, P, ColumnValueDecoderImpl<T>>::reads_rows(before, levels, after, r),
    ensures
        r == Err::<usize, ParquetError>(
            ParquetError::General(
                Reason::InsufficientValues {
                    expected: num_values(before.column, levels) as usize,
                    read: values.len() as usize,
                },
            ),
        ),
        after.num_values == before.num_values,
        after.num_records == before.num_records,
        after.def_levels == before.def_levels,
        after.rep_levels == before.rep_levels,
        after.valid == before.valid,
{
    law_levels_are_counted(before.column, levels);
    let want = set_count(levels.validity(before.column)) as usize;
    let decoder = before.decoder->0;
    let (next, content, got) = choose|
        next: PrimitivePredicateDecoder<T, P, ColumnValueDecoderImpl<T>>,
        content: Seq<u8>,
        got: Result<usize, ParquetError>,
    |
        {
            &&& #[trigger] PrimitivePredicateDecoder::<T, P, ColumnValueDecoderImpl<T>>::reads(
                decoder,
                before.content,
                want,
                next,
                content,
                got,
            )
            &&& got matches Ok(read) ==> read != want ==> {
                &&& after == RecordState { decoder: Some(next), content, ..before }
                &&& r == Err::<usize, ParquetError>(
                    ParquetError::General(Reason::InsufficientValues { expected: want, read }),
                )
            }
        };
    law_next_answers_are_read(decoder, values, before.content, want, next, content, got, holds);
}

/// A batch of answers says of each row whether it holds a value for which the predicate holds, and
/// is given out with the levels of the rows: a row whose definition level is not the highest is
/// `false`. There is such a batch for every column whose rows can tell that they hold no value.
pub proof fn law_answers_go_with_their_levels<T, P, F>(
    before: PrimitivePredicateReader<T, P, F>,
    rows: Seq<Option<T::T>>,
    defs: Seq<i16>,
    reps: Seq<i16>,
    after: PrimitivePredicateReader<T, P, F>,
    r: Result<BooleanArray, ParquetError>,
    holds: spec_fn(T::T) -> Option<bool>,
) where
    T: DataType,
    P: PrimitiveDictionaryPredicate,
    F: ColumnValueDecoder<Buffer = Vec<T::T>>,

    requires
        answers_leveled_rows(before.records(), rows, defs, reps, holds),
        before.records().column.is_optional || before.records().column.max_def_level <= 0,
        PrimitivePredicateReader::<T, P, F>::gives_batch(before.records(), after.records(), r),
        PrimitivePredicateReader::<T, P, F>::gives_levels(before, after),
    ensures
        r is Ok,
        ({
            let column = before.records().column;
            let slots = boolean_array_values(r->Ok_0);
            &&& validity_covers(before.records())
            &&& slots.len() == rows.len()
            &&& forall|i: int|
                0 <= i < rows.len() ==> #[trigger] slots[i] == Some(
                    rows[i] matches Some(value) && holds(value) == Some(true),
                )
            &&& column.max_def_level > 0 ==> {
                &&& after.def_levels() == Some(defs)
                &&& defs.len() == rows.len()
                &&& forall|i: int|
                    0 <= i < rows.len() && defs[i] != column.max_def_level
                        ==> #[trigger] slots[i] == Some(false)
            }
            &&& column.max_def_level <= 0 ==> after.def_levels() is None
            &&& column.max_rep_level > 0 ==> after.rep_levels() == Some(reps) && reps.len()
                == rows.len()
            &&& column.max_rep_level <= 0 ==> after.rep_levels() is None
            &&& after.records().num_records == 0
            &&& after.records().decoder == before.records().decoder
            &&& answers_leveled_rows(
                after.records(),
                Seq::empty(),
                Seq::empty(),
                Seq::empty(),
                holds,
            )
        }),
{
    law_batch_answers_rows(before.records(), rows, after.records(), r, holds);
    let slots = boolean_array_values(r->Ok_0);
    assert forall|i: int|
        0 <= i < rows.len() && before.records().column.max_def_level > 0 && defs[i]
            != before.records().column.max_def_level implies #[trigger] slots[i] == Some(false) by {
        assert(rows[i] is None);
    }
}

/// Rows `from` to `to` of a page.
pub open spec fn is_stretch(
    column: ColumnDescriptor,
    page: Levels,
    from: int,
    to: int,
    run: Levels,
) -> bool {
    &&& 0 <= from <= to <= page.count
    &&& run.count == to - from
    &&& is_leveled(column, run)
    &&& column.max_def_level > 0 ==> run.def_levels@ == page.def_levels@.subrange(from, to)
    &&& column.max_rep_level > 0 ==> run.rep_levels@ == page.rep_levels@.subrange(from, to)
}

proof fn lemma_stretch(
    column: ColumnDescriptor,
    page: Levels,
    from: int,
    to: int,
    run: Levels,
    n: int,
)
    requires
        is_leveled(column, page),
        is_stretch(column, page, from, to, run),
        0 <= n <= run.count,
    ensures
        records_before(column, run, n) == records_before(column, page, from + n)
            - records_before(column, page, from),
        values_before(column, run, n) == values_before(column, page, from + n) - values_before(
            column,
            page,
            from,
        ),
    decreases n,
{
    if n > 0 {
        lemma_stretch(column, page, from, to, run, n - 1);
        assert(row_starts_record(column, run, n - 1) == row_starts_record(
            column,
            page,
            from + n - 1,
        ));
        assert(row_has_value(column, run, n - 1) == row_has_value(column, page, from + n - 1));
    }
}

/// A run is the stretch of rows from the cursor on in which as many records start as were wanted,
/// and it does not break off inside a record: it goes on to the row that starts the next, or to the
/// end of the page.
pub proof fn law_run_is_whole_records(
    before: RowCursor,
    column: ColumnDescriptor,
    max_records: usize,
    after: RowCursor,
    run: Levels,
)
    requires
        is_leveled(column, before.levels),
        before.next <= before.levels.count,
        RowCursor::takes_run(before, column, max_records, after, run),
    ensures
        after.levels == before.levels,
        is_stretch(column, before.levels, before.next as int, after.next as int, run),
        num_records(column, run) <= max_records,
        after.next < before.levels.count ==> num_records(column, run) == max_records
            && row_starts_record(column, before.levels, after.next as int),
{
    let (from, to) = (before.next as int, after.next as int);
    let starts = before.levels.starts(column);
    lemma_counts(column, before.levels, from);
    lemma_counts(column, before.levels, to);
    lemma_stretch(column, before.levels, from, to, run, to - from);
    if to < before.levels.count {
        assert(starts[to]);
    }
}

/// Where rows are left in the page and records are wanted, or rows that go on with the last record,
/// these rows are next; none are skipped or taken twice.
pub proof fn law_step_takes_rows(
    before: RowCursor,
    column: ColumnDescriptor,
    records_left: usize,
    after: RowCursor,
    r: Step,
)
    requires
        is_leveled(column, before.levels),
        before.next <= before.levels.count,
        RowCursor::steps(before, column, records_left, after, r),
    ensures
        after.levels == before.levels,
        before.next < before.levels.count ==> {
            let at = before.next as int;
            if records_left == 0 && row_starts_record(column, before.levels, at) {
                r is Done && after.next == before.next
            } else {
                &&& r matches Step::Rows(run)
                &&& run.count > 0
                &&& is_stretch(column, before.levels, at, after.next as int, run)
                &&& num_records(column, run) <= records_left
                &&& after.next < before.levels.count ==> num_records(column, run) == records_left
                    && row_starts_record(column, before.levels, after.next as int)
            }
        },
        before.next == before.levels.count ==> {
            &&& after.next == before.next
            &&& r is Done <==> records_left == 0 && column.max_rep_level <= 0
            &&& r is Fetch <==> !(records_left == 0 && column.max_rep_level <= 0)
        },
{
    if before.next < before.levels.count {
        let (from, to) = (before.next as int, after.next as int);
        let starts = before.levels.starts(column);
        lemma_counts(column, before.levels, from);
        lemma_counts(column, before.levels, to);
        lemma_counts(column, before.levels, from + 1);
        assert(starts[from] == row_starts_record(column, before.levels, from));
        if to < before.levels.count {
            assert(starts[to] == row_starts_record(column, before.levels, to));
        }
        if from < to {
            lemma_rank_bounds(starts, from + 1, to);
        }
        if let Step::Rows(run) = r {
            lemma_stretch(column, before.levels, from, to, run, to - from);
        }
    }
}

/// Stretches that follow each other are one: the values that they hold and the records that start
/// in them add up, and their levels stand one after the other.
pub proof fn law_stretches_join(
    column: ColumnDescriptor,
    page: Levels,
    from: int,
    middle: int,
    to: int,
    first: Levels,
    second: Levels,
    whole: Levels,
)
    requires
        is_leveled(column, page),
        is_stretch(column, page, from, middle, first),
        is_stretch(column, page, middle, to, second),
        is_stretch(column, page, from, to, whole),
    ensures
        num_values(column, whole) == num_values(column, first) + num_values(column, second),
        num_records(column, whole) == num_records(column, first) + num_records(column, second),
        column.max_def_level > 0 ==> whole.def_levels@ == first.def_levels@ + second.def_levels@,
        column.max_rep_level > 0 ==> whole.rep_levels@ == first.rep_levels@ + second.rep_levels@,
{
    lemma_stretch(column, page, from, middle, first, middle - from);
    lemma_stretch(column, page, middle, to, second, to - middle);
    lemma_stretch(column, page, from, to, whole, to - from);
    if column.max_def_level > 0 {
        assert(whole.def_levels@ =~= first.def_levels@ + second.def_levels@);
    }
    if column.max_rep_level > 0 {
        assert(whole.rep_levels@ =~= first.rep_levels@ + second.rep_levels@);
    }
}

/// Rows that are read in two stretches are the rows that are read in one: the second goes on with
/// the values that the first leaves.
pub proof fn law_told_rows_join<A>(
    column: ColumnDescriptor,
    page: Levels,
    from: int,
    middle: int,
    to: int,
    first: Levels,
    second: Levels,
    whole: Levels,
    values: Seq<A>,
)
    requires
        is_leveled(column, page),
        is_stretch(column, page, from, middle, first),
        is_stretch(column, page, middle, to, second),
        is_stretch(column, page, from, to, whole),
        num_values(column, whole) <= values.len(),
    ensures
        told_rows(column, whole, values) == told_rows(column, first, values) + told_rows(
            column,
            second,
            values.skip(num_values(column, first) as int),
        ),
{
    let rest = values.skip(num_values(column, first) as int);
    let parts = told_rows(column, first, values) + told_rows(column, second, rest);
    let n = first.count as int;
    lemma_stretch(column, page, from, middle, first, n);
    law_levels_are_counted(column, whole);
    assert forall|i: int| 0 <= i < whole.count implies #[trigger] told_rows(
        column,
        whole,
        values,
    )[i] == parts[i] by {
        lemma_stretch(column, page, from, to, whole, i);
        lemma_counts(column, whole, i);
        lemma_rank_bounds(whole.validity(column), i + 1, whole.count as int);
        assert(whole.validity(column)[i] == row_has_value(column, whole, i));
        if i < n {
            lemma_stretch(column, page, from, middle, first, i);
            assert(row_has_value(column, whole, i) == row_has_value(column, first, i));
        } else {
            lemma_stretch(column, page, middle, to, second, i - n);
            assert(row_has_value(column, whole, i) == row_has_value(column, second, i - n));
        }
    }
    assert(told_rows(column, whole, values) =~= parts);
}

/// Another column chunk leaves the rows that are held and their levels, and starts without a
/// dictionary and without a page.
pub proof fn law_new_chunk<T, F>(
    before: PrimitiveDictionaryReader<T, F>,
    rows: Seq<Option<T::T>>,
    defs: Seq<i16>,
    reps: Seq<i16>,
    after: PrimitiveDictionaryReader<T, F>,
) where T: DataType, F: ColumnValueDecoder<Buffer = Vec<T::T>>
    requires
        holds_leveled_rows(before.records(), rows, defs, reps),
        PrimitiveDictionaryReader::<T, F>::starts_chunk(before, after),
    ensures
        holds_leveled_rows(after.records(), rows, defs, reps),
        after.arrays_type() == before.arrays_type(),
        after.def_levels() == before.def_levels(),
        after.rep_levels() == before.rep_levels(),
        after.records().decoder matches Some(decoder) && decoder.values() is None
            && decoder.page() is None,
{
    assert(row_validity(after.records()) =~= row_validity(before.records()));
}

/// Another column chunk leaves the rows that are held and their levels, and starts without answers
/// and without a page. The predicate is the same, and has not been asked about the chunk.
pub proof fn law_new_chunk_for_predicate<T, P, F>(
    before: PrimitivePredicateReader<T, P, F>,
    rows: Seq<Option<T::T>>,
    defs: Seq<i16>,
    reps: Seq<i16>,
    after: PrimitivePredicateReader<T, P, F>,
    holds: spec_fn(T::T) -> Option<bool>,
) where
    T: DataType,
    P: PrimitiveDictionaryPredicate,
    F: ColumnValueDecoder<Buffer = Vec<T::T>>,

    requires
        answers_leveled_rows(before.records(), rows, defs, reps, holds),
        PrimitivePredicateReader::<T, P, F>::starts_chunk(before, after),
    ensures
        answers_leveled_rows(after.records(), rows, defs, reps, holds),
        after.values_type() == before.values_type(),
        after.asks() == before.asks(),
        after.def_levels() == before.def_levels(),
        after.rep_levels() == before.rep_levels(),
        after.records().decoder matches Some(decoder) && {
            &&& decoder.mask() is None
            &&& decoder.page() is None
            &&& decoder.asked().len() == 0
            &&& decoder.values_type() == before.values_type()
            &&& decoder.slot() matches PredicateSlot::Configured(predicate) && *predicate
                == before.asks()
        },
{
    assert(row_validity(after.records()) =~= row_validity(before.records()));
}

/// Reading rows keeps keys pointing to values, unless a null row stands where there is no value to
/// point to.
pub proof fn law_read_keys_find_values<T: DataType>(
    before: DictionaryState<T, ColumnValueDecoderImpl<T>>,
    rows: Seq<Option<T::T>>,
    levels: Levels,
    values: Seq<T::T>,
    after: DictionaryState<T, ColumnValueDecoderImpl<T>>,
    r: Result<usize, ParquetError>,
)
    requires
        holds_rows(before, rows),
        keys_find_values(before.content),
        before.decoder matches Some(decoder) && comes_next(decoder, values) && (
        decoder.values() matches Some(dictionary) ==> dictionary.values.len() > 0),
        DictionaryRecords::<T, ColumnValueDecoderImpl<T>>::can_read_rows(before, levels),
        DictionaryRecords::<T, ColumnValueDecoderImpl<T>>::reads_rows(before, levels, after, r),
        r is Ok,
    ensures
        keys_find_values(after.content),
{
    law_levels_are_counted(before.column, levels);
    let validity = levels.validity(before.column);
    let want = set_count(validity) as usize;
    let decoder = before.decoder->0;
    let kept: DictionaryContent<T::T> = before.content;
    let (next, content, got) = choose|
        next: PrimitiveDictionaryDecoder<T, ColumnValueDecoderImpl<T>>,
        content: DictionaryContent<T::T>,
        got: Result<usize, ParquetError>,
    |
        {
            &&& #[trigger] PrimitiveDictionaryDecoder::<T, ColumnValueDecoderImpl<T>>::reads(
                decoder,
                before.content,
                want,
                next,
                content,
                got,
            )
            &&& got == Ok::<usize, ParquetError>(want)
            &&& after == DictionaryRecords::<T, ColumnValueDecoderImpl<T>>::with_rows(
                before,
                levels,
                next,
                content,
            )
        };
    law_next_values_are_read(decoder, values, kept, want, next, content, got);
    let made: DictionaryContent<T::T> = after.content;
    if made is Dict && want < levels.count {
        let n = before.num_values as int;
        let all = before.valid->0 + validity;
        let keys = content->keys;
        if before.valid is None {
            lemma_rank_full_run(validity, levels.count as int);
        }
        lemma_rank_extended(before.valid->0, validity, levels.count as int);
        lemma_rank_extended(before.valid->0, validity, 0);
        assert(content->dictionary.values.len() > 0);
        assert forall|i: int| 0 <= i < made->keys.len() implies 0 <= #[trigger] made->keys[i]
            < content->dictionary.values.len() by {
            if i >= n && all[i] {
                lemma_rank_bounds(all, n, i);
                lemma_rank_bounds(all, i + 1, n + levels.count);
                assert(made->keys[i] == keys[n + rank(all, i) - rank(all, n)]);
            } else if i < keys.len() {
                assert(made->keys[i] == keys[i]);
            }
        }
    }
}

/// Where the column may not be null and rows hold no value all the same, there is no batch of
/// answers: the numbers of answers, of answers that were expected and of rows are told.
pub proof fn law_uncovered_rows<T, P, F>(
    before: PredicateState<T, P, F>,
    rows: Seq<Option<T::T>>,
    after: PredicateState<T, P, F>,
    r: Result<BooleanArray, ParquetError>,
    holds: spec_fn(T::T) -> Option<bool>,
    row: int,
) where
    T: DataType,
    P: PrimitiveDictionaryPredicate,
    F: ColumnValueDecoder<Buffer = Vec<T::T>>,

    requires
        answers_rows(before, rows, holds),
        !before.column.is_optional,
        0 <= row < rows.len(),
        rows[row] is None,
        PrimitivePredicateReader::<T, P, F>::gives_batch(before, after, r),
    ensures
        r == Err::<BooleanArray, ParquetError>(
            ParquetError::General(
                Reason::CompactLength {
                    decoded: values_of(rows).len() as usize,
                    expected: rows.len() as usize,
                    levels: rows.len() as usize,
                },
            ),
        ),
        after.decoder == before.decoder,
        after.column == before.column,
        after.content.len() == 0,
        after.def_levels matches Some(levels) ==> levels.len() == 0,
        after.rep_levels matches Some(levels) ==> levels.len() == 0,
{
    law_batch_answers_rows(before, rows, after, r, holds);
    lemma_rank_full_run(batch_validity(before), rows.len() as int);
}

/// A batch that cannot be made takes the rows and their levels with it, and leaves the decoder.
pub proof fn law_failed_batch<T, F>(
    before: PrimitiveDictionaryReader<T, F>,
    after: PrimitiveDictionaryReader<T, F>,
    r: Result<ArrowArray, ParquetError>,
) where T: DataType, F: ColumnValueDecoder<Buffer = Vec<T::T>>
    requires
        PrimitiveDictionaryReader::<T, F>::gives_batch(
            before.arrays_type(),
            before.records(),
            after.records(),
            r,
        ),
        PrimitiveDictionaryReader::<T, F>::gives_levels(before, after),
        r is Err,
    ensures
        after.records().content.len() == 0,
        after.records().decoder == before.records().decoder,
        after.records().column == before.records().column,
        after.records().def_levels matches Some(levels) ==> levels.len() == 0,
        after.records().rep_levels matches Some(levels) ==> levels.len() == 0,
        after.records().valid matches Some(valid) ==> valid.len() == 0,
        after.def_levels() == before.records().def_levels,
        after.rep_levels() == before.records().rep_levels,
{
}

/// Without rows there is a batch all the same, of the type that was asked for.
pub proof fn law_empty_batch<T, F>(
    data_type: ArrowType,
    before: DictionaryState<T, F>,
    after: DictionaryState<T, F>,
    r: Result<ArrowArray, ParquetError>,
) where T: DataType, F: ColumnValueDecoder<Buffer = Vec<T::T>>
    requires
        before.num_values == 0,
        PrimitiveDictionaryReader::<T, F>::gives_batch(data_type, before, after, r),
    ensures
        r matches Ok(batch) && {
            &&& array_type(batch) == data_type
            &&& array_len(batch) == 0
            &&& array_len(dictionary_values(batch)) == 0
        },
        after.decoder == before.decoder,
        after.num_values == 0,
{
}

/// A dictionary type has values of its value type, and no other type has any.
pub proof fn law_value_types(key: ArrowType, value: ArrowType, other: ArrowType)
    requires
        !(other matches ArrowType::Dictionary(_, _)),
    ensures
        value_type_of(ArrowType::Dictionary(Box::new(key), Box::new(value))) == Some(value),
        value_type_of(other) is None,
{
}

/// A row without a value keeps what stood in its place when the values were moved to their rows. A
/// place that nothing stood in is filled with key zero, or with an unset value.
pub proof fn law_null_rows_are_filled<T: DataType>(
    content: DictionaryContent<T::T>,
    read_offset: usize,
    values_read: usize,
    levels_read: usize,
    rows: Seq<bool>,
    row: int,
)
    requires
        content.len() == read_offset + values_read,
        read_offset + levels_read <= rows.len(),
        read_offset <= row < read_offset + levels_read,
        !rows[row],
    ensures
        match (
            content,
            PrimitiveDictionaryBuffer::<T>::padded(
                content,
                read_offset,
                values_read,
                levels_read,
                rows,
            ),
        ) {
            (
                DictionaryContent::Dict { keys, dictionary },
                DictionaryContent::Dict { keys: moved, dictionary: own },
            ) => own == dictionary && moved[row] == if row < keys.len() {
                keys[row]
            } else {
                0
            },
            (DictionaryContent::Values(values), DictionaryContent::Values(moved)) => moved[row]
                == if row < values.len() {
                values[row]
            } else {
                T::unset()
            },
            _ => false,
        },
{
}

} // verus!
