//! What holds of the rows of a batch, whatever pages they were read from.
//!
//! The rows that a reader has read and not given out are a sequence of values, `None` for a null
//! row. Each read appends the rows of its page to this sequence, and a batch is made of all of it.
use arrow_array::BooleanArray;
use arrow_schema::DataType as ArrowType;
use bytes::Bytes;
use vstd::prelude::*;

use crate::arrow::{array_len, array_type, boolean_array_values, dictionary_of, ArrowArray};
use crate::bits::{
    lemma_all_set, lemma_rank_bounds, lemma_rank_full_run, lemma_rank_prefix, rank, set_count,
};
use crate::column::ColumnValueDecoder;
use crate::dictionary::{DictionaryContent, MaybeDictionaryDecoder, PrimitiveDictionaryDecoder};
use crate::errors::{Encoding, ParquetError};
use crate::laws::{
    answers_to, batch_holds, decides, law_batch_holds_its_rows, law_indexed_page_is_answered,
    law_indexed_rows_are_kept, law_int32_batch_rows, law_int64_batch_rows,
    law_plain_page_is_answered, law_plain_rows_are_kept, plainly_holds, row_of, rows_follow,
    stands_for,
};
use crate::plain::ColumnValueDecoderImpl;
use crate::predicate::{
    PrimitiveDictionaryPredicate, PrimitivePredicateDecoder, PrimitivePredicateValueDecoder,
};
use crate::reader::{
    batch_nulls, batch_validity, valid_slots, value_type_of, DictionaryRecords, DictionaryState,
    PredicateRecords, PredicateState, PrimitiveDictionaryReader, PrimitivePredicateReader,
};
use crate::record_reader::{given_validity, Levels, RecordState};
use crate::rle::{keys_of, looked_up};
use crate::shared::Dictionary;
use crate::types::{ColumnDescriptor, DataType, Int32Type, Int64Type};

verus! {

/// The rows that hold a value.
pub open spec fn valid_of<A>(rows: Seq<Option<A>>) -> Seq<bool> {
    rows.map_values(|row: Option<A>| row is Some)
}

/// The values of the rows that hold one, in order.
pub open spec fn values_of<A>(rows: Seq<Option<A>>) -> Seq<A>
    decreases rows.len(),
{
    if rows.len() == 0 {
        Seq::empty()
    } else {
        match rows.last() {
            Some(value) => values_of(rows.drop_last()).push(value),
            None => values_of(rows.drop_last()),
        }
    }
}

/// The rows in which the valid ones hold `values`, in order.
pub open spec fn rows_of<A>(validity: Seq<bool>, values: Seq<A>) -> Seq<Option<A>> {
    Seq::new(
        validity.len(),
        |i: int|
            if validity[i] {
                Some(values[rank(validity, i) as int])
            } else {
                None
            },
    )
}

pub proof fn lemma_values_of<A>(rows: Seq<Option<A>>)
    ensures
        values_of(rows).len() == set_count(valid_of(rows)),
        forall|i: int|
            0 <= i < rows.len() && rows[i] is Some ==> {
                &&& rank(valid_of(rows), i) < values_of(rows).len()
                &&& #[trigger] rows[i] == Some(values_of(rows)[rank(valid_of(rows), i) as int])
            },
    decreases rows.len(),
{
    let valid = valid_of(rows);
    if rows.len() > 0 {
        let front = rows.drop_last();
        let n = front.len() as int;
        lemma_values_of(front);
        assert forall|k: int| 0 <= k <= n implies rank(valid, k) == rank(valid_of(front), k) by {
            lemma_rank_prefix(valid, valid_of(front), k);
        }
        assert(rank(valid, n) == set_count(valid_of(front)));
        assert(valid[n] == rows.last() is Some);
        assert forall|i: int| 0 <= i < rows.len() && rows[i] is Some implies {
            &&& rank(valid, i) < values_of(rows).len()
            &&& #[trigger] rows[i] == Some(values_of(rows)[rank(valid, i) as int])
        } by {
            if i < n {
                assert(front[i] == rows[i]);
            }
        }
    }
}

pub proof fn lemma_values_joined<A>(rows: Seq<Option<A>>, more: Seq<Option<A>>)
    ensures
        values_of(rows + more) == values_of(rows) + values_of(more),
        valid_of(rows + more) == valid_of(rows) + valid_of(more),
    decreases more.len(),
{
    assert(valid_of(rows + more) =~= valid_of(rows) + valid_of(more));
    if more.len() == 0 {
        assert(rows + more =~= rows);
        assert(values_of(rows) + values_of(more) =~= values_of(rows));
    } else {
        lemma_values_joined(rows, more.drop_last());
        assert((rows + more).drop_last() =~= rows + more.drop_last());
        assert(values_of(rows + more) =~= values_of(rows) + values_of(more));
    }
}

pub proof fn lemma_rows_of<A>(validity: Seq<bool>, values: Seq<A>)
    requires
        values.len() == set_count(validity),
    ensures
        valid_of(rows_of(validity, values)) == validity,
        values_of(rows_of(validity, values)) == values,
    decreases validity.len(),
{
    let rows = rows_of(validity, values);
    assert(valid_of(rows) =~= validity);
    if validity.len() > 0 {
        let front = validity.drop_last();
        let n = front.len() as int;
        lemma_rank_prefix(validity, front, n);
        let kept = values.take(set_count(front) as int);
        assert forall|i: int| 0 <= i < n implies #[trigger] rows.drop_last()[i] == rows_of(
            front,
            kept,
        )[i] by {
            lemma_rank_prefix(validity, front, i);
            lemma_rank_bounds(front, i + 1, n);
        }
        assert(rows.drop_last() =~= rows_of(front, kept));
        lemma_rows_of(front, kept);
        assert(values_of(rows) =~= values);
    } else {
        assert(values_of(rows) =~= values);
    }
}

/// The rows that hold a value, of those that have been read.
pub open spec fn row_validity<C, D>(state: RecordState<C, D>) -> Seq<bool> {
    match state.valid {
        Some(valid) => valid,
        None => Seq::new(state.num_values, |i: int| true),
    }
}

/// The reader of answers holds `rows`: it knows which hold a value, and has the predicate's answers
/// for the values.
pub open spec fn answers_rows<T, P, F>(
    state: PredicateState<T, P, F>,
    rows: Seq<Option<T::T>>,
    holds: spec_fn(T::T) -> Option<bool>,
) -> bool where
    T: DataType,
    P: PrimitiveDictionaryPredicate,
    F: ColumnValueDecoder<Buffer = Vec<T::T>>,
 {
    &&& PredicateRecords::<T, P, F>::in_step(state)
    &&& state.num_values == rows.len()
    &&& row_validity(state) == valid_of(rows)
    &&& state.content == answers_to(values_of(rows), holds)
}

/// A reader of answers that has been made or whose batch has been consumed holds no rows.
pub proof fn law_no_rows_to_answer<T, P, F>(
    state: PredicateState<T, P, F>,
    holds: spec_fn(T::T) -> Option<bool>,
) where
    T: DataType,
    P: PrimitiveDictionaryPredicate,
    F: ColumnValueDecoder<Buffer = Vec<T::T>>,

    requires
        PredicateRecords::<T, P, F>::in_step(state),
        state.num_values == 0,
        state.content.len() == 0,
    ensures
        answers_rows(state, Seq::empty(), holds),
{
    let none = Seq::<Option<T::T>>::empty();
    assert(row_validity(state) =~= valid_of(none));
    assert(state.content =~= answers_to(values_of(none), holds));
}

/// Whatever is done to the decoder of a reader of answers, its rows stay: another column chunk, a
/// dictionary, a data page and skipped rows do not change them.
pub proof fn law_answered_rows_stay<T, P, F>(
    state: PredicateState<T, P, F>,
    decoder: Option<PrimitivePredicateDecoder<T, P, F>>,
    rows: Seq<Option<T::T>>,
    holds: spec_fn(T::T) -> Option<bool>,
) where
    T: DataType,
    P: PrimitiveDictionaryPredicate,
    F: ColumnValueDecoder<Buffer = Vec<T::T>>,

    requires
        answers_rows(state, rows, holds),
    ensures
        answers_rows(RecordState { decoder, ..state }, rows, holds),
{
    let after = RecordState { decoder, ..state };
    assert(row_validity(after) =~= row_validity(state));
}

/// The next `num_values` values of the page are `values`. A page of indices has the predicate's
/// answers for `dictionary`; for a page of plain values the predicate is asked.
pub open spec fn hands_out<T, P>(
    decoder: PrimitivePredicateDecoder<T, P, ColumnValueDecoderImpl<T>>,
    dictionary: Seq<T::T>,
    num_values: usize,
    values: Seq<T::T>,
    holds: spec_fn(T::T) -> Option<bool>,
) -> bool where T: DataType, P: PrimitiveDictionaryPredicate {
    match decoder.page() {
        Some(PrimitivePredicateValueDecoder::Dict { .. }) => {
            &&& decoder.mask() == Some(answers_to(dictionary, holds))
            &&& stands_for(decoder, dictionary, num_values, values)
        },
        Some(PrimitivePredicateValueDecoder::Fallback(_)) => {
            &&& decides::<T, P>(decoder.slot(), decoder.values_type(), holds)
            &&& plainly_holds(decoder, num_values, values)
        },
        None => false,
    }
}

/// A read appends the rows of its page to those that the reader holds, with the predicate's answers
/// for them, whether the page holds indices or values.
pub proof fn law_read_answers_rows<T, P>(
    before: PredicateState<T, P, ColumnValueDecoderImpl<T>>,
    rows: Seq<Option<T::T>>,
    levels: Levels,
    dictionary: Seq<T::T>,
    values: Seq<T::T>,
    after: PredicateState<T, P, ColumnValueDecoderImpl<T>>,
    r: Result<usize, ParquetError>,
    holds: spec_fn(T::T) -> Option<bool>,
) where T: DataType, P: PrimitiveDictionaryPredicate
    requires
        answers_rows(before, rows, holds),
        PredicateRecords::<T, P, ColumnValueDecoderImpl<T>>::can_read_rows(before, levels),
        hands_out(
            before.decoder->0,
            dictionary,
            set_count(levels.validity(before.column)) as usize,
            values,
            holds,
        ),
        PredicateRecords::<T, P, ColumnValueDecoderImpl<T>>::reads_rows(before, levels, after, r),
        r is Ok,
    ensures
        answers_rows(after, rows + rows_of(levels.validity(before.column), values), holds),
{
    let validity = levels.validity(before.column);
    lemma_rank_bounds(validity, 0, levels.count as int);
    let want = set_count(validity) as usize;
    let decoder = before.decoder->0;
    let (next, content, got) = choose|
        next: PrimitivePredicateDecoder<T, P, ColumnValueDecoderImpl<T>>,
        content: Seq<u8>,
        got: Result<usize, ParquetError>,
    |
        {
            &&& #[trigger] PrimitivePredicateDecoder::<T, P, ColumnValueDecoderImpl<T>>::reads(
                decoder,
                before.content,
                want,
                next,
                content,
                got,
            )
            &&& got == Ok::<usize, ParquetError>(want)
            &&& after == PredicateRecords::<T, P, ColumnValueDecoderImpl<T>>::with_rows(
                before,
                levels,
                next,
                content,
            )
        };
    if decoder.page()->0 is Dict {
        law_indexed_page_is_answered(
            decoder,
            dictionary,
            values,
            before.content,
            want,
            next,
            content,
            got,
            holds,
        );
    } else {
        law_plain_page_is_answered(
            decoder,
            values,
            before.content,
            want,
            next,
            content,
            got,
            holds,
        );
    }
    let more = rows_of(validity, values);
    lemma_rows_of(validity, values);
    lemma_values_joined(rows, more);
    assert(row_validity(after) =~= row_validity(before) + validity);
    assert(after.content =~= answers_to(values_of(rows + more), holds));
}

/// A batch is the predicate's answer row by row: `true` for exactly the rows that hold a value for
/// which the predicate holds, whatever pages the rows were read from. Only where the innermost
/// field may not be null and a row holds no value all the same is there no batch.
pub proof fn law_batch_answers_rows<T, P, F>(
    before: PredicateState<T, P, F>,
    rows: Seq<Option<T::T>>,
    after: PredicateState<T, P, F>,
    r: Result<BooleanArray, ParquetError>,
    holds: spec_fn(T::T) -> Option<bool>,
) where
    T: DataType,
    P: PrimitiveDictionaryPredicate,
    F: ColumnValueDecoder<Buffer = Vec<T::T>>,

    requires
        answers_rows(before, rows, holds),
        PrimitivePredicateReader::<T, P, F>::gives_batch(before, after, r),
    ensures
        r is Ok <==> before.column.is_optional || (forall|i: int|
            0 <= i < rows.len() ==> (#[trigger] rows[i]) is Some),
        r matches Ok(batch) ==> {
            &&& boolean_array_values(batch).len() == rows.len()
            &&& forall|i: int|
                0 <= i < rows.len() ==> #[trigger] boolean_array_values(batch)[i] == Some(
                    rows[i] matches Some(value) && holds(value) == Some(true),
                )
            &&& answers_rows(after, Seq::empty(), holds)
        },
{
    lemma_values_of(rows);
    let valid = valid_of(rows);
    let given = batch_validity(before);
    let n = rows.len() as int;
    if given_validity(before) is Some {
        assert(given =~= valid);
    } else {
        lemma_rank_full_run(given, n);
        if set_count(valid) == n {
            lemma_all_set(valid);
            assert(given =~= valid);
        }
        if forall|i: int| 0 <= i < n ==> (#[trigger] rows[i]) is Some {
            lemma_rank_full_run(valid, n);
        }
    }
    assert forall|i: int| 0 <= i < n && set_count(valid) == n && !before.column.is_optional
        && before.valid is Some implies (#[trigger] rows[i]) is Some by {
        assert(valid[i]);
    }
    if before.valid is None {
        assert forall|i: int| 0 <= i < n implies (#[trigger] rows[i]) is Some by {
            assert(valid[i]);
        }
    }
    if r is Ok {
        let slots = boolean_array_values(r->Ok_0);
        assert(given =~= valid);
        assert forall|i: int| 0 <= i < n implies #[trigger] slots[i] == Some(
            rows[i] matches Some(value) && holds(value) == Some(true),
        ) by {
            if rows[i] is Some {
                assert(rows[i] == Some(values_of(rows)[rank(valid, i) as int]));
            }
        }
        law_no_rows_to_answer(after, holds);
    }
}

/// The dictionary reader holds `rows`: it knows which hold a value, and has the values.
pub open spec fn holds_rows<T, F>(
    state: DictionaryState<T, F>,
    rows: Seq<Option<T::T>>,
) -> bool where T: DataType, F: ColumnValueDecoder<Buffer = Vec<T::T>> {
    &&& DictionaryRecords::<T, F>::in_step(state)
    &&& state.num_values == rows.len()
    &&& row_validity(state) == valid_of(rows)
    &&& forall|i: int|
        0 <= i < rows.len() && rows[i] is Some ==> #[trigger] rows[i] == Some(
            state.content.rows()[i],
        )
}

/// A dictionary reader that has been made or whose batch has been consumed holds no rows.
pub proof fn law_no_rows_to_hold<T, F>(state: DictionaryState<T, F>) where
    T: DataType,
    F: ColumnValueDecoder<Buffer = Vec<T::T>>,

    requires
        DictionaryRecords::<T, F>::in_step(state),
        state.num_values == 0,
    ensures
        holds_rows(state, Seq::empty()),
{
    assert(row_validity(state) =~= valid_of(Seq::<Option<T::T>>::empty()));
}

/// Whatever is done to the decoder of a dictionary reader, its rows stay: another column chunk, a
/// dictionary, a data page and skipped rows do not change them.
pub proof fn law_held_rows_stay<T, F>(
    state: DictionaryState<T, F>,
    decoder: Option<PrimitiveDictionaryDecoder<T, F>>,
    rows: Seq<Option<T::T>>,
) where T: DataType, F: ColumnValueDecoder<Buffer = Vec<T::T>>
    requires
        holds_rows(state, rows),
    ensures
        holds_rows(RecordState { decoder, ..state }, rows),
{
    let after = RecordState { decoder, ..state };
    assert(row_validity(after) =~= row_validity(state));
}

/// The next `num_values` values of the page are `values`: those that its indices stand for, or
/// those that it holds. Indices fit in a key.
pub open spec fn yields<T: DataType>(
    decoder: PrimitiveDictionaryDecoder<T, ColumnValueDecoderImpl<T>>,
    num_values: nat,
    values: Seq<T::T>,
) -> bool {
    match decoder.page() {
        Some(MaybeDictionaryDecoder::Dict { decoder: indices, .. }) => {
            &&& indices.points_into(num_values, 0x8000_0000)
            &&& values == looked_up(
                indices.pending().take(num_values as int),
                decoder.values()->0.values,
            )
        },
        Some(MaybeDictionaryDecoder::Fallback(fallback)) => values
            == fallback.page()->0.given(num_values),
        None => false,
    }
}

/// A read appends the rows of its page to those that the dictionary reader holds, whether the page
/// holds indices or values and whatever was read before.
pub proof fn law_read_holds_rows<T: DataType>(
    before: DictionaryState<T, ColumnValueDecoderImpl<T>>,
    rows: Seq<Option<T::T>>,
    levels: Levels,
    values: Seq<T::T>,
    after: DictionaryState<T, ColumnValueDecoderImpl<T>>,
    r: Result<usize, ParquetError>,
)
    requires
        holds_rows(before, rows),
        DictionaryRecords::<T, ColumnValueDecoderImpl<T>>::can_read_rows(before, levels),
        yields(before.decoder->0, set_count(levels.validity(before.column)), values),
        DictionaryRecords::<T, ColumnValueDecoderImpl<T>>::reads_rows(before, levels, after, r),
        r is Ok,
        DictionaryRecords::<T, ColumnValueDecoderImpl<T>>::in_step(after),
    ensures
        holds_rows(after, rows + rows_of(levels.validity(before.column), values)),
{
    let validity = levels.validity(before.column);
    let n = rows.len() as int;
    lemma_rank_bounds(validity, 0, levels.count as int);
    if before.decoder->0.page()->0 is Dict {
        law_indexed_rows_are_kept(before, levels, after, r);
    } else {
        law_plain_rows_are_kept(before, levels, after, r);
    }
    assert(rows_follow::<T, _>(before, levels, values, after));
    let all = rows + rows_of(validity, values);
    let kept: DictionaryContent<T::T> = before.content;
    let made: DictionaryContent<T::T> = after.content;
    assert forall|i: int| 0 <= i < all.len() && all[i] is Some implies #[trigger] all[i] == Some(
        made.rows()[i],
    ) by {
        if i < n {
            assert(rows[i] == Some(kept.rows()[i]));
            assert(made.rows().take(n)[i] == kept.rows()[i]);
        } else {
            assert(made.rows()[n + (i - n)] == values[rank(validity, i - n) as int]);
        }
    }
    assert(after.column == before.column);
    assert(row_validity(after) =~= row_validity(before) + validity);
    assert(row_validity(after) =~= valid_of(all));
}

/// A batch holds the rows that were read, whatever pages they were read from, and has the declared
/// type where that has 32-bit keys. A row that holds no value is null where the innermost field may
/// be; elsewhere a value stands in its place.
pub proof fn law_batch_holds_rows<T, F>(
    data_type: ArrowType,
    before: DictionaryState<T, F>,
    rows: Seq<Option<T::T>>,
    after: DictionaryState<T, F>,
    batch: ArrowArray,
) where T: DataType, F: ColumnValueDecoder<Buffer = Vec<T::T>>
    requires
        holds_rows(before, rows),
        PrimitiveDictionaryReader::<T, F>::gives_batch(data_type, before, after, Ok(batch)),
    ensures
        array_len(batch) == rows.len(),
        rows.len() > 0 ==> batch_holds::<T>(
            batch,
            value_type_of(data_type)->0,
            batch_slots(before),
        ),
        rows.len() > 0 ==> shows(before.column, rows, batch_slots(before)),
        data_type == dictionary_of(value_type_of(data_type)->0) ==> array_type(batch) == data_type,
        holds_rows(after, Seq::empty()),
{
    if rows.len() > 0 {
        let content: DictionaryContent<T::T> = before.content;
        let slots = valid_slots(content.rows(), batch_nulls(before));
        law_batch_holds_its_rows::<T>(
            content,
            value_type_of(data_type)->0,
            batch_nulls(before),
            batch,
        );
        assert(content.rows().len() == content.len());
        let valid = valid_of(rows);
        if given_validity(before) is Some {
            assert(given_validity(before)->0 =~= valid);
            if set_count(valid) == rows.len() {
                lemma_all_set(valid);
            }
        }
        assert forall|i: int| 0 <= i < rows.len() implies match #[trigger] rows[i] {
            Some(value) => slots[i] == Some(value),
            None => before.column.is_optional ==> slots[i] is None,
        } by {
            assert(valid[i] == rows[i] is Some);
            assert(row_validity(before)[i] == valid[i]);
            assert(rows[i] is Some ==> rows[i] == Some(content.rows()[i]));
        }
    }
    law_no_rows_to_hold(after);
}

/// The slots of a batch.
pub open spec fn batch_slots<T, F>(state: DictionaryState<T, F>) -> Seq<Option<T::T>> where
    T: DataType,
    F: ColumnValueDecoder<Buffer = Vec<T::T>>,
 {
    valid_slots(state.content.rows(), batch_nulls(state))
}

/// The slots show the rows: their values, and null for a row without a value where the innermost
/// field may be null.
pub open spec fn shows<A>(
    column: ColumnDescriptor,
    rows: Seq<Option<A>>,
    slots: Seq<Option<A>>,
) -> bool {
    &&& slots.len() == rows.len()
    &&& forall|i: int|
        0 <= i < rows.len() ==> match #[trigger] rows[i] {
            Some(value) => slots[i] == Some(value),
            None => column.is_optional ==> slots[i] is None,
        }
}

/// A batch of 64-bit integers holds the numbers that were read, whatever pages they were read from.
pub proof fn law_int64_batch_holds_rows<F>(
    data_type: ArrowType,
    before: DictionaryState<Int64Type, F>,
    rows: Seq<Option<i64>>,
    after: DictionaryState<Int64Type, F>,
    batch: ArrowArray,
) where F: ColumnValueDecoder<Buffer = Vec<<Int64Type as DataType>::T>>
    requires
        holds_rows(before, rows),
        PrimitiveDictionaryReader::<Int64Type, F>::gives_batch(
            data_type,
            before,
            after,
            Ok(batch),
        ),
    ensures
        array_len(batch) == rows.len(),
        forall|i: int|
            0 <= i < rows.len() ==> match #[trigger] rows[i] {
                Some(value) => row_of(batch, i) == Some(value as int),
                None => before.column.is_optional ==> row_of(batch, i) is None,
            },
{
    law_batch_holds_rows(data_type, before, rows, after, batch);
    if rows.len() > 0 {
        let slots = batch_slots(before);
        law_int64_batch_rows(batch, value_type_of(data_type)->0, slots);
        assert forall|i: int| 0 <= i < rows.len() implies match #[trigger] rows[i] {
            Some(value) => row_of(batch, i) == Some(value as int),
            None => before.column.is_optional ==> row_of(batch, i) is None,
        } by {
            assert(row_of(batch, i) == match slots[i] {
                Some(value) => Some(value as int),
                None => None,
            });
        }
    }
}

/// A batch of 32-bit integers holds the numbers that were read, whatever pages they were read from.
pub proof fn law_int32_batch_holds_rows<F>(
    data_type: ArrowType,
    before: DictionaryState<Int32Type, F>,
    rows: Seq<Option<i32>>,
    after: DictionaryState<Int32Type, F>,
    batch: ArrowArray,
) where F: ColumnValueDecoder<Buffer = Vec<<Int32Type as DataType>::T>>
    requires
        holds_rows(before, rows),
        PrimitiveDictionaryReader::<Int32Type, F>::gives_batch(
            data_type,
            before,
            after,
            Ok(batch),
        ),
    ensures
        array_len(batch) == rows.len(),
        forall|i: int|
            0 <= i < rows.len() ==> match #[trigger] rows[i] {
                Some(value) => row_of(batch, i) == Some(value as int),
                None => before.column.is_optional ==> row_of(batch, i) is None,
            },
{
    law_batch_holds_rows(data_type, before, rows, after, batch);
    if rows.len() > 0 {
        let slots = batch_slots(before);
        law_int32_batch_rows(batch, value_type_of(data_type)->0, slots);
        assert forall|i: int| 0 <= i < rows.len() implies match #[trigger] rows[i] {
            Some(value) => row_of(batch, i) == Some(value as int),
            None => before.column.is_optional ==> row_of(batch, i) is None,
        } by {
            assert(row_of(batch, i) == match slots[i] {
                Some(value) => Some(value as int),
                None => None,
            });
        }
    }
}

/// The rows are keys of the dictionary, or there are none.
pub open spec fn keeps_keys<A>(content: DictionaryContent<A>, dictionary: Dictionary<A>) -> bool {
    content.len() == 0 || content.refers_to(dictionary)
}

/// As long as a buffer holds keys of the decoder's dictionary, a read of indices appends keys, one
/// for each value, and the buffer goes on to hold keys of this very dictionary.
pub proof fn law_keys_are_kept<T, F>(
    before: PrimitiveDictionaryDecoder<T, F>,
    dictionary: Dictionary<T::T>,
    out: DictionaryContent<T::T>,
    num_values: usize,
    after: PrimitiveDictionaryDecoder<T, F>,
    out_after: DictionaryContent<T::T>,
    r: Result<usize, ParquetError>,
) where T: DataType, F: ColumnValueDecoder<Buffer = Vec<T::T>>
    requires
        before.values() == Some(dictionary),
        before.page() matches Some(MaybeDictionaryDecoder::Dict { .. }),
        keeps_keys(out, dictionary),
        PrimitiveDictionaryDecoder::<T, F>::reads(before, out, num_values, after, out_after, r),
        r is Ok,
    ensures
        after.values() == Some(dictionary),
        out_after == (DictionaryContent::Dict {
            keys: out.keys_for(dictionary)->0 + keys_of(
                before.page()->0->decoder.pending().take(r->Ok_0 as int),
            ),
            dictionary,
        }),
        out_after.len() == out.len() + r->Ok_0,
{
}

/// Rows that are read from pages of indices of one dictionary stay keys of it, through padding and
/// from page to page: the keys so far are a prefix of the new ones, of which there is one for each
/// row.
pub proof fn law_rows_stay_keys<T, F>(
    before: DictionaryState<T, F>,
    dictionary: Dictionary<T::T>,
    levels: Levels,
    after: DictionaryState<T, F>,
    r: Result<usize, ParquetError>,
) where T: DataType, F: ColumnValueDecoder<Buffer = Vec<T::T>>
    requires
        DictionaryRecords::<T, F>::in_step(before),
        DictionaryRecords::<T, F>::can_read_rows(before, levels),
        before.decoder->0.values() == Some(dictionary),
        before.decoder->0.page() matches Some(MaybeDictionaryDecoder::Dict { .. }),
        keeps_keys(before.content, dictionary),
        DictionaryRecords::<T, F>::reads_rows(before, levels, after, r),
        r is Ok,
    ensures
        after.decoder->0.values() == Some(dictionary),
        after.content.refers_to(dictionary),
        after.content.len() == before.content.len() + levels.count,
        before.content.keys_for(dictionary)->0.is_prefix_of(after.content->keys),
{
    let validity = levels.validity(before.column);
    lemma_rank_bounds(validity, 0, levels.count as int);
    let want = set_count(validity) as usize;
    let decoder = before.decoder->0;
    let (next, content, got) = choose|
        next: PrimitiveDictionaryDecoder<T, F>,
        content: DictionaryContent<T::T>,
        got: Result<usize, ParquetError>,
    |
        {
            &&& #[trigger] PrimitiveDictionaryDecoder::<T, F>::reads(
                decoder,
                before.content,
                want,
                next,
                content,
                got,
            )
            &&& got == Ok::<usize, ParquetError>(want)
            &&& after == DictionaryRecords::<T, F>::with_rows(before, levels, next, content)
        };
    law_keys_are_kept(decoder, dictionary, before.content, want, next, content, got);
    let held: DictionaryContent<T::T> = before.content;
    let made: DictionaryContent<T::T> = after.content;
    let kept = held.keys_for(dictionary)->0;
    assert(kept.len() == before.num_values);
    assert(made is Dict);
    assert(kept =~= made->keys.take(kept.len() as int));
}

/// A data page and skipped values leave the dictionary of a decoder as it was.
pub proof fn law_pages_keep_the_dictionary<T, F>(
    before: PrimitiveDictionaryDecoder<T, F>,
    encoding: Encoding,
    data: Bytes,
    num_levels: usize,
    num_values: Option<usize>,
    between: PrimitiveDictionaryDecoder<T, F>,
    set: Result<(), ParquetError>,
    num_skipped: usize,
    after: PrimitiveDictionaryDecoder<T, F>,
    skipped: Result<usize, ParquetError>,
) where T: DataType, F: ColumnValueDecoder<Buffer = Vec<T::T>>
    requires
        PrimitiveDictionaryDecoder::<T, F>::sets_data(
            before,
            encoding,
            data,
            num_levels,
            num_values,
            between,
            set,
        ),
        PrimitiveDictionaryDecoder::<T, F>::skips(between, num_skipped, after, skipped),
    ensures
        between.values() == before.values(),
        after.values() == before.values(),
{
}

} // verus!
