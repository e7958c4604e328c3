//! What holds of the readers from page to page and from batch to batch: what is written in the
//! pages is what the batches hold, row by row and with the levels of the rows.
use arrow_array::BooleanArray;
use arrow_schema::DataType as ArrowType;
use bytes::Bytes;
use vstd::prelude::*;

use crate::array_reader::ArrayReader;
use crate::arrow::{array_len, boolean_array_values, bytes_content, ArrowArray};
use crate::batch_laws::row_validity;
use crate::column::ColumnValueDecoder;
use crate::errors::{Encoding, ParquetError};
use crate::format_laws::{page_xs, writes_plainly, IndexRun, IndexTail};
use crate::laws::{decides, row_of};
use crate::level_laws::{
    answers_leveled_rows, holds_leveled_rows, law_answered_rows_are_read,
    law_answered_rows_are_skipped, law_answers_go_with_their_levels,
    law_int32_batch_goes_with_its_levels, law_int64_batch_goes_with_its_levels, law_new_chunk,
    law_new_chunk_for_predicate, law_new_dictionary_reader, law_new_predicate_reader,
    law_rows_are_read, law_rows_are_skipped, more_defs, more_reps, num_records, num_values,
    told_rows,
};
use crate::page_laws::{
    answer_bytes, comes_next, is_answered_next, is_index_page, law_dictionary_page_is_answered,
    law_dictionary_page_is_kept, law_indexed_answers_come_next, law_indexed_values_come_next,
    law_plain_answers_come_next, law_plain_values_come_next, page_count, page_points_into,
    page_values,
};
use crate::plain::ColumnValueDecoderImpl;
use crate::predicate::{PredicateSlot, PrimitiveDictionaryPredicate};
use crate::reader::{PrimitiveDictionaryReader, PrimitivePredicateReader};
use crate::record_reader::Levels;
use crate::types::{ColumnDescriptor, DataType, Int32Type, Int64Type};

verus! {

/// A dictionary reader holds rows and their levels, and has given out other levels before.
pub open spec fn reader_holds<T, F>(
    reader: PrimitiveDictionaryReader<T, F>,
    rows: Seq<Option<T::T>>,
    defs: Seq<i16>,
    reps: Seq<i16>,
) -> bool where T: DataType, F: ColumnValueDecoder<Buffer = Vec<T::T>> {
    holds_leveled_rows(reader.records(), rows, defs, reps)
}

/// What a reader has given out is as it was.
pub open spec fn gave_the_same<R: ArrayReader>(before: R, after: R) -> bool {
    &&& after.given_defs() == before.given_defs()
    &&& after.given_reps() == before.given_reps()
    &&& after.given_type() == before.given_type()
}

/// A dictionary reader that has just been made reads the column that it was made for, as arrays of
/// the type that was asked for. It holds no rows and has given out no levels.
pub proof fn law_reader_is_new<T: DataType>(
    reader: PrimitiveDictionaryReader<T, ColumnValueDecoderImpl<T>>,
    column: ColumnDescriptor,
    data_type: ArrowType,
)
    requires
        reader.is_new(column, data_type),
    ensures
        reader.column_read() == column,
        reader.given_type() == data_type,
        reader.given_defs() is None,
        reader.given_reps() is None,
        !reader.in_chunk(),
        reader_holds(reader, Seq::empty(), Seq::empty(), Seq::empty()),
{
    law_new_dictionary_reader(reader.records(), column);
}

/// A reader of answers that has just been made reads the column that it was made for and asks the
/// predicate that it was given. It holds no rows and has given out no levels.
pub proof fn law_predicate_reader_is_new<T, P>(
    reader: PrimitivePredicateReader<T, P, ColumnValueDecoderImpl<T>>,
    column: ColumnDescriptor,
    value_type: ArrowType,
    predicate: P,
    holds: spec_fn(T::T) -> Option<bool>,
) where T: DataType, P: PrimitiveDictionaryPredicate
    requires
        reader.is_new(column, value_type, predicate),
    ensures
        reader.column_read() == column,
        reader.given_type() == ArrowType::Boolean,
        reader.given_defs() is None,
        reader.given_reps() is None,
        !reader.in_chunk(),
        reader.asks() == predicate,
        reader.values_type() == value_type,
        reader_answers(reader, Seq::empty(), Seq::empty(), Seq::empty(), holds),
{
    law_new_predicate_reader(reader.records(), column, holds);
}

/// Another column chunk leaves the rows of a dictionary reader and starts without a dictionary.
pub proof fn law_reader_goes_on<T: DataType>(
    before: PrimitiveDictionaryReader<T, ColumnValueDecoderImpl<T>>,
    rows: Seq<Option<T::T>>,
    defs: Seq<i16>,
    reps: Seq<i16>,
    after: PrimitiveDictionaryReader<T, ColumnValueDecoderImpl<T>>,
)
    requires
        reader_holds(before, rows, defs, reps),
        PrimitiveDictionaryReader::<T, ColumnValueDecoderImpl<T>>::goes_on(before, after),
    ensures
        after.in_chunk(),
        reader_holds(after, rows, defs, reps),
        gave_the_same(before, after),
        after.records().decoder->0.values() is None,
{
    law_new_chunk(before, rows, defs, reps, after);
}

/// A dictionary reader keeps the values that are written in a dictionary page, under each of its
/// encodings, and its rows stay.
pub proof fn law_reader_takes_dictionary<T: DataType>(
    before: PrimitiveDictionaryReader<T, ColumnValueDecoderImpl<T>>,
    rows: Seq<Option<T::T>>,
    defs: Seq<i16>,
    reps: Seq<i16>,
    buf: Bytes,
    count: u32,
    encoding: Encoding,
    values: Seq<T::T>,
    after: PrimitiveDictionaryReader<T, ColumnValueDecoderImpl<T>>,
    r: Result<(), ParquetError>,
)
    requires
        reader_holds(before, rows, defs, reps),
        encoding == Encoding::PLAIN || encoding == Encoding::PLAIN_DICTIONARY || encoding
            == Encoding::RLE_DICTIONARY,
        values.len() == count,
        writes_plainly::<T>(bytes_content(buf), values),
        PrimitiveDictionaryReader::<T, ColumnValueDecoderImpl<T>>::takes_dict(
            before,
            buf,
            count,
            encoding,
            after,
            r,
        ),
    ensures
        r == Ok::<(), ParquetError>(()),
        after.in_chunk(),
        reader_holds(after, rows, defs, reps),
        gave_the_same(before, after),
        after.records().decoder->0.values() matches Some(dictionary) && dictionary.values == values,
{
    law_dictionary_page_is_kept(
        before.records().decoder->0,
        buf,
        count,
        encoding,
        values,
        after.records().decoder->0,
        r,
    );
    assert(row_validity(after.records()) =~= row_validity(before.records()));
}

/// Behind a page of indices a dictionary reader has the values next that the indices stand for, and
/// its rows stay.
pub proof fn law_reader_takes_indices<T: DataType>(
    before: PrimitiveDictionaryReader<T, ColumnValueDecoderImpl<T>>,
    rows: Seq<Option<T::T>>,
    defs: Seq<i16>,
    reps: Seq<i16>,
    encoding: Encoding,
    data: Bytes,
    num_levels: usize,
    num_present: Option<usize>,
    width: u8,
    runs: Seq<IndexRun>,
    tail: IndexTail,
    dictionary: Seq<T::T>,
    after: PrimitiveDictionaryReader<T, ColumnValueDecoderImpl<T>>,
    r: Result<(), ParquetError>,
)
    requires
        reader_holds(before, rows, defs, reps),
        before.records().decoder->0.values() matches Some(own) && own.values == dictionary,
        encoding == Encoding::RLE_DICTIONARY || encoding == Encoding::PLAIN_DICTIONARY,
        is_index_page(data, width, runs, tail),
        page_points_into(
            page_xs(runs, tail),
            page_count(num_levels, num_present),
            dictionary.len(),
        ),
        PrimitiveDictionaryReader::<T, ColumnValueDecoderImpl<T>>::takes_data(
            before,
            encoding,
            data,
            num_levels,
            num_present,
            after,
            r,
        ),
    ensures
        r == Ok::<(), ParquetError>(()),
        after.in_chunk(),
        reader_holds(after, rows, defs, reps),
        gave_the_same(before, after),
        comes_next(
            after.records().decoder->0,
            page_values(
                page_xs(runs, tail),
                page_count(num_levels, num_present),
                dictionary,
            ),
        ),
{
    law_indexed_values_come_next(
        before.records().decoder->0,
        encoding,
        data,
        num_levels,
        num_present,
        width,
        runs,
        tail,
        dictionary,
        after.records().decoder->0,
        r,
    );
    assert(row_validity(after.records()) =~= row_validity(before.records()));
}

/// Behind a plain page a dictionary reader has the values next that are written in it, and its rows
/// stay.
pub proof fn law_reader_takes_values<T: DataType>(
    before: PrimitiveDictionaryReader<T, ColumnValueDecoderImpl<T>>,
    rows: Seq<Option<T::T>>,
    defs: Seq<i16>,
    reps: Seq<i16>,
    data: Bytes,
    num_levels: usize,
    num_present: Option<usize>,
    values: Seq<T::T>,
    after: PrimitiveDictionaryReader<T, ColumnValueDecoderImpl<T>>,
    r: Result<(), ParquetError>,
)
    requires
        reader_holds(before, rows, defs, reps),
        writes_plainly::<T>(bytes_content(data), values),
        values.len() == page_count(num_levels, num_present),
        PrimitiveDictionaryReader::<T, ColumnValueDecoderImpl<T>>::takes_data(
            before,
            Encoding::PLAIN,
            data,
            num_levels,
            num_present,
            after,
            r,
        ),
    ensures
        r == Ok::<(), ParquetError>(()),
        after.in_chunk(),
        reader_holds(after, rows, defs, reps),
        gave_the_same(before, after),
        comes_next(after.records().decoder->0, values),
{
    law_plain_values_come_next(
        before.records().decoder->0,
        data,
        num_levels,
        num_present,
        values,
        after.records().decoder->0,
        r,
    );
    assert(row_validity(after.records()) =~= row_validity(before.records()));
}

/// A dictionary reader that reads rows has them, with the values that come next and with their
/// levels, behind those that it had.
pub proof fn law_reader_reads<T: DataType>(
    before: PrimitiveDictionaryReader<T, ColumnValueDecoderImpl<T>>,
    rows: Seq<Option<T::T>>,
    defs: Seq<i16>,
    reps: Seq<i16>,
    levels: Levels,
    values: Seq<T::T>,
    after: PrimitiveDictionaryReader<T, ColumnValueDecoderImpl<T>>,
    r: Result<usize, ParquetError>,
)
    requires
        reader_holds(before, rows, defs, reps),
        before.in_chunk(),
        comes_next(before.records().decoder->0, values),
        num_values(before.records().column, levels) <= values.len(),
        before.can_read(levels),
        PrimitiveDictionaryReader::<T, ColumnValueDecoderImpl<T>>::reads(before, levels, after, r),
    ensures
        ({
            let column = before.records().column;
            &&& r == Ok::<usize, ParquetError>(num_records(column, levels) as usize)
            &&& reader_holds(
                after,
                rows + told_rows(column, levels, values),
                more_defs(column, defs, levels),
                more_reps(column, reps, levels),
            )
            &&& after.in_chunk()
            &&& comes_next(
                after.records().decoder->0,
                values.skip(num_values(column, levels) as int),
            )
            &&& gave_the_same(before, after)
        }),
{
    law_rows_are_read(
        before.records(),
        rows,
        defs,
        reps,
        levels,
        values,
        after.records(),
        r,
    );
}

/// A dictionary reader that skips rows goes on with the value of the row behind them, and keeps the
/// rows that it has.
pub proof fn law_reader_skips<T: DataType>(
    before: PrimitiveDictionaryReader<T, ColumnValueDecoderImpl<T>>,
    rows: Seq<Option<T::T>>,
    defs: Seq<i16>,
    reps: Seq<i16>,
    levels: Levels,
    values: Seq<T::T>,
    after: PrimitiveDictionaryReader<T, ColumnValueDecoderImpl<T>>,
    r: Result<usize, ParquetError>,
)
    requires
        reader_holds(before, rows, defs, reps),
        before.in_chunk(),
        comes_next(before.records().decoder->0, values),
        num_values(before.records().column, levels) <= values.len(),
        PrimitiveDictionaryReader::<T, ColumnValueDecoderImpl<T>>::skips(before, levels, after, r),
    ensures
        ({
            let column = before.records().column;
            &&& r == Ok::<usize, ParquetError>(num_records(column, levels) as usize)
            &&& reader_holds(after, rows, defs, reps)
            &&& after.in_chunk()
            &&& comes_next(
                after.records().decoder->0,
                values.skip(num_values(column, levels) as int),
            )
            &&& gave_the_same(before, after)
        }),
{
    law_rows_are_skipped(before.records(), levels, values, after.records(), r);
    assert(row_validity(after.records()) =~= row_validity(before.records()));
}

/// The batch of a dictionary reader of 64-bit integers holds the rows that were read, and their
/// levels are given out with it. The reader has no rows left.
pub proof fn law_int64_reader_gives(
    before: PrimitiveDictionaryReader<Int64Type, ColumnValueDecoderImpl<Int64Type>>,
    rows: Seq<Option<i64>>,
    defs: Seq<i16>,
    reps: Seq<i16>,
    after: PrimitiveDictionaryReader<Int64Type, ColumnValueDecoderImpl<Int64Type>>,
    batch: ArrowArray,
)
    requires
        reader_holds(before, rows, defs, reps),
        before.records().column.is_optional || before.records().column.max_def_level <= 0,
        PrimitiveDictionaryReader::<Int64Type, ColumnValueDecoderImpl<Int64Type>>::gives(
            before,
            after,
            Ok(batch),
        ),
    ensures
        array_len(batch) == rows.len(),
        forall|i: int|
            0 <= i < rows.len() ==> #[trigger] row_of(batch, i) == match rows[i] {
                Some(value) => Some(value as int),
                None => None,
            },
        after.given_defs() == if before.records().column.max_def_level > 0 {
            Some(defs)
        } else {
            None
        },
        after.given_reps() == if before.records().column.max_rep_level > 0 {
            Some(reps)
        } else {
            None
        },
        after.given_type() == before.given_type(),
        reader_holds(after, Seq::empty(), Seq::empty(), Seq::empty()),
        after.records().decoder == before.records().decoder,
{
    law_int64_batch_goes_with_its_levels(before, rows, defs, reps, after, batch);
}

/// The batch of a dictionary reader of 32-bit integers holds the rows that were read, and their
/// levels are given out with it. The reader has no rows left.
pub proof fn law_int32_reader_gives(
    before: PrimitiveDictionaryReader<Int32Type, ColumnValueDecoderImpl<Int32Type>>,
    rows: Seq<Option<i32>>,
    defs: Seq<i16>,
    reps: Seq<i16>,
    after: PrimitiveDictionaryReader<Int32Type, ColumnValueDecoderImpl<Int32Type>>,
    batch: ArrowArray,
)
    requires
        reader_holds(before, rows, defs, reps),
        before.records().column.is_optional || before.records().column.max_def_level <= 0,
        PrimitiveDictionaryReader::<Int32Type, ColumnValueDecoderImpl<Int32Type>>::gives(
            before,
            after,
            Ok(batch),
        ),
    ensures
        array_len(batch) == rows.len(),
        forall|i: int|
            0 <= i < rows.len() ==> #[trigger] row_of(batch, i) == match rows[i] {
                Some(value) => Some(value as int),
                None => None,
            },
        after.given_defs() == if before.records().column.max_def_level > 0 {
            Some(defs)
        } else {
            None
        },
        after.given_reps() == if before.records().column.max_rep_level > 0 {
            Some(reps)
        } else {
            None
        },
        after.given_type() == before.given_type(),
        reader_holds(after, Seq::empty(), Seq::empty(), Seq::empty()),
        after.records().decoder == before.records().decoder,
{
    law_int32_batch_goes_with_its_levels(before, rows, defs, reps, after, batch);
}

/// A reader of answers holds rows and their levels.
pub open spec fn reader_answers<T, P, F>(
    reader: PrimitivePredicateReader<T, P, F>,
    rows: Seq<Option<T::T>>,
    defs: Seq<i16>,
    reps: Seq<i16>,
    holds: spec_fn(T::T) -> Option<bool>,
) -> bool where
    T: DataType,
    P: PrimitiveDictionaryPredicate,
    F: ColumnValueDecoder<Buffer = Vec<T::T>>,
 {
    answers_leveled_rows(reader.records(), rows, defs, reps, holds)
}

/// What a reader of answers asks is as it was.
pub open spec fn asks_the_same<T, P, F>(
    before: PrimitivePredicateReader<T, P, F>,
    after: PrimitivePredicateReader<T, P, F>,
) -> bool where
    T: DataType,
    P: PrimitiveDictionaryPredicate,
    F: ColumnValueDecoder<Buffer = Vec<T::T>>,
 {
    &&& after.asks() == before.asks()
    &&& after.values_type() == before.values_type()
}

/// Another column chunk leaves the rows of a reader of answers and starts without answers. Its
/// decoder has the predicate of the reader, which has not been asked about the chunk.
pub proof fn law_predicate_reader_goes_on<T, P>(
    before: PrimitivePredicateReader<T, P, ColumnValueDecoderImpl<T>>,
    rows: Seq<Option<T::T>>,
    defs: Seq<i16>,
    reps: Seq<i16>,
    after: PrimitivePredicateReader<T, P, ColumnValueDecoderImpl<T>>,
    holds: spec_fn(T::T) -> Option<bool>,
) where T: DataType, P: PrimitiveDictionaryPredicate
    requires
        reader_answers(before, rows, defs, reps, holds),
        PrimitivePredicateReader::<T, P, ColumnValueDecoderImpl<T>>::goes_on(before, after),
    ensures
        after.in_chunk(),
        reader_answers(after, rows, defs, reps, holds),
        gave_the_same(before, after),
        asks_the_same(before, after),
        ({
            let decoder = after.records().decoder->0;
            &&& decoder.mask() is None
            &&& decoder.asked().len() == 0
            &&& decoder.values_type() == before.values_type()
            &&& decoder.slot() matches PredicateSlot::Configured(predicate)
            &&& *predicate == before.asks()
        }),
{
    law_new_chunk_for_predicate(before, rows, defs, reps, after, holds);
}

/// A reader of answers keeps the answers for the values that are written in a dictionary page,
/// under each of its encodings, and its rows stay.
pub proof fn law_predicate_reader_takes_dictionary<T, P>(
    before: PrimitivePredicateReader<T, P, ColumnValueDecoderImpl<T>>,
    rows: Seq<Option<T::T>>,
    defs: Seq<i16>,
    reps: Seq<i16>,
    buf: Bytes,
    count: u32,
    encoding: Encoding,
    values: Seq<T::T>,
    after: PrimitivePredicateReader<T, P, ColumnValueDecoderImpl<T>>,
    r: Result<(), ParquetError>,
    holds: spec_fn(T::T) -> Option<bool>,
) where T: DataType, P: PrimitiveDictionaryPredicate
    requires
        reader_answers(before, rows, defs, reps, holds),
        before.in_chunk(),
        decides::<T, P>(
            before.records().decoder->0.slot(),
            before.records().decoder->0.values_type(),
            holds,
        ),
        encoding == Encoding::PLAIN || encoding == Encoding::PLAIN_DICTIONARY || encoding
            == Encoding::RLE_DICTIONARY,
        values.len() == count,
        writes_plainly::<T>(bytes_content(buf), values),
        PrimitivePredicateReader::<T, P, ColumnValueDecoderImpl<T>>::takes_dict(
            before,
            buf,
            count,
            encoding,
            after,
            r,
        ),
    ensures
        r == Ok::<(), ParquetError>(()),
        after.in_chunk(),
        reader_answers(after, rows, defs, reps, holds),
        gave_the_same(before, after),
        asks_the_same(before, after),
        after.records().decoder->0.mask() == Some(answer_bytes(values, holds)),
        after.records().decoder->0.same_setup(before.records().decoder->0),
{
    law_dictionary_page_is_answered(
        before.records().decoder->0,
        buf,
        count,
        encoding,
        values,
        after.records().decoder->0,
        r,
        holds,
    );
    assert(row_validity(after.records()) =~= row_validity(before.records()));
}

/// Behind a page of indices a reader of answers has the values next that the indices stand for,
/// with the answers for them, and its rows stay.
pub proof fn law_predicate_reader_takes_indices<T, P>(
    before: PrimitivePredicateReader<T, P, ColumnValueDecoderImpl<T>>,
    rows: Seq<Option<T::T>>,
    defs: Seq<i16>,
    reps: Seq<i16>,
    encoding: Encoding,
    data: Bytes,
    num_levels: usize,
    num_present: Option<usize>,
    width: u8,
    runs: Seq<IndexRun>,
    tail: IndexTail,
    dictionary: Seq<T::T>,
    after: PrimitivePredicateReader<T, P, ColumnValueDecoderImpl<T>>,
    r: Result<(), ParquetError>,
    holds: spec_fn(T::T) -> Option<bool>,
) where T: DataType, P: PrimitiveDictionaryPredicate
    requires
        reader_answers(before, rows, defs, reps, holds),
        before.records().decoder->0.mask() == Some(answer_bytes(dictionary, holds)),
        encoding == Encoding::RLE_DICTIONARY || encoding == Encoding::PLAIN_DICTIONARY,
        is_index_page(data, width, runs, tail),
        page_points_into(
            page_xs(runs, tail),
            page_count(num_levels, num_present),
            dictionary.len(),
        ),
        PrimitivePredicateReader::<T, P, ColumnValueDecoderImpl<T>>::takes_data(
            before,
            encoding,
            data,
            num_levels,
            num_present,
            after,
            r,
        ),
    ensures
        r == Ok::<(), ParquetError>(()),
        after.in_chunk(),
        reader_answers(after, rows, defs, reps, holds),
        gave_the_same(before, after),
        asks_the_same(before, after),
        is_answered_next(
            after.records().decoder->0,
            page_values(
                page_xs(runs, tail),
                page_count(num_levels, num_present),
                dictionary,
            ),
            holds,
        ),
{
    law_indexed_answers_come_next(
        before.records().decoder->0,
        encoding,
        data,
        num_levels,
        num_present,
        width,
        runs,
        tail,
        dictionary,
        after.records().decoder->0,
        r,
        holds,
    );
    assert(row_validity(after.records()) =~= row_validity(before.records()));
}

/// Behind a plain page a reader of answers has the values next that are written in it, for the
/// predicate to be asked about, and its rows stay.
pub proof fn law_predicate_reader_takes_values<T, P>(
    before: PrimitivePredicateReader<T, P, ColumnValueDecoderImpl<T>>,
    rows: Seq<Option<T::T>>,
    defs: Seq<i16>,
    reps: Seq<i16>,
    data: Bytes,
    num_levels: usize,
    num_present: Option<usize>,
    values: Seq<T::T>,
    after: PrimitivePredicateReader<T, P, ColumnValueDecoderImpl<T>>,
    r: Result<(), ParquetError>,
    holds: spec_fn(T::T) -> Option<bool>,
) where T: DataType, P: PrimitiveDictionaryPredicate
    requires
        reader_answers(before, rows, defs, reps, holds),
        decides::<T, P>(
            before.records().decoder->0.slot(),
            before.records().decoder->0.values_type(),
            holds,
        ),
        writes_plainly::<T>(bytes_content(data), values),
        values.len() == page_count(num_levels, num_present),
        PrimitivePredicateReader::<T, P, ColumnValueDecoderImpl<T>>::takes_data(
            before,
            Encoding::PLAIN,
            data,
            num_levels,
            num_present,
            after,
            r,
        ),
    ensures
        r == Ok::<(), ParquetError>(()),
        after.in_chunk(),
        reader_answers(after, rows, defs, reps, holds),
        gave_the_same(before, after),
        asks_the_same(before, after),
        is_answered_next(after.records().decoder->0, values, holds),
{
    law_plain_answers_come_next(
        before.records().decoder->0,
        data,
        num_levels,
        num_present,
        values,
        after.records().decoder->0,
        r,
        holds,
    );
    assert(row_validity(after.records()) =~= row_validity(before.records()));
}

/// A reader of answers that reads rows has them, with the answers for the values that come next and
/// with their levels, behind those that it had.
pub proof fn law_predicate_reader_reads<T, P>(
    before: PrimitivePredicateReader<T, P, ColumnValueDecoderImpl<T>>,
    rows: Seq<Option<T::T>>,
    defs: Seq<i16>,
    reps: Seq<i16>,
    levels: Levels,
    values: Seq<T::T>,
    after: PrimitivePredicateReader<T, P, ColumnValueDecoderImpl<T>>,
    r: Result<usize, ParquetError>,
    holds: spec_fn(T::T) -> Option<bool>,
) where T: DataType, P: PrimitiveDictionaryPredicate
    requires
        reader_answers(before, rows, defs, reps, holds),
        before.in_chunk(),
        is_answered_next(before.records().decoder->0, values, holds),
        num_values(before.records().column, levels) <= values.len(),
        before.can_read(levels),
        PrimitivePredicateReader::<T, P, ColumnValueDecoderImpl<T>>::reads(
            before,
            levels,
            after,
            r,
        ),
    ensures
        ({
            let column = before.records().column;
            &&& r == Ok::<usize, ParquetError>(num_records(column, levels) as usize)
            &&& reader_answers(
                after,
                rows + told_rows(column, levels, values),
                more_defs(column, defs, levels),
                more_reps(column, reps, levels),
                holds,
            )
            &&& after.in_chunk()
            &&& is_answered_next(
                after.records().decoder->0,
                values.skip(num_values(column, levels) as int),
                holds,
            )
            &&& gave_the_same(before, after)
            &&& asks_the_same(before, after)
        }),
{
    law_answered_rows_are_read(
        before.records(),
        rows,
        defs,
        reps,
        levels,
        values,
        after.records(),
        r,
        holds,
    );
}

/// A reader of answers that skips rows goes on with the value of the row behind them, and keeps the
/// rows that it has.
pub proof fn law_predicate_reader_skips<T, P>(
    before: PrimitivePredicateReader<T, P, ColumnValueDecoderImpl<T>>,
    rows: Seq<Option<T::T>>,
    defs: Seq<i16>,
    reps: Seq<i16>,
    levels: Levels,
    values: Seq<T::T>,
    after: PrimitivePredicateReader<T, P, ColumnValueDecoderImpl<T>>,
    r: Result<usize, ParquetError>,
    holds: spec_fn(T::T) -> Option<bool>,
) where T: DataType, P: PrimitiveDictionaryPredicate
    requires
        reader_answers(before, rows, defs, reps, holds),
        before.in_chunk(),
        is_answered_next(before.records().decoder->0, values, holds),
        num_values(before.records().column, levels) <= values.len(),
        PrimitivePredicateReader::<T, P, ColumnValueDecoderImpl<T>>::skips(
            before,
            levels,
            after,
            r,
        ),
    ensures
        ({
            let column = before.records().column;
            &&& r == Ok::<usize, ParquetError>(num_records(column, levels) as usize)
            &&& reader_answers(after, rows, defs, reps, holds)
            &&& after.in_chunk()
            &&& is_answered_next(
                after.records().decoder->0,
                values.skip(num_values(column, levels) as int),
                holds,
            )
            &&& gave_the_same(before, after)
            &&& asks_the_same(before, after)
        }),
{
    law_answered_rows_are_skipped(before.records(), levels, values, after.records(), r, holds);
    assert(row_validity(after.records()) =~= row_validity(before.records()));
}

/// The batch of a reader of answers says of each row that was read whether it holds a value for
/// which the predicate holds, and the levels of the rows are given out with it. The reader has no
/// rows left.
pub proof fn law_predicate_reader_gives<T, P>(
    before: PrimitivePredicateReader<T, P, ColumnValueDecoderImpl<T>>,
    rows: Seq<Option<T::T>>,
    defs: Seq<i16>,
    reps: Seq<i16>,
    after: PrimitivePredicateReader<T, P, ColumnValueDecoderImpl<T>>,
    r: Result<BooleanArray, ParquetError>,
    holds: spec_fn(T::T) -> Option<bool>,
) where T: DataType, P: PrimitiveDictionaryPredicate
    requires
        reader_answers(before, rows, defs, reps, holds),
        before.records().column.is_optional || before.records().column.max_def_level <= 0,
        PrimitivePredicateReader::<T, P, ColumnValueDecoderImpl<T>>::gives(before, after, r),
    ensures
        before.can_give(),
        r is Ok,
        boolean_array_values(r->Ok_0).len() == rows.len(),
        forall|i: int|
            0 <= i < rows.len() ==> #[trigger] boolean_array_values(r->Ok_0)[i] == Some(
                rows[i] matches Some(value) && holds(value) == Some(true),
            ),
        after.given_defs() == if before.records().column.max_def_level > 0 {
            Some(defs)
        } else {
            None
        },
        after.given_reps() == if before.records().column.max_rep_level > 0 {
            Some(reps)
        } else {
            None
        },
        reader_answers(after, Seq::empty(), Seq::empty(), Seq::empty(), holds),
        after.records().decoder == before.records().decoder,
        asks_the_same(before, after),
{
    law_answers_go_with_their_levels(before, rows, defs, reps, after, r, holds);
}

} // verus!
