//! What becomes of dictionary keys: when rows stay keys, which keys a batch has, and when there is
//! a batch at all.
use arrow_buffer::NullBuffer;
use arrow_schema::DataType as ArrowType;
use vstd::prelude::*;

use crate::arrow::{
    array_len, array_type, dictionary_keys, dictionary_of, dictionary_values, ArrowArray,
};
use crate::batch_laws::holds_rows;
use crate::bits::{lemma_all_set, set_count};
use crate::column::ColumnValueDecoder;
use crate::dictionary::{DictionaryContent, MaybeDictionaryDecoder, PrimitiveDictionaryDecoder};
use crate::errors::{ParquetError, Reason};
use crate::laws::lemma_packed;
use crate::nested::has_empty_array;
use crate::pack::{distinct, lemma_distinct, packed_keys};
use crate::page_laws::{keys_find_values, law_int32_array, law_int64_array};
use crate::reader::{
    batch_nulls, keys_with_values, packs_rows, valid_slots, validity_of, value_type_of,
    DictionaryRecords, DictionaryState, PrimitiveDictionaryReader,
};
use crate::record_reader::given_validity;
use crate::shared::Dictionary;
use crate::types::{DataType, Int32Type, Int64Type};

verus! {

/// A buffer without rows, or whose rows are keys of this very dictionary.
pub open spec fn can_take_keys<A>(
    content: DictionaryContent<A>,
    dictionary: Dictionary<A>,
) -> bool {
    match content {
        DictionaryContent::Dict { keys, dictionary: own } => keys.len() == 0 || own == dictionary,
        DictionaryContent::Values(values) => values.len() == 0,
    }
}

/// Indices of the dictionary that a buffer has keys of are kept as keys, behind the keys that are
/// there: nothing is looked up.
pub proof fn law_indices_become_keys<T, F>(
    before: PrimitiveDictionaryDecoder<T, F>,
    dictionary: Dictionary<T::T>,
    out: DictionaryContent<T::T>,
    n: usize,
    after: PrimitiveDictionaryDecoder<T, F>,
    out_after: DictionaryContent<T::T>,
    r: Result<usize, ParquetError>,
) where T: DataType, F: ColumnValueDecoder<Buffer = Vec<T::T>>
    requires
        before.values() == Some(dictionary),
        before.page() matches Some(MaybeDictionaryDecoder::Dict { .. }),
        can_take_keys(out, dictionary),
        PrimitiveDictionaryDecoder::<T, F>::reads(before, out, n, after, out_after, r),
        r is Ok,
    ensures
        ({
            let xs = before.page()->0->decoder.pending();
            let k = r->Ok_0 as int;
            &&& k <= xs.len()
            &&& out_after matches DictionaryContent::Dict { keys, dictionary: own }
            &&& own == dictionary
            &&& keys.len() == out.len() + k
            &&& out is Dict ==> out->keys == keys.take(out.len() as int)
            &&& forall|i: int|
                0 <= i < k && xs[i] < 0x8000_0000 ==> #[trigger] keys[out.len() + i] == xs[i]
        }),
{
    let kept = out.keys_for(dictionary)->0;
    if out is Dict {
        assert(out->keys =~= out_after->keys.take(out.len() as int));
    }
}

/// Rows of another dictionary, or values, do not become keys: behind them indices are looked up.
pub proof fn law_indices_of_another_dictionary<T, F>(
    before: PrimitiveDictionaryDecoder<T, F>,
    dictionary: Dictionary<T::T>,
    out: DictionaryContent<T::T>,
    n: usize,
    after: PrimitiveDictionaryDecoder<T, F>,
    out_after: DictionaryContent<T::T>,
    r: Result<usize, ParquetError>,
) where T: DataType, F: ColumnValueDecoder<Buffer = Vec<T::T>>
    requires
        before.values() == Some(dictionary),
        before.page() matches Some(MaybeDictionaryDecoder::Dict { .. }),
        !can_take_keys(out, dictionary),
        PrimitiveDictionaryDecoder::<T, F>::reads(before, out, n, after, out_after, r),
        r is Ok,
    ensures
        ({
            let xs = before.page()->0->decoder.pending();
            let k = r->Ok_0 as int;
            &&& out_after matches DictionaryContent::Values(values)
            &&& values.len() == out.len() + k
            &&& values.take(out.len() as int) == out.rows()
            &&& forall|i: int|
                0 <= i < k ==> #[trigger] values[out.len() + i] == dictionary.values[xs[i] as int]
        }),
{
    assert(out.len() == out.rows().len());
    assert(out_after->Values_0.take(out.len() as int) =~= out.rows());
}

/// Plain values turn a buffer of keys into one of values.
pub proof fn law_plain_values_spill<T, F>(
    before: PrimitiveDictionaryDecoder<T, F>,
    out: DictionaryContent<T::T>,
    n: usize,
    after: PrimitiveDictionaryDecoder<T, F>,
    out_after: DictionaryContent<T::T>,
    r: Result<usize, ParquetError>,
) where T: DataType, F: ColumnValueDecoder<Buffer = Vec<T::T>>
    requires
        before.page() matches Some(MaybeDictionaryDecoder::Fallback(_)),
        PrimitiveDictionaryDecoder::<T, F>::reads(before, out, n, after, out_after, r),
    ensures
        out_after is Values,
{
}

/// A row of a batch is null: its column may be null, and it holds no value.
pub open spec fn row_is_null<T, F>(state: DictionaryState<T, F>, i: int) -> bool where
    T: DataType,
    F: ColumnValueDecoder<Buffer = Vec<T::T>>,
 {
    state.column.is_optional && (state.valid matches Some(valid) && !valid[i])
}

proof fn lemma_batch_nulls<T, F>(state: DictionaryState<T, F>) where
    T: DataType,
    F: ColumnValueDecoder<Buffer = Vec<T::T>>,

    requires
        DictionaryRecords::<T, F>::in_step(state),
    ensures
        forall|i: int|
            #![trigger row_is_null(state, i)]
            0 <= i < state.num_values ==> (row_is_null(state, i) <==> (batch_nulls(
                state,
            ) matches Some(valid) && !valid[i])),
{
    if given_validity(state) is Some {
        let valid = given_validity(state)->0;
        assert(valid =~= state.valid->0);
        if set_count(valid) == state.num_values {
            lemma_all_set(valid);
        }
    }
}

/// A batch of rows that are keys has these keys, and null where a row is null. Its values are the
/// whole dictionary.
pub proof fn law_batch_has_its_keys<T, F>(
    data_type: ArrowType,
    before: DictionaryState<T, F>,
    after: DictionaryState<T, F>,
    batch: ArrowArray,
) where T: DataType, F: ColumnValueDecoder<Buffer = Vec<T::T>>
    requires
        DictionaryRecords::<T, F>::in_step(before),
        before.content is Dict,
        before.num_values > 0,
        PrimitiveDictionaryReader::<T, F>::gives_batch(data_type, before, after, Ok(batch)),
    ensures
        T::makes(
            before.content->dictionary.values,
            value_type_of(data_type)->0,
            None,
            Ok(dictionary_values(batch)),
        ),
        dictionary_keys(batch).len() == before.num_values,
        forall|i: int|
            0 <= i < before.num_values ==> #[trigger] dictionary_keys(batch)[i] == if row_is_null(
                before,
                i,
            ) {
                None
            } else {
                Some(before.content->keys[i])
            },
{
    let r = Ok::<ArrowArray, ParquetError>(batch);
    let content: DictionaryContent<T::T> = before.content;
    let nulls = batch_nulls(before);
    lemma_batch_nulls(before);
    let made = choose|made: Result<ArrowArray, ParquetError>| #[trigger]
        T::makes(content->dictionary.values, value_type_of(data_type)->0, None, made)
            && keys_with_values(valid_slots(content->keys, nulls), made, r);
    assert(made is Ok);
    assert(dictionary_values(batch) == made->Ok_0);
    assert forall|i: int| 0 <= i < before.num_values implies #[trigger] dictionary_keys(batch)[i]
        == if row_is_null(before, i) {
        None
    } else {
        Some(content->keys[i])
    } by {
        assert(row_is_null(before, i) || !row_is_null(before, i));
    }
}

/// One of the first `n` rows holds the value.
pub open spec fn is_seen<A>(rows: Seq<Option<A>>, n: int, value: A) -> bool {
    exists|h: int| 0 <= h < n && #[trigger] rows[h] == Some(value)
}

proof fn lemma_seen_in_front<A>(rows: Seq<Option<A>>, n: int, value: A)
    requires
        rows.len() > 0,
        n < rows.len(),
        is_seen(rows.drop_last(), n, value),
    ensures
        is_seen(rows, n, value),
        is_seen(rows, rows.len() as int, value),
{
    let h = choose|h: int| 0 <= h < n && #[trigger] rows.drop_last()[h] == Some(value);
    assert(rows[h] == Some(value));
}

/// Each of the distinct values is that of a row.
pub proof fn law_distinct_values_occur<A>(rows: Seq<Option<A>>, k: int)
    requires
        0 <= k < distinct(rows).len(),
    ensures
        is_seen(rows, rows.len() as int, distinct(rows)[k]),
    decreases rows.len(),
{
    let front = rows.drop_last();
    if k < distinct(front).len() {
        law_distinct_values_occur(front, k);
        assert(distinct(rows)[k] == distinct(front)[k]);
        lemma_seen_in_front(rows, front.len() as int, distinct(rows)[k]);
    } else {
        assert(rows[front.len() as int] == Some(distinct(rows)[k]));
    }
}

/// The distinct values come in the order in which they first occur: a row comes after rows with all
/// the values before its own.
pub proof fn law_distinct_in_order<A>(rows: Seq<Option<A>>, i: int, k: int, j: int)
    requires
        0 <= i < rows.len(),
        0 <= j < k < distinct(rows).len(),
        rows[i] == Some(distinct(rows)[k]),
    ensures
        is_seen(rows, i, distinct(rows)[j]),
    decreases rows.len(),
{
    let front = rows.drop_last();
    let last = front.len() as int;
    let (all, before) = (distinct(rows), distinct(front));
    assert(j < before.len() && all[j] == before[j]);
    if i < last {
        lemma_distinct(front);
        lemma_distinct(rows);
        assert(front[i] == rows[i]);
        assert(before.contains(all[k]));
        let m = choose|m: int| 0 <= m < before.len() && before[m] == all[k];
        assert(all[m] == all[k]);
        assert(m == k);
        law_distinct_in_order(front, i, k, j);
        lemma_seen_in_front(rows, i, all[j]);
    } else {
        law_distinct_values_occur(front, j);
        lemma_seen_in_front(rows, last, all[j]);
    }
}

/// The key of a packed row finds the value of the row, and no other key does.
proof fn lemma_packed_key<A>(slots: Seq<Option<A>>, i: int)
    requires
        distinct(slots).len() <= 0x8000_0000,
        0 <= i < slots.len(),
    ensures
        packed_keys(slots)[i] is Some <==> slots[i] is Some,
        packed_keys(slots)[i] matches Some(key) ==> {
            &&& 0 <= key < distinct(slots).len()
            &&& slots[i] == Some(distinct(slots)[key as int])
            &&& forall|k: int|
                0 <= k < distinct(slots).len() && #[trigger] distinct(slots)[k] == slots[i]->0
                    ==> k == key
        },
{
    lemma_packed(slots);
    lemma_distinct(slots);
    assert(packed_keys(slots)[i] is Some || packed_keys(slots)[i] is None);
}

/// Packed rows get keys in the order in which their values first occur.
proof fn lemma_packed_order<A>(slots: Seq<Option<A>>)
    requires
        distinct(slots).len() <= 0x8000_0000,
    ensures
        in_order(packed_keys(slots), distinct(slots).len()),
{
    let table = distinct(slots);
    let keys = packed_keys(slots);
    assert forall|i: int| 0 <= i < keys.len() implies (#[trigger] keys[i] matches Some(key)
        ==> follows(keys, i, key)) by {
        lemma_packed_key(slots, i);
        if keys[i] is Some && keys[i]->0 != 0 {
            let key = keys[i]->0 as int;
            law_distinct_in_order(slots, i, key, key - 1);
            let h = choose|h: int| 0 <= h < i && #[trigger] slots[h] == Some(table[key - 1]);
            lemma_packed_key(slots, h);
            assert(keys[h] == Some((keys[i]->0 - 1) as i32));
        }
    }
    assert forall|k: int| 0 <= k < table.len() implies #[trigger] occurs(keys, k) by {
        law_distinct_values_occur(slots, k);
        let i = choose|i: int| 0 <= i < slots.len() && #[trigger] slots[i] == Some(table[k]);
        lemma_packed_key(slots, i);
        assert(keys[i] == Some(k as i32));
    }
}

/// A key is zero, or the key before it stands in an earlier row.
pub open spec fn follows(keys: Seq<Option<i32>>, i: int, key: i32) -> bool {
    key == 0 || exists|h: int| 0 <= h < i && #[trigger] keys[h] == Some((key - 1) as i32)
}

/// A row has the key.
pub open spec fn occurs(keys: Seq<Option<i32>>, key: int) -> bool {
    exists|i: int| 0 <= i < keys.len() && #[trigger] keys[i] == Some(key as i32)
}

/// The keys count up from zero in the order of the rows, and each of `len` keys has a row.
pub open spec fn in_order(keys: Seq<Option<i32>>, len: nat) -> bool {
    &&& forall|i: int|
        0 <= i < keys.len() ==> (#[trigger] keys[i] matches Some(key) ==> follows(keys, i, key))
    &&& forall|k: int| 0 <= k < len ==> #[trigger] occurs(keys, k)
}

/// A batch of rows that are values gets keys in the order in which the values first occur: a key is
/// zero or comes after the key before it, and equal values have equal keys. Every value of its
/// dictionary is that of a row.
pub proof fn law_packed_batch_in_order<T, F>(
    data_type: ArrowType,
    before: DictionaryState<T, F>,
    after: DictionaryState<T, F>,
    batch: ArrowArray,
) where T: DataType, F: ColumnValueDecoder<Buffer = Vec<T::T>>
    requires
        DictionaryRecords::<T, F>::in_step(before),
        before.content is Values,
        before.num_values > 0,
        PrimitiveDictionaryReader::<T, F>::gives_batch(data_type, before, after, Ok(batch)),
    ensures
        ({
            let keys = dictionary_keys(batch);
            let values = before.content->Values_0;
            &&& keys.len() == before.num_values
            &&& forall|i: int|
                0 <= i < keys.len() ==> (#[trigger] keys[i] is None <==> row_is_null(before, i))
            &&& forall|i: int, j: int|
                0 <= i < keys.len() && 0 <= j < keys.len() && keys[i] is Some && keys[j] is Some
                    ==> (#[trigger] keys[i] == #[trigger] keys[j] <==> values[i] == values[j])
            &&& in_order(keys, array_len(dictionary_values(batch)))
        }),
{
    let r = Ok::<ArrowArray, ParquetError>(batch);
    let content: DictionaryContent<T::T> = before.content;
    let values = content->Values_0;
    let valid = batch_nulls(before);
    let value_type = value_type_of(data_type)->0;
    let slots = valid_slots(values, valid);
    let keys = dictionary_keys(batch);
    let (nulls, whole) = choose|
        nulls: Option<NullBuffer>,
        whole: Result<ArrowArray, ParquetError>,
    | #[trigger]
        T::makes(values, value_type, nulls, whole) && validity_of(nulls) == valid
            && packs_rows::<T>(values, value_type, valid, whole, r);
    let made = choose|made: Result<ArrowArray, ParquetError>| #[trigger]
        T::makes(distinct(slots), value_type, None, made) && keys_with_values(
            packed_keys(slots),
            made,
            r,
        );
    T::lemma_makes(distinct(slots), value_type, None, made);
    lemma_batch_nulls(before);
    lemma_packed_order(slots);
    assert(keys == packed_keys(slots));
    assert(slots.len() == before.num_values);
    assert forall|i: int| 0 <= i < keys.len() implies (#[trigger] keys[i] is None
        <==> row_is_null(before, i)) by {
        lemma_packed_key(slots, i);
    }
    assert forall|i: int, j: int|
        0 <= i < keys.len() && 0 <= j < keys.len() && keys[i] is Some && keys[j] is Some implies (
    #[trigger] keys[i] == #[trigger] keys[j] <==> values[i] == values[j]) by {
        lemma_packed_key(slots, i);
        lemma_packed_key(slots, j);
    }
}

/// Rows of 64-bit integers make a batch, as long as no key points past the dictionary and there are
/// not more rows than keys.
pub proof fn law_int64_batch_is_made<F>(
    data_type: ArrowType,
    before: DictionaryState<Int64Type, F>,
    rows: Seq<Option<i64>>,
    after: DictionaryState<Int64Type, F>,
    r: Result<ArrowArray, ParquetError>,
) where F: ColumnValueDecoder<Buffer = Vec<<Int64Type as DataType>::T>>
    requires
        holds_rows(before, rows),
        keys_find_values(before.content),
        rows.len() <= 0x8000_0000,
        value_type_of(data_type) == Some(ArrowType::Int64),
        PrimitiveDictionaryReader::<Int64Type, F>::gives_batch(data_type, before, after, r),
    ensures
        r is Ok,
{
    if before.num_values > 0 {
        let content: DictionaryContent<i64> = before.content;
        let valid = batch_nulls(before);
        match content {
            DictionaryContent::Dict { keys, dictionary } => {
                let made = choose|made: Result<ArrowArray, ParquetError>| #[trigger]
                    Int64Type::makes(dictionary.values, ArrowType::Int64, None, made)
                        && keys_with_values(valid_slots(keys, valid), made, r);
                law_int64_array(dictionary.values, ArrowType::Int64, made);
                let slots = valid_slots(keys, valid);
                assert forall|i: int|
                    0 <= i < slots.len() implies (#[trigger] slots[i] matches Some(k)
                    ==> 0 <= k < dictionary.values.len()) by {
                    assert(0 <= content->keys[i] < dictionary.values.len());
                }
            },
            DictionaryContent::Values(values) => {
                let slots = valid_slots(values, valid);
                lemma_distinct(slots);
                lemma_packed(slots);
                let (nulls, whole) = choose|
                    nulls: Option<NullBuffer>,
                    whole: Result<ArrowArray, ParquetError>,
                | #[trigger]
                    Int64Type::makes(values, ArrowType::Int64, nulls, whole) && validity_of(nulls)
                        == valid && packs_rows::<Int64Type>(
                        values,
                        ArrowType::Int64,
                        valid,
                        whole,
                        r,
                    );
                let made = choose|made: Result<ArrowArray, ParquetError>| #[trigger]
                    Int64Type::makes(distinct(slots), ArrowType::Int64, None, made)
                        && keys_with_values(packed_keys(slots), made, r);
                law_int64_array(distinct(slots), ArrowType::Int64, made);
            },
        }
    }
}

/// Rows of 32-bit integers make a batch, as long as no key points past the dictionary and there are
/// not more rows than keys.
pub proof fn law_int32_batch_is_made<F>(
    data_type: ArrowType,
    before: DictionaryState<Int32Type, F>,
    rows: Seq<Option<i32>>,
    after: DictionaryState<Int32Type, F>,
    r: Result<ArrowArray, ParquetError>,
) where F: ColumnValueDecoder<Buffer = Vec<<Int32Type as DataType>::T>>
    requires
        holds_rows(before, rows),
        keys_find_values(before.content),
        rows.len() <= 0x8000_0000,
        value_type_of(data_type) == Some(ArrowType::Int32),
        PrimitiveDictionaryReader::<Int32Type, F>::gives_batch(data_type, before, after, r),
    ensures
        r is Ok,
{
    if before.num_values > 0 {
        let content: DictionaryContent<i32> = before.content;
        let valid = batch_nulls(before);
        match content {
            DictionaryContent::Dict { keys, dictionary } => {
                let made = choose|made: Result<ArrowArray, ParquetError>| #[trigger]
                    Int32Type::makes(dictionary.values, ArrowType::Int32, None, made)
                        && keys_with_values(valid_slots(keys, valid), made, r);
                law_int32_array(dictionary.values, ArrowType::Int32, made);
                let slots = valid_slots(keys, valid);
                assert forall|i: int|
                    0 <= i < slots.len() implies (#[trigger] slots[i] matches Some(k)
                    ==> 0 <= k < dictionary.values.len()) by {
                    assert(0 <= content->keys[i] < dictionary.values.len());
                }
            },
            DictionaryContent::Values(values) => {
                let slots = valid_slots(values, valid);
                lemma_distinct(slots);
                lemma_packed(slots);
                let (nulls, whole) = choose|
                    nulls: Option<NullBuffer>,
                    whole: Result<ArrowArray, ParquetError>,
                | #[trigger]
                    Int32Type::makes(values, ArrowType::Int32, nulls, whole) && validity_of(nulls)
                        == valid && packs_rows::<Int32Type>(
                        values,
                        ArrowType::Int32,
                        valid,
                        whole,
                        r,
                    );
                let made = choose|made: Result<ArrowArray, ParquetError>| #[trigger]
                    Int32Type::makes(distinct(slots), ArrowType::Int32, None, made)
                        && keys_with_values(packed_keys(slots), made, r);
                law_int32_array(distinct(slots), ArrowType::Int32, made);
            },
        }
    }
}

/// A key of a row that is not null and points past the dictionary is found when the batch is made.
pub proof fn law_stray_key_is_refused<T, F>(
    data_type: ArrowType,
    before: DictionaryState<T, F>,
    after: DictionaryState<T, F>,
    r: Result<ArrowArray, ParquetError>,
    row: int,
) where T: DataType, F: ColumnValueDecoder<Buffer = Vec<T::T>>
    requires
        DictionaryRecords::<T, F>::in_step(before),
        before.content is Dict,
        0 <= row < before.num_values,
        !row_is_null(before, row),
        !(0 <= before.content->keys[row] < before.content->dictionary.values.len()),
        PrimitiveDictionaryReader::<T, F>::gives_batch(data_type, before, after, r),
    ensures
        r is Err,
{
    let content: DictionaryContent<T::T> = before.content;
    let valid = batch_nulls(before);
    let values = content->dictionary.values;
    let value_type = value_type_of(data_type)->0;
    lemma_batch_nulls(before);
    let made = choose|made: Result<ArrowArray, ParquetError>| #[trigger]
        T::makes(values, value_type, None, made) && keys_with_values(
            valid_slots(content->keys, valid),
            made,
            r,
        );
    if made is Ok {
        T::lemma_makes(values, value_type, None, made);
        let slots = valid_slots(content->keys, valid);
        assert(slots[row] == Some(content->keys[row]));
    }
}

/// A reader that holds rows can give a batch of them, and one of integers can give a batch when it
/// holds none, too.
pub proof fn law_batch_is_ready<T, F>(
    reader: PrimitiveDictionaryReader<T, F>,
    rows: Seq<Option<T::T>>,
) where T: DataType, F: ColumnValueDecoder<Buffer = Vec<T::T>>
    requires
        holds_rows(reader.records(), rows),
        rows.len() == 0 ==> reader.arrays_type() == dictionary_of(ArrowType::Int32)
            || reader.arrays_type() == dictionary_of(ArrowType::Int64),
    ensures
        reader.can_give_batch(),
{
    reveal_with_fuel(has_empty_array, 3);
}

/// Indices of the dictionary that a buffer has keys of can be read, wherever they and the keys
/// point: a key that points nowhere is found when the batch is made.
pub proof fn law_keys_are_ready<T, F>(
    decoder: PrimitiveDictionaryDecoder<T, F>,
    dictionary: Dictionary<T::T>,
    out: DictionaryContent<T::T>,
    n: usize,
) where T: DataType, F: ColumnValueDecoder<Buffer = Vec<T::T>>
    requires
        decoder.values() == Some(dictionary),
        decoder.page() matches Some(MaybeDictionaryDecoder::Dict { .. }),
        can_take_keys(out, dictionary),
        out.len() + n <= usize::MAX,
    ensures
        decoder.can_read(out, n),
{
}

/// A batch has 32-bit keys and the values of the type that was asked for, whatever key type was.
pub proof fn law_batch_type<T, F>(
    data_type: ArrowType,
    before: DictionaryState<T, F>,
    after: DictionaryState<T, F>,
    batch: ArrowArray,
) where T: DataType, F: ColumnValueDecoder<Buffer = Vec<T::T>>
    requires
        before.num_values > 0,
        value_type_of(data_type) is Some,
        PrimitiveDictionaryReader::<T, F>::gives_batch(data_type, before, after, Ok(batch)),
    ensures
        array_type(batch) == ArrowType::Dictionary(
            Box::new(ArrowType::Int32),
            Box::new(value_type_of(data_type)->0),
        ),
{
}

/// Integers make no batch of another type.
pub proof fn law_wrong_value_type<F, G>(
    data_type: ArrowType,
    before: DictionaryState<Int64Type, F>,
    after: DictionaryState<Int64Type, F>,
    r: Result<ArrowArray, ParquetError>,
    narrow_type: ArrowType,
    narrow_before: DictionaryState<Int32Type, G>,
    narrow_after: DictionaryState<Int32Type, G>,
    narrow_r: Result<ArrowArray, ParquetError>,
) where
    F: ColumnValueDecoder<Buffer = Vec<<Int64Type as DataType>::T>>,
    G: ColumnValueDecoder<Buffer = Vec<<Int32Type as DataType>::T>>,

    requires
        before.num_values > 0,
        value_type_of(data_type)->0 != ArrowType::Int64,
        PrimitiveDictionaryReader::<Int64Type, F>::gives_batch(data_type, before, after, r),
        narrow_before.num_values > 0,
        value_type_of(narrow_type)->0 != ArrowType::Int32,
        PrimitiveDictionaryReader::<Int32Type, G>::gives_batch(
            narrow_type,
            narrow_before,
            narrow_after,
            narrow_r,
        ),
    ensures
        r == Err::<ArrowArray, ParquetError>(ParquetError::General(Reason::ValueType)),
        narrow_r == Err::<ArrowArray, ParquetError>(ParquetError::General(Reason::ValueType)),
{
}

} // verus!
