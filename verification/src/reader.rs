//! Reading a column batch by batch: as the answers of a predicate, or as a dictionary array.
use arrow_array::BooleanArray;
use arrow_buffer::{BooleanBuffer, NullBuffer};
use arrow_schema::DataType as ArrowType;
use bytes::Bytes;
use std::sync::Arc;
use vstd::prelude::*;

use crate::arrow::{
    array_len, array_type, boolean_array_values, boolean_buffer, boolean_buffer_bits,
    boolean_buffer_bytes, buffer_bytes, dictionary_array, dictionary_keys, dictionary_of,
    dictionary_values, empty_array, key_array, keys_point_into, masked,
    null_buffer, null_buffer_bits, ArrowArray,
};
use crate::asked::Kept;
use crate::bits::{lemma_rank_full_run, scattered, set_count, unpacked};
use crate::column::{ColumnDescPtr, ColumnValueDecoder};
use crate::dictionary::{DictionaryContent, PrimitiveDictionaryBuffer, PrimitiveDictionaryDecoder};
use crate::errors::{Encoding, ParquetError, Reason};
use crate::filter::{filter_rows, rows_of_buffer};
use crate::nested::{check_empty_array, has_empty_array};
use crate::pack::{distinct, pack, packed_keys};
use crate::predicate::{
    PrimitiveDictionaryPredicate, PrimitivePredicateBuffer, PrimitivePredicateDecoder,
};
use crate::record_reader::{
    elements, emptied, given_validity, starts_empty, validity_covers, GenericRecordReader, Levels,
    RecordState,
};
use crate::types::{nulls_fit, ColumnDescriptor, DataType};

verus! {

/// What a record reader holds once a batch has been taken from it and before it forgets the rows.
pub open spec fn consumed<C, D>(before: RecordState<C, D>, content: C) -> RecordState<C, D> {
    RecordState {
        content,
        def_levels: emptied(before.def_levels),
        rep_levels: emptied(before.rep_levels),
        valid: emptied(before.valid),
        ..before
    }
}

/// The rows of a batch that are not null.
pub open spec fn batch_validity<C, D>(state: RecordState<C, D>) -> Seq<bool> {
    match given_validity(state) {
        Some(valid) => valid,
        None => Seq::new(state.num_values, |i: int| true),
    }
}

/// The validity of a batch that has null rows.
pub open spec fn batch_nulls<C, D>(state: RecordState<C, D>) -> Option<Seq<bool>> {
    match given_validity(state) {
        Some(valid) => if set_count(valid) == state.num_values {
            None
        } else {
            Some(valid)
        },
        None => None,
    }
}

/// The elements of levels that may be missing.
pub open spec fn slice_elements(levels: Option<&[i16]>) -> Option<Seq<i16>> {
    match levels {
        Some(levels) => Some(levels@),
        None => None,
    }
}

fn as_deref(levels: &Option<Vec<i16>>) -> (r: Option<&[i16]>)
    ensures
        slice_elements(r) == elements(*levels),
{
    match levels {
        Some(levels) => Some(levels.as_slice()),
        None => None,
    }
}

/// The record reader of a `PrimitivePredicateReader`.
pub type PredicateRecords<T, P, F> = GenericRecordReader<
    PrimitivePredicateBuffer,
    PrimitivePredicateDecoder<T, P, F>,
>;

/// What the record reader of a `PrimitivePredicateReader` holds.
pub type PredicateState<T, P, F> = RecordState<Seq<u8>, PrimitivePredicateDecoder<T, P, F>>;

/// Reads a column as the answers of a predicate.
pub struct PrimitivePredicateReader<
    T: DataType,
    P: PrimitiveDictionaryPredicate,
    F: ColumnValueDecoder<Buffer = Vec<T::T>>,
> {
    value_type: ArrowType,
    predicate: Kept<P>,
    def_levels_buffer: Option<Vec<i16>>,
    rep_levels_buffer: Option<Vec<i16>>,
    record_reader: PredicateRecords<T, P, F>,
}

impl<
    T: DataType,
    P: PrimitiveDictionaryPredicate,
    F: ColumnValueDecoder<Buffer = Vec<T::T>>,
> PrimitivePredicateReader<T, P, F> {
    /// The reader is valid.
    pub closed spec fn wf(self) -> bool {
        self.record_reader.wf()
    }

    /// The type that the predicate gets the values in.
    pub closed spec fn values_type(self) -> ArrowType {
        self.value_type
    }

    /// The predicate.
    pub closed spec fn asks(self) -> P {
        self.predicate.predicate()
    }

    /// The definition levels of the batch that was consumed last.
    pub closed spec fn def_levels(self) -> Option<Seq<i16>> {
        elements(self.def_levels_buffer)
    }

    /// The repetition levels of the batch that was consumed last.
    pub closed spec fn rep_levels(self) -> Option<Seq<i16>> {
        elements(self.rep_levels_buffer)
    }

    /// The rows that have been read and not been consumed.
    pub closed spec fn records(self) -> PredicateState<T, P, F> {
        self.record_reader@
    }

    /// The reader has just been made: it has no rows, and no column chunk to read from.
    pub open spec fn is_new(
        self,
        column: ColumnDescriptor,
        value_type: ArrowType,
        predicate: P,
    ) -> bool {
        &&& self.values_type() == value_type
        &&& self.asks() == predicate
        &&& self.def_levels() is None
        &&& self.rep_levels() is None
        &&& starts_empty(self.records(), column)
        &&& self.records().content.len() == 0
    }

    /// Everything but the rows is as in `other`.
    pub open spec fn same_setup(self, other: Self) -> bool {
        &&& self.values_type() == other.values_type()
        &&& self.asks() == other.asks()
        &&& self.def_levels() == other.def_levels()
        &&& self.rep_levels() == other.rep_levels()
    }

    /// The column that is read.
    pub fn column(&self) -> (r: &ColumnDescPtr)
        ensures
            **r == self.records().column,
    {
        self.record_reader.column()
    }

    /// Whether a column chunk has been started.
    pub fn has_chunk(&self) -> (r: bool)
        ensures
            r == self.records().decoder is Some,
    {
        self.record_reader.has_chunk()
    }

    /// Whether the rows of `levels` can be passed over.
    pub fn check_skip(&self, levels: &Levels) -> (r: bool)
        ensures
            r == PredicateRecords::<T, P, F>::can_skip_rows(self.records(), *levels),
    {
        self.record_reader.check_skip(levels)
    }

    /// The arrays are boolean.
    pub fn get_data_type(&self) -> (r: ArrowType)
        ensures
            r == ArrowType::Boolean,
    {
        ArrowType::Boolean
    }

    /// The arrays are answers of a predicate.
    pub fn is_predicate_result(&self) -> (r: bool)
        ensures
            r,
    {
        true
    }

    /// The definition levels of the batch that was consumed last.
    pub fn get_def_levels(&self) -> (r: Option<&[i16]>)
        ensures
            slice_elements(r) == self.def_levels(),
    {
        as_deref(&self.def_levels_buffer)
    }

    /// The repetition levels of the batch that was consumed last.
    pub fn get_rep_levels(&self) -> (r: Option<&[i16]>)
        ensures
            slice_elements(r) == self.rep_levels(),
    {
        as_deref(&self.rep_levels_buffer)
    }

    /// What going on with another column chunk does. The rows stay. The decoder has the predicate,
    /// has asked it nothing, and has neither a dictionary nor a page.
    pub open spec fn starts_chunk(before: Self, after: Self) -> bool {
        &&& after.same_setup(before)
        &&& after.records() == (RecordState {
            decoder: after.records().decoder,
            ..before.records()
        })
        &&& after.records().decoder matches Some(d)
        &&& d.column() == before.records().column
        &&& d.values_type() == before.values_type()
        &&& d.slot() is Configured
        &&& *d.slot()->Configured_0 == before.asks()
        &&& d.asked() == Seq::<ArrowArray>::empty()
        &&& d.mask() is None
        &&& d.page() is None
    }

    /// Goes on with another column chunk. Its decoder has the predicate, has asked it nothing and
    /// has no dictionary yet.
    pub fn start_chunk(&mut self)
        requires
            old(self).wf(),
        ensures
            final(self).wf(),
            Self::starts_chunk(*old(self), *final(self)),
    {
        let decoder = PrimitivePredicateDecoder::<T, P, F>::with_asked(
            Arc::clone(self.record_reader.column()),
            self.value_type.clone(),
            self.predicate.share(),
        );
        self.record_reader.start_chunk(decoder);
    }

    /// Takes the dictionary page of the column chunk.
    pub fn set_dict(&mut self, buf: Bytes, num_values: u32, encoding: Encoding, is_sorted: bool)
        -> (r: Result<(), ParquetError>)
        requires
            old(self).wf(),
            old(self).records().decoder is Some,
        ensures
            final(self).wf(),
            final(self).same_setup(*old(self)),
            exists|next: PrimitivePredicateDecoder<T, P, F>| #[trigger]
                PrimitivePredicateDecoder::<T, P, F>::sets_dict(
                    old(self).records().decoder->0,
                    buf,
                    num_values,
                    encoding,
                    next,
                    r,
                ) && final(self).records() == (RecordState {
                    decoder: Some(next),
                    ..old(self).records()
                }),
    {
        self.record_reader.set_dict(buf, num_values, encoding, is_sorted)
    }

    /// Whether the bytes can be taken as a data page.
    pub fn check_data(&self, encoding: Encoding, data: &Bytes) -> (r: bool)
        ensures
            r == PrimitivePredicateDecoder::<T, P, F>::takes_data(encoding, *data),
    {
        PrimitivePredicateDecoder::<T, P, F>::check_data(encoding, data)
    }

    /// Takes a data page of the column chunk.
    pub fn set_data(
        &mut self,
        encoding: Encoding,
        data: Bytes,
        num_levels: usize,
        num_values: Option<usize>,
    ) -> (r: Result<(), ParquetError>)
        requires
            old(self).wf(),
            old(self).records().decoder is Some,
            PrimitivePredicateDecoder::<T, P, F>::takes_data(encoding, data),
        ensures
            final(self).wf(),
            final(self).same_setup(*old(self)),
            exists|next: PrimitivePredicateDecoder<T, P, F>| #[trigger]
                PrimitivePredicateDecoder::<T, P, F>::sets_data(
                    old(self).records().decoder->0,
                    encoding,
                    data,
                    num_levels,
                    num_values,
                    next,
                    r,
                ) && final(self).records() == (RecordState {
                    decoder: Some(next),
                    ..old(self).records()
                }),
    {
        self.record_reader.set_data(encoding, data, num_levels, num_values)
    }

    /// Whether the rows of `levels` can be read.
    pub fn check_records(&self, levels: &Levels) -> (r: bool)
        requires
            self.wf(),
        ensures
            r == PredicateRecords::<T, P, F>::can_read_rows(self.records(), *levels),
    {
        self.record_reader.check_rows(levels)
    }

    /// Reads the rows of `levels`. Gives how many records start among them.
    pub fn read_records(&mut self, levels: &Levels) -> (r: Result<usize, ParquetError>)
        requires
            old(self).wf(),
            PredicateRecords::<T, P, F>::can_read_rows(old(self).records(), *levels),
        ensures
            final(self).wf(),
            final(self).same_setup(*old(self)),
            PredicateRecords::<T, P, F>::reads_rows(
                old(self).records(),
                *levels,
                final(self).records(),
                r,
            ),
            r is Ok && PredicateRecords::<T, P, F>::in_step(old(self).records())
                ==> PredicateRecords::<T, P, F>::in_step(final(self).records()),
            r is Ok && PredicateRecords::<T, P, F>::is_complete(old(self).records())
                ==> PredicateRecords::<T, P, F>::is_complete(final(self).records()),
    {
        self.record_reader.read_rows(levels)
    }

    /// Passes over the rows of `levels`. Gives how many records start among them.
    pub fn skip_records(&mut self, levels: &Levels) -> (r: Result<usize, ParquetError>)
        requires
            old(self).wf(),
            PredicateRecords::<T, P, F>::can_skip_rows(old(self).records(), *levels),
        ensures
            final(self).wf(),
            final(self).same_setup(*old(self)),
            PredicateRecords::<T, P, F>::skips_rows(
                old(self).records(),
                *levels,
                final(self).records(),
                r,
            ),
    {
        self.record_reader.skip_rows(levels)
    }

    /// Whether a batch can be consumed: the validity that it gets has to have a bit for every row.
    pub fn check_batch(&self) -> (r: bool)
        requires
            self.wf(),
        ensures
            r == validity_covers(self.records()),
    {
        self.record_reader.check_validity()
    }

    /// What consuming a batch of `before` gives: a slot for each row, `false` for a null row and
    /// the answer of the predicate for another. It fails when there is not an answer for each row
    /// that is not null.
    pub open spec fn gives_batch(
        before: PredicateState<T, P, F>,
        after: PredicateState<T, P, F>,
        r: Result<BooleanArray, ParquetError>,
    ) -> bool {
        let validity = batch_validity(before);
        if before.content.len() == set_count(validity) {
            &&& r matches Ok(batch)
            &&& boolean_array_values(batch) == scattered(validity, before.content).map_values(
                |b: bool| Some(b),
            )
            &&& PredicateRecords::<T, P, F>::is_reset(before, after)
        } else {
            &&& r == Err::<BooleanArray, ParquetError>(
                ParquetError::General(
                    Reason::CompactLength {
                        decoded: before.content.len() as usize,
                        expected: set_count(validity) as usize,
                        levels: before.num_values as usize,
                    },
                ),
            )
            &&& after == consumed(before, Seq::empty())
        }
    }

    /// The levels that are given out once a batch has been consumed are those of its rows.
    pub open spec fn gives_levels(before: Self, after: Self) -> bool {
        &&& after.def_levels() == before.records().def_levels
        &&& after.rep_levels() == before.records().rep_levels
    }

    /// Takes the rows that have been read as an array.
    pub fn consume_batch(&mut self) -> (r: Result<BooleanArray, ParquetError>)
        requires
            old(self).wf(),
            validity_covers(old(self).records()),
        ensures
            final(self).wf(),
            final(self).values_type() == old(self).values_type(),
            final(self).asks() == old(self).asks(),
            Self::gives_levels(*old(self), *final(self)),
            Self::gives_batch(old(self).records(), final(self).records(), r),
    {
        let ghost before = self.records();
        let num_values: usize = self.record_reader.num_values();
        self.def_levels_buffer = self.record_reader.consume_def_levels();
        self.rep_levels_buffer = self.record_reader.consume_rep_levels();
        let validity: Option<BooleanBuffer> = match self.record_reader.consume_bitmap_buffer() {
            Some(buffer) => Some(boolean_buffer(buffer, 0, num_values)),
            None => None,
        };
        let compact_values = self.record_reader.consume_record_data().into_values();

        let ghost rows = batch_validity(before);
        proof {
            if validity is Some {
                let b = validity->0;
                assert(unpacked(boolean_buffer_bytes(b), num_values as nat).skip(0) =~= rows);
                assert(boolean_buffer_bits(b) == rows);
            } else {
                lemma_rank_full_run(rows, num_values as int);
            }
        }
        let expected_values: usize = match &validity {
            Some(buffer) => buffer.count_set_bits(),
            None => num_values,
        };
        if compact_values.len() != expected_values {
            proof {
                assert(self.records().content =~= Seq::empty());
            }
            return Err(
                ParquetError::General(
                    Reason::CompactLength {
                        decoded: compact_values.len(),
                        expected: expected_values,
                        levels: num_values,
                    },
                ),
            );
        }
        let valid: Option<&BooleanBuffer> = validity.as_ref();
        proof {
            assert(rows_of_buffer(valid, num_values as nat) =~= rows);
        }
        let batch = filter_rows(valid, &compact_values, num_values);
        self.record_reader.reset();
        Ok(batch)
    }
}

/// A reader of the answers of `predicate` to the values of a column, in arrays of `value_type`.
pub fn make_primitive_predicate_reader<T, P, F>(
    column_desc: ColumnDescPtr,
    value_type: ArrowType,
    batch_size: usize,
    predicate: Arc<P>,
) -> (r: Result<PrimitivePredicateReader<T, P, F>, ParquetError>) where
    T: DataType,
    P: PrimitiveDictionaryPredicate,
    F: ColumnValueDecoder<Buffer = Vec<T::T>>,

    ensures
        r matches Ok(reader) && {
            &&& reader.wf()
            &&& reader.is_new(*column_desc, value_type, *predicate)
        },
{
    Ok(
        PrimitivePredicateReader {
            value_type,
            predicate: Kept::new(predicate),
            def_levels_buffer: None,
            rep_levels_buffer: None,
            record_reader: GenericRecordReader::new(column_desc, batch_size),
        },
    )
}

/// The record reader of a `PrimitiveDictionaryReader`.
pub type DictionaryRecords<T, F> = GenericRecordReader<
    PrimitiveDictionaryBuffer<T>,
    PrimitiveDictionaryDecoder<T, F>,
>;

/// What the record reader of a `PrimitiveDictionaryReader` holds.
pub type DictionaryState<T, F> = RecordState<
    DictionaryContent<<T as DataType>::T>,
    PrimitiveDictionaryDecoder<T, F>,
>;

/// `r` is the dictionary array of `keys` and the array that was made of the values: the error that
/// making it ended in, or an error where a key points past the values.
pub open spec fn keys_with_values(
    keys: Seq<Option<i32>>,
    made: Result<ArrowArray, ParquetError>,
    r: Result<ArrowArray, ParquetError>,
) -> bool {
    match made {
        Ok(values) => if keys_point_into(keys, array_len(values)) {
            &&& r matches Ok(batch)
            &&& array_len(batch) == keys.len()
            &&& dictionary_keys(batch) == keys
            &&& dictionary_values(batch) == values
            &&& array_type(batch) == dictionary_of(array_type(values))
        } else {
            r matches Err(ParquetError::External(_))
        },
        Err(e) => r == Err::<ArrowArray, ParquetError>(e),
    }
}

/// The values of the valid rows, `None` for the others. Without a validity all rows are valid.
pub open spec fn valid_slots<A>(values: Seq<A>, valid: Option<Seq<bool>>) -> Seq<Option<A>> {
    Seq::new(
        values.len(),
        |i: int|
            match valid {
                Some(valid) => if valid[i] {
                    Some(values[i])
                } else {
                    None
                },
                None => Some(values[i]),
            },
    )
}

/// The rows that a null buffer leaves valid.
pub open spec fn validity_of(nulls: Option<NullBuffer>) -> Option<Seq<bool>> {
    match nulls {
        Some(nulls) => Some(null_buffer_bits(nulls)),
        None => None,
    }
}

/// `r` is the dictionary array of rows that get a dictionary: their array is made, and packed.
pub open spec fn packs_rows<T: DataType>(
    rows: Seq<T::T>,
    value_type: ArrowType,
    valid: Option<Seq<bool>>,
    whole: Result<ArrowArray, ParquetError>,
    r: Result<ArrowArray, ParquetError>,
) -> bool {
    let slots = valid_slots(rows, valid);
    match whole {
        Err(e) => r == Err::<ArrowArray, ParquetError>(e),
        Ok(_) => if distinct(slots).len() > 0x8000_0000 {
            r == Err::<ArrowArray, ParquetError>(ParquetError::General(Reason::KeyOverflow))
        } else {
            exists|made: Result<ArrowArray, ParquetError>| #[trigger]
                T::makes(distinct(slots), value_type, None, made) && keys_with_values(
                    packed_keys(slots),
                    made,
                    r,
                )
        },
    }
}

/// `r` is the dictionary array of a buffer. Keys keep their dictionary; values get one.
pub open spec fn is_batch_of<T: DataType>(
    content: DictionaryContent<T::T>,
    value_type: ArrowType,
    valid: Option<Seq<bool>>,
    r: Result<ArrowArray, ParquetError>,
) -> bool {
    match content {
        DictionaryContent::Dict { keys, dictionary } => exists|
            made: Result<ArrowArray, ParquetError>,
        | #[trigger]
            T::makes(dictionary.values, value_type, None, made) && keys_with_values(
                valid_slots(keys, valid),
                made,
                r,
            ),
        DictionaryContent::Values(rows) => exists|
            nulls: Option<NullBuffer>,
            whole: Result<ArrowArray, ParquetError>,
        | #[trigger]
            T::makes(rows, value_type, nulls, whole) && validity_of(nulls) == valid
                && packs_rows::<T>(rows, value_type, valid, whole, r),
    }
}

/// The dictionary array of keys and the array that was made of the values.
pub fn join_keys(
    keys: Vec<i32>,
    nulls: Option<NullBuffer>,
    made: Result<ArrowArray, ParquetError>,
) -> (r: Result<ArrowArray, ParquetError>)
    requires
        nulls_fit(nulls, keys@.len()),
    ensures
        keys_with_values(masked(keys@, nulls), made, r),
{
    match made {
        Ok(values) => match dictionary_array(key_array(keys, nulls), values) {
            Ok(batch) => Ok(batch),
            Err(e) => Err(ParquetError::External(e)),
        },
        Err(e) => Err(e),
    }
}

/// The values of a dictionary.
fn copy_all<A: Copy>(values: &Vec<A>) -> (r: Vec<A>)
    ensures
        r@ == values@,
{
    let mut copy: Vec<A> = Vec::with_capacity(values.len());
    let mut i: usize = 0;
    while i < values.len()
        invariant
            i <= values@.len(),
            copy@ == values@.take(i as int),
        decreases values@.len() - i,
    {
        copy.push(values[i]);
        proof {
            assert(copy@ =~= values@.take(i + 1));
        }
        i = i + 1;
    }
    proof {
        assert(copy@ =~= values@);
    }
    copy
}

/// The null buffer once more.
fn copy_nulls(nulls: &Option<NullBuffer>) -> (r: Option<NullBuffer>)
    ensures
        validity_of(r) == validity_of(*nulls),
{
    match nulls {
        Some(nulls) => Some(nulls.clone()),
        None => None,
    }
}

/// The dictionary array of a buffer.
pub fn batch_of<T: DataType>(
    buffer: PrimitiveDictionaryBuffer<T>,
    value_type: &ArrowType,
    nulls: Option<NullBuffer>,
) -> (r: Result<ArrowArray, ParquetError>)
    requires
        nulls_fit(nulls, buffer@.len()),
    ensures
        is_batch_of::<T>(buffer@, *value_type, validity_of(nulls), r),
        r matches Ok(batch) ==> array_type(batch) == dictionary_of(*value_type),
{
    let ghost content: DictionaryContent<T::T> = buffer@;
    match buffer {
        PrimitiveDictionaryBuffer::Dict { keys, values } => {
            let made = T::array_from_values(copy_all(values.values()), value_type, None);
            proof {
                assert(T::makes(content->dictionary.values, *value_type, None, made));
                if made is Ok {
                    T::lemma_makes(content->dictionary.values, *value_type, None, made);
                }
                assert(masked(keys@, nulls) =~= valid_slots(keys@, validity_of(nulls)));
            }
            join_keys(keys, nulls, made)
        },
        PrimitiveDictionaryBuffer::Values(rows) => {
            let row_nulls = copy_nulls(&nulls);
            let whole = T::array_from_values(copy_all(&rows), value_type, row_nulls);
            let ghost slots = valid_slots(rows@, validity_of(nulls));
            proof {
                assert(T::makes(content->Values_0, *value_type, row_nulls, whole));
                assert(masked(rows@, nulls) =~= slots);
            }
            if let Err(e) = whole {
                return Err(e);
            }
            match pack::<T>(&rows, &nulls) {
                Ok((keys, values)) => {
                    let made = T::array_from_values(values, value_type, None);
                    proof {
                        assert(T::makes(distinct(slots), *value_type, None, made));
                        if made is Ok {
                            T::lemma_makes(distinct(slots), *value_type, None, made);
                        }
                    }
                    join_keys(keys, nulls, made)
                },
                Err(e) => Err(e),
            }
        },
    }
}

/// The type of the values of a dictionary type.
pub open spec fn value_type_of(data_type: ArrowType) -> Option<ArrowType> {
    match data_type {
        ArrowType::Dictionary(_, value_type) => Some(*value_type),
        _ => None,
    }
}

/// Reads a column as dictionary arrays.
pub struct PrimitiveDictionaryReader<
    T: DataType,
    F: ColumnValueDecoder<Buffer = Vec<T::T>>,
> {
    data_type: ArrowType,
    def_levels_buffer: Option<Vec<i16>>,
    rep_levels_buffer: Option<Vec<i16>>,
    record_reader: DictionaryRecords<T, F>,
}

impl<T: DataType, F: ColumnValueDecoder<Buffer = Vec<T::T>>> PrimitiveDictionaryReader<T, F> {
    /// The reader is valid.
    pub closed spec fn wf(self) -> bool {
        &&& self.record_reader.wf()
        &&& value_type_of(self.data_type) is Some
    }

    /// The type of the arrays.
    pub closed spec fn arrays_type(self) -> ArrowType {
        self.data_type
    }

    /// The definition levels of the batch that was consumed last.
    pub closed spec fn def_levels(self) -> Option<Seq<i16>> {
        elements(self.def_levels_buffer)
    }

    /// The repetition levels of the batch that was consumed last.
    pub closed spec fn rep_levels(self) -> Option<Seq<i16>> {
        elements(self.rep_levels_buffer)
    }

    /// The rows that have been read and not been consumed.
    pub closed spec fn records(self) -> DictionaryState<T, F> {
        self.record_reader@
    }

    /// The reader has just been made: it has no rows, and no column chunk to read from.
    pub open spec fn is_new(self, column: ColumnDescriptor, data_type: ArrowType) -> bool {
        &&& self.arrays_type() == data_type
        &&& self.def_levels() is None
        &&& self.rep_levels() is None
        &&& starts_empty(self.records(), column)
        &&& self.records().content == DictionaryContent::Values(Seq::<T::T>::empty())
    }

    /// Everything but the rows is as in `other`.
    pub open spec fn same_setup(self, other: Self) -> bool {
        &&& self.arrays_type() == other.arrays_type()
        &&& self.def_levels() == other.def_levels()
        &&& self.rep_levels() == other.rep_levels()
    }

    /// The column that is read.
    pub fn column(&self) -> (r: &ColumnDescPtr)
        ensures
            **r == self.records().column,
    {
        self.record_reader.column()
    }

    /// Whether a column chunk has been started.
    pub fn has_chunk(&self) -> (r: bool)
        ensures
            r == self.records().decoder is Some,
    {
        self.record_reader.has_chunk()
    }

    /// Whether the rows of `levels` can be passed over.
    pub fn check_skip(&self, levels: &Levels) -> (r: bool)
        ensures
            r == DictionaryRecords::<T, F>::can_skip_rows(self.records(), *levels),
    {
        self.record_reader.check_skip(levels)
    }

    /// The type that was asked for.
    pub fn get_data_type(&self) -> (r: &ArrowType)
        ensures
            *r == self.arrays_type(),
    {
        &self.data_type
    }

    /// The definition levels of the batch that was consumed last.
    pub fn get_def_levels(&self) -> (r: Option<&[i16]>)
        ensures
            slice_elements(r) == self.def_levels(),
    {
        as_deref(&self.def_levels_buffer)
    }

    /// The repetition levels of the batch that was consumed last.
    pub fn get_rep_levels(&self) -> (r: Option<&[i16]>)
        ensures
            slice_elements(r) == self.rep_levels(),
    {
        as_deref(&self.rep_levels_buffer)
    }

    /// What going on with another column chunk does. The rows stay. The decoder has neither a
    /// dictionary nor a page.
    pub open spec fn starts_chunk(before: Self, after: Self) -> bool {
        &&& after.same_setup(before)
        &&& after.records() == (RecordState {
            decoder: after.records().decoder,
            ..before.records()
        })
        &&& after.records().decoder matches Some(d)
        &&& d.column() == before.records().column
        &&& d.values() is None
        &&& d.page() is None
    }

    /// Goes on with another column chunk, which has no dictionary yet.
    pub fn start_chunk(&mut self)
        requires
            old(self).wf(),
        ensures
            final(self).wf(),
            Self::starts_chunk(*old(self), *final(self)),
    {
        let decoder = PrimitiveDictionaryDecoder::<T, F>::new(self.record_reader.column());
        self.record_reader.start_chunk(decoder);
    }

    /// Takes the dictionary page of the column chunk.
    pub fn set_dict(&mut self, buf: Bytes, num_values: u32, encoding: Encoding, is_sorted: bool)
        -> (r: Result<(), ParquetError>)
        requires
            old(self).wf(),
            old(self).records().decoder is Some,
        ensures
            final(self).wf(),
            final(self).same_setup(*old(self)),
            exists|next: PrimitiveDictionaryDecoder<T, F>| #[trigger]
                PrimitiveDictionaryDecoder::<T, F>::sets_dict(
                    old(self).records().decoder->0,
                    buf,
                    num_values,
                    encoding,
                    next,
                    r,
                ) && final(self).records() == (RecordState {
                    decoder: Some(next),
                    ..old(self).records()
                }),
    {
        self.record_reader.set_dict(buf, num_values, encoding, is_sorted)
    }

    /// Whether the bytes can be taken as a data page.
    pub fn check_data(&self, encoding: Encoding, data: &Bytes) -> (r: bool)
        ensures
            r == PrimitiveDictionaryDecoder::<T, F>::takes_data(encoding, *data),
    {
        PrimitiveDictionaryDecoder::<T, F>::check_data(encoding, data)
    }

    /// Takes a data page of the column chunk.
    pub fn set_data(
        &mut self,
        encoding: Encoding,
        data: Bytes,
        num_levels: usize,
        num_values: Option<usize>,
    ) -> (r: Result<(), ParquetError>)
        requires
            old(self).wf(),
            old(self).records().decoder is Some,
            PrimitiveDictionaryDecoder::<T, F>::takes_data(encoding, data),
        ensures
            final(self).wf(),
            final(self).same_setup(*old(self)),
            exists|next: PrimitiveDictionaryDecoder<T, F>| #[trigger]
                PrimitiveDictionaryDecoder::<T, F>::sets_data(
                    old(self).records().decoder->0,
                    encoding,
                    data,
                    num_levels,
                    num_values,
                    next,
                    r,
                ) && final(self).records() == (RecordState {
                    decoder: Some(next),
                    ..old(self).records()
                }),
    {
        self.record_reader.set_data(encoding, data, num_levels, num_values)
    }

    /// Whether the rows of `levels` can be read.
    pub fn check_records(&self, levels: &Levels) -> (r: bool)
        requires
            self.wf(),
        ensures
            r == DictionaryRecords::<T, F>::can_read_rows(self.records(), *levels),
    {
        self.record_reader.check_rows(levels)
    }

    /// Reads the rows of `levels`. Gives how many records start among them.
    pub fn read_records(&mut self, levels: &Levels) -> (r: Result<usize, ParquetError>)
        requires
            old(self).wf(),
            DictionaryRecords::<T, F>::can_read_rows(old(self).records(), *levels),
        ensures
            final(self).wf(),
            final(self).same_setup(*old(self)),
            DictionaryRecords::<T, F>::reads_rows(
                old(self).records(),
                *levels,
                final(self).records(),
                r,
            ),
            r is Ok && DictionaryRecords::<T, F>::in_step(old(self).records())
                ==> DictionaryRecords::<T, F>::in_step(final(self).records()),
    {
        self.record_reader.read_rows(levels)
    }

    /// Passes over the rows of `levels`. Gives how many records start among them.
    pub fn skip_records(&mut self, levels: &Levels) -> (r: Result<usize, ParquetError>)
        requires
            old(self).wf(),
            DictionaryRecords::<T, F>::can_skip_rows(old(self).records(), *levels),
        ensures
            final(self).wf(),
            final(self).same_setup(*old(self)),
            DictionaryRecords::<T, F>::skips_rows(
                old(self).records(),
                *levels,
                final(self).records(),
                r,
            ),
    {
        self.record_reader.skip_rows(levels)
    }

    /// A batch can be consumed. Where there are no rows it takes an empty array of the type. Where
    /// there are, the validity that the batch gets has a bit for every row, and if some are null it
    /// tells of as many rows as the values do.
    pub open spec fn can_give_batch(self) -> bool {
        let state = self.records();
        if state.num_values == 0 {
            has_empty_array(self.arrays_type(), usize::MAX as nat)
        } else {
            &&& validity_covers(state)
            &&& batch_nulls(state) is Some ==> state.content.len() == state.num_values
        }
    }

    /// Whether a batch can be consumed.
    pub fn check_batch(&self) -> (r: bool)
        requires
            self.wf(),
        ensures
            r == self.can_give_batch(),
    {
        let num_values: usize = self.record_reader.num_values();
        if num_values == 0 {
            check_empty_array(&self.data_type, usize::MAX)
        } else {
            self.record_reader.check_validity() && (!self.record_reader.has_nulls()
                || self.record_reader.num_held() == num_values)
        }
    }

    /// What consuming a batch of `before` gives: an empty array where there are no rows, and the
    /// dictionary array of the rows otherwise.
    pub open spec fn gives_batch(
        data_type: ArrowType,
        before: DictionaryState<T, F>,
        after: DictionaryState<T, F>,
        r: Result<ArrowArray, ParquetError>,
    ) -> bool {
        if before.num_values == 0 {
            &&& r matches Ok(batch)
            &&& array_type(batch) == data_type
            &&& array_len(batch) == 0
            &&& array_len(dictionary_values(batch)) == 0
            &&& after == RecordState {
                def_levels: emptied(before.def_levels),
                rep_levels: emptied(before.rep_levels),
                ..before
            }
        } else {
            &&& is_batch_of::<T>(
                before.content,
                value_type_of(data_type)->0,
                batch_nulls(before),
                r,
            )
            &&& if let Ok(batch) = r {
                &&& array_type(batch) == dictionary_of(value_type_of(data_type)->0)
                &&& DictionaryRecords::<T, F>::is_reset(before, after)
            } else {
                after == consumed(before, DictionaryContent::Values(Seq::empty()))
            }
        }
    }

    /// The levels that are given out once a batch has been consumed are those of its rows.
    pub open spec fn gives_levels(before: Self, after: Self) -> bool {
        &&& after.def_levels() == before.records().def_levels
        &&& after.rep_levels() == before.records().rep_levels
    }

    /// Takes the rows that have been read as an array.
    pub fn consume_batch(&mut self) -> (r: Result<ArrowArray, ParquetError>)
        requires
            old(self).wf(),
            old(self).can_give_batch(),
        ensures
            final(self).wf(),
            final(self).arrays_type() == old(self).arrays_type(),
            Self::gives_levels(*old(self), *final(self)),
            Self::gives_batch(
                old(self).arrays_type(),
                old(self).records(),
                final(self).records(),
                r,
            ),
    {
        let ghost before = self.records();
        self.def_levels_buffer = self.record_reader.consume_def_levels();
        self.rep_levels_buffer = self.record_reader.consume_rep_levels();

        let num_values: usize = self.record_reader.num_values();
        if num_values == 0 {
            return Ok(empty_array(&self.data_type));
        }
        let nulls: Option<NullBuffer> = match self.record_reader.consume_bitmap_buffer() {
            Some(buffer) => {
                proof {
                    assert(unpacked(buffer_bytes(buffer), num_values as nat) =~= given_validity(
                        before,
                    )->0);
                }
                null_buffer(buffer, num_values)
            },
            None => None,
        };
        let buffer = self.record_reader.consume_record_data();
        proof {
            if nulls is Some {
                assert(null_buffer_bits(nulls->0) =~= given_validity(before)->0);
            }
            assert(validity_of(nulls) =~= batch_nulls(before));
        }
        let r = match &self.data_type {
            ArrowType::Dictionary(_, value_type) => batch_of(buffer, value_type, nulls),
            _ => vstd::pervasive::unreached(),
        };
        if r.is_ok() {
            self.record_reader.reset();
        }
        r
    }
}

/// A reader of the dictionary arrays of a column. It fails for a type that is no dictionary.
pub fn make_primitive_dictionary_reader<T, F>(
    column_desc: ColumnDescPtr,
    data_type: ArrowType,
    batch_size: usize,
) -> (r: Result<PrimitiveDictionaryReader<T, F>, ParquetError>) where
    T: DataType,
    F: ColumnValueDecoder<Buffer = Vec<T::T>>,

    ensures
        if value_type_of(data_type) is Some {
            r matches Ok(reader) && {
                &&& reader.wf()
                &&& reader.is_new(*column_desc, data_type)
            }
        } else {
            r == Err::<PrimitiveDictionaryReader<T, F>, ParquetError>(
                ParquetError::General(Reason::NotDictionary(data_type)),
            )
        },
{
    if !(matches!(data_type, ArrowType::Dictionary(_, _))) {
        return Err(ParquetError::General(Reason::NotDictionary(data_type)));
    }
    Ok(
        PrimitiveDictionaryReader {
            data_type,
            def_levels_buffer: None,
            rep_levels_buffer: None,
            record_reader: GenericRecordReader::new(column_desc, batch_size),
        },
    )
}

} // verus!
