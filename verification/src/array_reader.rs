//! What the readers of a column have in common.
use arrow_array::BooleanArray;
use arrow_schema::DataType as ArrowType;
use bytes::Bytes;
use vstd::prelude::*;

use crate::arrow::ArrowArray;
use crate::column::{ColumnDescPtr, ColumnValueDecoder};
use crate::dictionary::PrimitiveDictionaryDecoder;
use crate::errors::{Encoding, ParquetError};
use crate::predicate::{PrimitiveDictionaryPredicate, PrimitivePredicateDecoder};
use crate::reader::{
    slice_elements, DictionaryRecords, PredicateRecords, PrimitiveDictionaryReader,
    PrimitivePredicateReader,
};
use crate::record_reader::{validity_covers, Levels, RecordState};
use crate::types::{ColumnDescriptor, DataType};

verus! {

/// Reads a column as arrays: it is given the pages of a column chunk and the levels of their rows,
/// reads or skips rows, and gives out what it has read.
pub trait ArrayReader: Sized {
    /// The arrays.
    type Batch;

    /// The reader is valid.
    spec fn ready(self) -> bool;

    /// A column chunk has been started.
    spec fn in_chunk(self) -> bool;

    /// What going on with another column chunk does.
    spec fn goes_on(before: Self, after: Self) -> bool;

    /// What taking a dictionary page does.
    spec fn takes_dict(
        before: Self,
        buf: Bytes,
        num_values: u32,
        encoding: Encoding,
        after: Self,
        r: Result<(), ParquetError>,
    ) -> bool;

    /// The bytes can be taken as a data page.
    spec fn can_take_data(encoding: Encoding, data: Bytes) -> bool;

    /// What taking a data page does.
    spec fn takes_data(
        before: Self,
        encoding: Encoding,
        data: Bytes,
        num_levels: usize,
        num_values: Option<usize>,
        after: Self,
        r: Result<(), ParquetError>,
    ) -> bool;

    /// The rows of `levels` can be read.
    spec fn can_read(self, levels: Levels) -> bool;

    /// What reading rows does.
    spec fn reads(
        before: Self,
        levels: Levels,
        after: Self,
        r: Result<usize, ParquetError>,
    ) -> bool;

    /// The rows of `levels` can be skipped.
    spec fn can_skip(self, levels: Levels) -> bool;

    /// What skipping rows does.
    spec fn skips(
        before: Self,
        levels: Levels,
        after: Self,
        r: Result<usize, ParquetError>,
    ) -> bool;

    /// A batch can be consumed.
    spec fn can_give(self) -> bool;

    /// What consuming a batch does.
    spec fn gives(before: Self, after: Self, r: Result<Self::Batch, ParquetError>) -> bool;

    /// The definition levels of the batch that was consumed last.
    spec fn given_defs(self) -> Option<Seq<i16>>;

    /// The repetition levels of the batch that was consumed last.
    spec fn given_reps(self) -> Option<Seq<i16>>;

    /// The type of the arrays.
    spec fn given_type(self) -> ArrowType;

    /// The column that is read.
    spec fn column_read(self) -> ColumnDescriptor;

    fn column(&self) -> (r: &ColumnDescPtr)
        ensures
            **r == self.column_read(),
    ;

    fn has_chunk(&self) -> (r: bool)
        ensures
            r == self.in_chunk(),
    ;

    fn start_chunk(&mut self)
        requires
            old(self).ready(),
        ensures
            final(self).ready(),
            Self::goes_on(*old(self), *final(self)),
    ;

    fn set_dict(&mut self, buf: Bytes, num_values: u32, encoding: Encoding, is_sorted: bool) -> (r:
        Result<(), ParquetError>)
        requires
            old(self).ready(),
            old(self).in_chunk(),
        ensures
            final(self).ready(),
            Self::takes_dict(*old(self), buf, num_values, encoding, *final(self), r),
    ;

    fn check_data(&self, encoding: Encoding, data: &Bytes) -> (r: bool)
        ensures
            r == Self::can_take_data(encoding, *data),
    ;

    fn set_data(
        &mut self,
        encoding: Encoding,
        data: Bytes,
        num_levels: usize,
        num_values: Option<usize>,
    ) -> (r: Result<(), ParquetError>)
        requires
            old(self).ready(),
            old(self).in_chunk(),
            Self::can_take_data(encoding, data),
        ensures
            final(self).ready(),
            Self::takes_data(
                *old(self),
                encoding,
                data,
                num_levels,
                num_values,
                *final(self),
                r,
            ),
    ;

    fn check_records(&self, levels: &Levels) -> (r: bool)
        requires
            self.ready(),
        ensures
            r == self.can_read(*levels),
    ;

    fn read_records(&mut self, levels: &Levels) -> (r: Result<usize, ParquetError>)
        requires
            old(self).ready(),
            old(self).can_read(*levels),
        ensures
            final(self).ready(),
            Self::reads(*old(self), *levels, *final(self), r),
    ;

    fn check_skip(&self, levels: &Levels) -> (r: bool)
        ensures
            r == self.can_skip(*levels),
    ;

    fn skip_records(&mut self, levels: &Levels) -> (r: Result<usize, ParquetError>)
        requires
            old(self).ready(),
            old(self).can_skip(*levels),
        ensures
            final(self).ready(),
            Self::skips(*old(self), *levels, *final(self), r),
    ;

    fn check_batch(&self) -> (r: bool)
        requires
            self.ready(),
        ensures
            r == self.can_give(),
    ;

    fn consume_batch(&mut self) -> (r: Result<Self::Batch, ParquetError>)
        requires
            old(self).ready(),
            old(self).can_give(),
        ensures
            final(self).ready(),
            Self::gives(*old(self), *final(self), r),
    ;

    fn get_def_levels(&self) -> (r: Option<&[i16]>)
        ensures
            slice_elements(r) == self.given_defs(),
    ;

    fn get_rep_levels(&self) -> (r: Option<&[i16]>)
        ensures
            slice_elements(r) == self.given_reps(),
    ;

    fn get_data_type(&self) -> (r: ArrowType)
        ensures
            r == self.given_type(),
    ;
}

impl<T: DataType, F: ColumnValueDecoder<Buffer = Vec<T::T>>> ArrayReader
    for PrimitiveDictionaryReader<T, F> {
    type Batch = ArrowArray;

    open spec fn ready(self) -> bool {
        self.wf()
    }

    open spec fn in_chunk(self) -> bool {
        self.records().decoder is Some
    }

    open spec fn goes_on(before: Self, after: Self) -> bool {
        Self::starts_chunk(before, after)
    }

    open spec fn takes_dict(
        before: Self,
        buf: Bytes,
        num_values: u32,
        encoding: Encoding,
        after: Self,
        r: Result<(), ParquetError>,
    ) -> bool {
        &&& after.same_setup(before)
        &&& after.records() == RecordState { decoder: after.records().decoder, ..before.records() }
        &&& after.records().decoder matches Some(next)
        &&& PrimitiveDictionaryDecoder::<T, F>::sets_dict(
            before.records().decoder->0,
            buf,
            num_values,
            encoding,
            next,
            r,
        )
    }

    open spec fn can_take_data(encoding: Encoding, data: Bytes) -> bool {
        PrimitiveDictionaryDecoder::<T, F>::takes_data(encoding, data)
    }

    open spec fn takes_data(
        before: Self,
        encoding: Encoding,
        data: Bytes,
        num_levels: usize,
        num_values: Option<usize>,
        after: Self,
        r: Result<(), ParquetError>,
    ) -> bool {
        &&& after.same_setup(before)
        &&& after.records() == RecordState { decoder: after.records().decoder, ..before.records() }
        &&& after.records().decoder matches Some(next)
        &&& PrimitiveDictionaryDecoder::<T, F>::sets_data(
            before.records().decoder->0,
            encoding,
            data,
            num_levels,
            num_values,
            next,
            r,
        )
    }

    open spec fn can_read(self, levels: Levels) -> bool {
        DictionaryRecords::<T, F>::can_read_rows(self.records(), levels)
    }

    open spec fn reads(
        before: Self,
        levels: Levels,
        after: Self,
        r: Result<usize, ParquetError>,
    ) -> bool {
        &&& after.same_setup(before)
        &&& DictionaryRecords::<T, F>::reads_rows(before.records(), levels, after.records(), r)
    }

    open spec fn can_skip(self, levels: Levels) -> bool {
        DictionaryRecords::<T, F>::can_skip_rows(self.records(), levels)
    }

    open spec fn skips(
        before: Self,
        levels: Levels,
        after: Self,
        r: Result<usize, ParquetError>,
    ) -> bool {
        &&& after.same_setup(before)
        &&& DictionaryRecords::<T, F>::skips_rows(before.records(), levels, after.records(), r)
    }

    open spec fn can_give(self) -> bool {
        self.can_give_batch()
    }

    open spec fn gives(before: Self, after: Self, r: Result<ArrowArray, ParquetError>) -> bool {
        &&& after.arrays_type() == before.arrays_type()
        &&& Self::gives_levels(before, after)
        &&& Self::gives_batch(before.arrays_type(), before.records(), after.records(), r)
    }

    open spec fn given_defs(self) -> Option<Seq<i16>> {
        self.def_levels()
    }

    open spec fn given_reps(self) -> Option<Seq<i16>> {
        self.rep_levels()
    }

    open spec fn given_type(self) -> ArrowType {
        self.arrays_type()
    }

    open spec fn column_read(self) -> ColumnDescriptor {
        self.records().column
    }

    fn column(&self) -> (r: &ColumnDescPtr) {
        PrimitiveDictionaryReader::column(self)
    }

    fn has_chunk(&self) -> (r: bool) {
        PrimitiveDictionaryReader::has_chunk(self)
    }

    fn start_chunk(&mut self) {
        PrimitiveDictionaryReader::start_chunk(self)
    }

    fn set_dict(&mut self, buf: Bytes, num_values: u32, encoding: Encoding, is_sorted: bool) -> (r:
        Result<(), ParquetError>) {
        PrimitiveDictionaryReader::set_dict(self, buf, num_values, encoding, is_sorted)
    }

    fn check_data(&self, encoding: Encoding, data: &Bytes) -> (r: bool) {
        PrimitiveDictionaryReader::check_data(self, encoding, data)
    }

    fn set_data(
        &mut self,
        encoding: Encoding,
        data: Bytes,
        num_levels: usize,
        num_values: Option<usize>,
    ) -> (r: Result<(), ParquetError>) {
        PrimitiveDictionaryReader::set_data(self, encoding, data, num_levels, num_values)
    }

    fn check_records(&self, levels: &Levels) -> (r: bool) {
        PrimitiveDictionaryReader::check_records(self, levels)
    }

    fn read_records(&mut self, levels: &Levels) -> (r: Result<usize, ParquetError>) {
        PrimitiveDictionaryReader::read_records(self, levels)
    }

    fn check_skip(&self, levels: &Levels) -> (r: bool) {
        PrimitiveDictionaryReader::check_skip(self, levels)
    }

    fn skip_records(&mut self, levels: &Levels) -> (r: Result<usize, ParquetError>) {
        PrimitiveDictionaryReader::skip_records(self, levels)
    }

    fn check_batch(&self) -> (r: bool) {
        PrimitiveDictionaryReader::check_batch(self)
    }

    fn consume_batch(&mut self) -> (r: Result<ArrowArray, ParquetError>) {
        PrimitiveDictionaryReader::consume_batch(self)
    }

    fn get_def_levels(&self) -> (r: Option<&[i16]>) {
        PrimitiveDictionaryReader::get_def_levels(self)
    }

    fn get_rep_levels(&self) -> (r: Option<&[i16]>) {
        PrimitiveDictionaryReader::get_rep_levels(self)
    }

    fn get_data_type(&self) -> (r: ArrowType) {
        PrimitiveDictionaryReader::get_data_type(self).clone()
    }
}

impl<
    T: DataType,
    P: PrimitiveDictionaryPredicate,
    F: ColumnValueDecoder<Buffer = Vec<T::T>>,
> ArrayReader for PrimitivePredicateReader<T, P, F> {
    type Batch = BooleanArray;

    open spec fn ready(self) -> bool {
        self.wf()
    }

    open spec fn in_chunk(self) -> bool {
        self.records().decoder is Some
    }

    open spec fn goes_on(before: Self, after: Self) -> bool {
        Self::starts_chunk(before, after)
    }

    open spec fn takes_dict(
        before: Self,
        buf: Bytes,
        num_values: u32,
        encoding: Encoding,
        after: Self,
        r: Result<(), ParquetError>,
    ) -> bool {
        &&& after.same_setup(before)
        &&& after.records() == RecordState { decoder: after.records().decoder, ..before.records() }
        &&& after.records().decoder matches Some(next)
        &&& PrimitivePredicateDecoder::<T, P, F>::sets_dict(
            before.records().decoder->0,
            buf,
            num_values,
            encoding,
            next,
            r,
        )
    }

    open spec fn can_take_data(encoding: Encoding, data: Bytes) -> bool {
        PrimitivePredicateDecoder::<T, P, F>::takes_data(encoding, data)
    }

    open spec fn takes_data(
        before: Self,
        encoding: Encoding,
        data: Bytes,
        num_levels: usize,
        num_values: Option<usize>,
        after: Self,
        r: Result<(), ParquetError>,
    ) -> bool {
        &&& after.same_setup(before)
        &&& after.records() == RecordState { decoder: after.records().decoder, ..before.records() }
        &&& after.records().decoder matches Some(next)
        &&& PrimitivePredicateDecoder::<T, P, F>::sets_data(
            before.records().decoder->0,
            encoding,
            data,
            num_levels,
            num_values,
            next,
            r,
        )
    }

    open spec fn can_read(self, levels: Levels) -> bool {
        PredicateRecords::<T, P, F>::can_read_rows(self.records(), levels)
    }

    open spec fn reads(
        before: Self,
        levels: Levels,
        after: Self,
        r: Result<usize, ParquetError>,
    ) -> bool {
        &&& after.same_setup(before)
        &&& PredicateRecords::<T, P, F>::reads_rows(before.records(), levels, after.records(), r)
    }

    open spec fn can_skip(self, levels: Levels) -> bool {
        PredicateRecords::<T, P, F>::can_skip_rows(self.records(), levels)
    }

    open spec fn skips(
        before: Self,
        levels: Levels,
        after: Self,
        r: Result<usize, ParquetError>,
    ) -> bool {
        &&& after.same_setup(before)
        &&& PredicateRecords::<T, P, F>::skips_rows(before.records(), levels, after.records(), r)
    }

    open spec fn can_give(self) -> bool {
        validity_covers(self.records())
    }

    open spec fn gives(before: Self, after: Self, r: Result<BooleanArray, ParquetError>) -> bool {
        &&& after.values_type() == before.values_type()
        &&& after.asks() == before.asks()
        &&& Self::gives_levels(before, after)
        &&& Self::gives_batch(before.records(), after.records(), r)
    }

    open spec fn given_defs(self) -> Option<Seq<i16>> {
        self.def_levels()
    }

    open spec fn given_reps(self) -> Option<Seq<i16>> {
        self.rep_levels()
    }

    open spec fn given_type(self) -> ArrowType {
        ArrowType::Boolean
    }

    open spec fn column_read(self) -> ColumnDescriptor {
        self.records().column
    }

    fn column(&self) -> (r: &ColumnDescPtr) {
        PrimitivePredicateReader::column(self)
    }

    fn has_chunk(&self) -> (r: bool) {
        PrimitivePredicateReader::has_chunk(self)
    }

    fn start_chunk(&mut self) {
        PrimitivePredicateReader::start_chunk(self)
    }

    fn set_dict(&mut self, buf: Bytes, num_values: u32, encoding: Encoding, is_sorted: bool) -> (r:
        Result<(), ParquetError>) {
        PrimitivePredicateReader::set_dict(self, buf, num_values, encoding, is_sorted)
    }

    fn check_data(&self, encoding: Encoding, data: &Bytes) -> (r: bool) {
        PrimitivePredicateReader::check_data(self, encoding, data)
    }

    fn set_data(
        &mut self,
        encoding: Encoding,
        data: Bytes,
        num_levels: usize,
        num_values: Option<usize>,
    ) -> (r: Result<(), ParquetError>) {
        PrimitivePredicateReader::set_data(self, encoding, data, num_levels, num_values)
    }

    fn check_records(&self, levels: &Levels) -> (r: bool) {
        PrimitivePredicateReader::check_records(self, levels)
    }

    fn read_records(&mut self, levels: &Levels) -> (r: Result<usize, ParquetError>) {
        PrimitivePredicateReader::read_records(self, levels)
    }

    fn check_skip(&self, levels: &Levels) -> (r: bool) {
        PrimitivePredicateReader::check_skip(self, levels)
    }

    fn skip_records(&mut self, levels: &Levels) -> (r: Result<usize, ParquetError>) {
        PrimitivePredicateReader::skip_records(self, levels)
    }

    fn check_batch(&self) -> (r: bool) {
        PrimitivePredicateReader::check_batch(self)
    }

    fn consume_batch(&mut self) -> (r: Result<BooleanArray, ParquetError>) {
        PrimitivePredicateReader::consume_batch(self)
    }

    fn get_def_levels(&self) -> (r: Option<&[i16]>) {
        PrimitivePredicateReader::get_def_levels(self)
    }

    fn get_rep_levels(&self) -> (r: Option<&[i16]>) {
        PrimitivePredicateReader::get_rep_levels(self)
    }

    fn get_data_type(&self) -> (r: ArrowType) {
        PrimitivePredicateReader::get_data_type(self)
    }
}

} // verus!
