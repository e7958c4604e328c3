use std::sync::Arc;

use arrow_array::cast::AsArray;
use arrow_array::types::{Int32Type as ArrowInt32, Int64Type as ArrowInt64};
use arrow_array::Array;
use arrow_schema::{
    ArrowError, DataType as ArrowType, Field, Fields, TimeUnit, UnionFields, UnionMode,
};
use bytes::Bytes;

use primitive_dictionary::arrow::ArrowArray;
use primitive_dictionary::errors::{Encoding, ParquetError, Reason};
use primitive_dictionary::plain::ColumnValueDecoderImpl;
use primitive_dictionary::reader::{make_primitive_dictionary_reader, PrimitiveDictionaryReader};
use primitive_dictionary::record_reader::Levels;
use primitive_dictionary::types::{ColumnDescriptor, Int32Type, Int64Type};

type Reader = PrimitiveDictionaryReader<Int64Type, ColumnValueDecoderImpl<Int64Type>>;

fn dictionary_of(value: ArrowType) -> ArrowType {
    ArrowType::Dictionary(Box::new(ArrowType::Int32), Box::new(value))
}

fn nullable() -> ColumnDescriptor {
    ColumnDescriptor { max_def_level: 1, max_rep_level: 0, type_length: 0, is_optional: true }
}

fn required() -> ColumnDescriptor {
    ColumnDescriptor { max_def_level: 0, max_rep_level: 0, type_length: 0, is_optional: false }
}

fn reader_for(column: ColumnDescriptor, value: ArrowType) -> Reader {
    let mut reader: Reader =
        make_primitive_dictionary_reader(Arc::new(column), dictionary_of(value), 8).unwrap();
    reader.start_chunk();
    reader
}

fn reader(column: ColumnDescriptor) -> Reader {
    reader_for(column, ArrowType::Int64)
}

fn plain(values: &[i64]) -> Bytes {
    let mut bytes = Vec::new();
    for value in values {
        bytes.extend_from_slice(&value.to_le_bytes());
    }
    Bytes::from(bytes)
}

fn levels(def_levels: &[i16]) -> Levels {
    Levels { count: def_levels.len(), def_levels: def_levels.to_vec(), rep_levels: Vec::new() }
}

fn rows(count: usize) -> Levels {
    Levels { count, def_levels: Vec::new(), rep_levels: Vec::new() }
}

fn keys(batch: &ArrowArray) -> Vec<Option<i32>> {
    batch.inner.as_dictionary::<ArrowInt32>().keys().iter().collect()
}

fn values(batch: &ArrowArray) -> Vec<Option<i64>> {
    let dictionary = batch.inner.as_dictionary::<ArrowInt32>();
    dictionary.values().as_primitive::<ArrowInt64>().iter().collect()
}

fn decoded(batch: &ArrowArray) -> Vec<Option<i64>> {
    let dictionary = values(batch);
    keys(batch).into_iter().map(|key| key.and_then(|k| dictionary[k as usize])).collect()
}

#[test]
fn keys_of_one_dictionary_are_kept() {
    let mut reader = reader(nullable());
    reader.set_dict(plain(&[7, 8, 9]), 3, Encoding::PLAIN, false).unwrap();
    let data = Bytes::from(vec![2u8, 3, 0b01_10_01_00, 0]);
    reader.set_data(Encoding::RLE_DICTIONARY, data, 6, Some(5)).unwrap();
    let run = levels(&[1, 1, 0, 1, 1, 1]);
    assert!(reader.check_records(&run));
    assert_eq!(reader.read_records(&run).unwrap(), 6);
    assert!(reader.check_batch());
    let batch = reader.consume_batch().unwrap();
    assert_eq!(keys(&batch), vec![Some(0), Some(1), None, Some(2), Some(1), Some(0)]);
    assert_eq!(values(&batch), vec![Some(7), Some(8), Some(9)]);
    assert_eq!(batch.inner.data_type(), &dictionary_of(ArrowType::Int64));
    assert_eq!(reader.get_def_levels(), Some([1i16, 1, 0, 1, 1, 1].as_slice()));
    assert_eq!(reader.get_rep_levels(), None);
}

#[test]
fn plain_values_get_a_dictionary_in_order_of_occurrence() {
    let mut reader = reader(nullable());
    reader.set_data(Encoding::PLAIN, plain(&[5, -3, 5, 9, -3]), 6, Some(5)).unwrap();
    reader.read_records(&levels(&[1, 1, 0, 1, 1, 1])).unwrap();
    let batch = reader.consume_batch().unwrap();
    assert_eq!(values(&batch), vec![Some(5), Some(-3), Some(9)]);
    assert_eq!(keys(&batch), vec![Some(0), Some(1), None, Some(0), Some(2), Some(1)]);
}

#[test]
fn keys_give_way_to_values_when_plain_values_follow() {
    let mut reader = reader(required());
    reader.set_dict(plain(&[10, 20]), 2, Encoding::PLAIN, false).unwrap();
    reader.set_data(Encoding::RLE_DICTIONARY, Bytes::from(vec![1u8, 4, 1]), 2, None).unwrap();
    reader.read_records(&rows(2)).unwrap();
    reader.set_data(Encoding::PLAIN, plain(&[30, 20]), 2, None).unwrap();
    assert!(reader.check_records(&rows(2)));
    reader.read_records(&rows(2)).unwrap();
    let batch = reader.consume_batch().unwrap();
    assert_eq!(decoded(&batch), vec![Some(20), Some(20), Some(30), Some(20)]);
    assert_eq!(values(&batch), vec![Some(20), Some(30)]);
}

#[test]
fn keys_of_another_dictionary_are_looked_up() {
    let mut reader = reader(required());
    reader.set_dict(plain(&[10, 20]), 2, Encoding::PLAIN, false).unwrap();
    reader.set_data(Encoding::RLE_DICTIONARY, Bytes::from(vec![1u8, 4, 1]), 2, None).unwrap();
    reader.read_records(&rows(2)).unwrap();
    reader.start_chunk();
    reader.set_dict(plain(&[40, 10]), 2, Encoding::PLAIN, false).unwrap();
    reader.set_data(Encoding::RLE_DICTIONARY, Bytes::from(vec![1u8, 2, 1, 2, 0]), 2, None).unwrap();
    assert!(reader.check_records(&rows(2)));
    reader.read_records(&rows(2)).unwrap();
    let batch = reader.consume_batch().unwrap();
    assert_eq!(decoded(&batch), vec![Some(20), Some(20), Some(10), Some(40)]);
    // The next batch is made of keys again.
    reader.set_data(Encoding::RLE_DICTIONARY, Bytes::from(vec![1u8, 2, 1]), 1, None).unwrap();
    reader.read_records(&rows(1)).unwrap();
    let next = reader.consume_batch().unwrap();
    assert_eq!(keys(&next), vec![Some(1)]);
    assert_eq!(values(&next), vec![Some(40), Some(10)]);
}

#[test]
fn an_index_past_the_dictionary_is_refused_when_the_batch_is_made() {
    let mut reader = reader(required());
    reader.set_dict(plain(&[10]), 1, Encoding::PLAIN, false).unwrap();
    reader.set_data(Encoding::RLE_DICTIONARY, Bytes::from(vec![2u8, 4, 3]), 2, None).unwrap();
    reader.read_records(&rows(2)).unwrap();
    let error = reader.consume_batch().err().unwrap();
    assert!(matches!(error, ParquetError::External(ArrowError::InvalidArgumentError(_))));
    // The rows are gone.
    assert!(reader.check_batch());
    assert_eq!(reader.consume_batch().unwrap().inner.len(), 0);
}

#[test]
fn a_stray_index_may_not_be_looked_up() {
    let mut reader = reader(required());
    reader.set_dict(plain(&[10]), 1, Encoding::PLAIN, false).unwrap();
    reader.set_data(Encoding::RLE_DICTIONARY, Bytes::from(vec![2u8, 4, 3]), 2, None).unwrap();
    reader.read_records(&rows(2)).unwrap();
    reader.set_data(Encoding::PLAIN, plain(&[30]), 1, None).unwrap();
    assert!(!reader.check_records(&rows(1)));
}

#[test]
fn null_keys_need_no_dictionary_value() {
    let mut reader = reader(nullable());
    reader.set_dict(plain(&[]), 0, Encoding::PLAIN, false).unwrap();
    reader.set_data(Encoding::RLE_DICTIONARY, Bytes::from(vec![0u8]), 2, Some(0)).unwrap();
    reader.read_records(&levels(&[0, 0])).unwrap();
    let batch = reader.consume_batch().unwrap();
    assert_eq!(keys(&batch), vec![None, None]);
    assert_eq!(values(&batch), vec![]);
}

#[test]
fn no_rows_make_an_empty_array() {
    let mut reader = reader(nullable());
    assert!(reader.check_batch());
    let batch = reader.consume_batch().unwrap();
    assert_eq!(batch.inner.len(), 0);
    assert_eq!(batch.inner.data_type(), &dictionary_of(ArrowType::Int64));
    assert_eq!(reader.get_data_type(), &dictionary_of(ArrowType::Int64));
    assert_eq!(reader.get_def_levels(), Some([].as_slice()));
}

#[test]
fn no_empty_array_is_made_of_a_key_type_that_is_no_integer() {
    let odd = ArrowType::Dictionary(Box::new(ArrowType::Boolean), Box::new(ArrowType::Int64));
    let reader: Reader =
        make_primitive_dictionary_reader(Arc::new(required()), odd, 8).unwrap();
    assert!(!reader.check_batch());
}

#[test]
fn a_batch_is_consumed_once() {
    let mut reader = reader(required());
    reader.set_data(Encoding::PLAIN, plain(&[1, 2]), 2, None).unwrap();
    reader.read_records(&rows(2)).unwrap();
    assert_eq!(decoded(&reader.consume_batch().unwrap()), vec![Some(1), Some(2)]);
    assert_eq!(reader.consume_batch().unwrap().inner.len(), 0);
}

#[test]
fn another_type_than_a_dictionary_is_refused() {
    let made: Result<Reader, ParquetError> =
        make_primitive_dictionary_reader(Arc::new(required()), ArrowType::Int64, 8);
    match made.err().unwrap() {
        ParquetError::General(reason) => {
            assert!(matches!(reason, Reason::NotDictionary(ArrowType::Int64)));
            assert_eq!(
                reason.message(),
                "invalid non-dictionary data type for primitive dictionary reader - Int64"
            );
        }
        other => panic!("{:?}", other),
    }
}

#[test]
fn values_of_another_type_are_refused() {
    let mut reader = reader_for(required(), ArrowType::Boolean);
    reader.set_data(Encoding::PLAIN, plain(&[1]), 1, None).unwrap();
    reader.read_records(&rows(1)).unwrap();
    match reader.consume_batch().err().unwrap() {
        ParquetError::General(reason) => {
            assert_eq!(reason.message(), "Unsupported data type for primitive values");
        }
        other => panic!("{:?}", other),
    }
}

#[test]
fn indices_need_a_dictionary() {
    let mut reader = reader(required());
    reader.set_data(Encoding::RLE_DICTIONARY, Bytes::from(vec![1u8, 2, 0]), 1, None).unwrap();
    match reader.read_records(&rows(1)).unwrap_err() {
        ParquetError::General(reason) => {
            assert_eq!(reason.message(), "missing dictionary page for column");
        }
        other => panic!("{:?}", other),
    }
}

#[test]
fn skipped_keys_are_passed_over() {
    let mut reader = reader(required());
    reader.set_dict(plain(&[10, 20]), 2, Encoding::PLAIN, false).unwrap();
    // Twice the index 0, then twice the index 1.
    let data = Bytes::from(vec![1u8, 4, 0, 4, 1]);
    reader.set_data(Encoding::RLE_DICTIONARY, data, 4, None).unwrap();
    assert_eq!(reader.skip_records(&rows(1)).unwrap(), 1);
    reader.read_records(&rows(3)).unwrap();
    assert_eq!(keys(&reader.consume_batch().unwrap()), vec![Some(0), Some(1), Some(1)]);
    assert!(reader.skip_records(&rows(1)).is_err());
}

#[test]
fn narrow_integers_have_a_reader_of_their_own() {
    let mut reader: PrimitiveDictionaryReader<Int32Type, ColumnValueDecoderImpl<Int32Type>> =
        make_primitive_dictionary_reader(
            Arc::new(required()),
            dictionary_of(ArrowType::Int32),
            4,
        )
        .unwrap();
    reader.start_chunk();
    let mut bytes = Vec::new();
    for value in [-1i32, 3, -1] {
        bytes.extend_from_slice(&value.to_le_bytes());
    }
    reader.set_data(Encoding::PLAIN, Bytes::from(bytes), 3, None).unwrap();
    reader.read_records(&rows(3)).unwrap();
    let batch = reader.consume_batch().unwrap();
    assert_eq!(keys(&batch), vec![Some(0), Some(1), Some(0)]);
    let dictionary = batch.inner.as_dictionary::<ArrowInt32>();
    let found: Vec<_> = dictionary.values().as_primitive::<ArrowInt32>().iter().collect();
    assert_eq!(found, vec![Some(-1), Some(3)]);
}

#[test]
fn null_keys_need_no_dictionary_value_in_several_reads() {
    let mut reader = reader(nullable());
    reader.set_dict(plain(&[]), 0, Encoding::PLAIN, false).unwrap();
    reader.set_data(Encoding::RLE_DICTIONARY, Bytes::from(vec![0u8]), 4, Some(0)).unwrap();
    reader.read_records(&levels(&[0, 0])).unwrap();
    assert!(reader.check_records(&levels(&[0, 0])));
    assert_eq!(reader.read_records(&levels(&[0, 0])).unwrap(), 2);
    let batch = reader.consume_batch().unwrap();
    assert_eq!(keys(&batch), vec![None; 4]);
    assert_eq!(values(&batch), vec![]);
}

#[test]
fn a_stray_index_of_the_same_dictionary_is_read_and_refused_with_the_batch() {
    let mut reader = reader(required());
    reader.set_dict(plain(&[10]), 1, Encoding::PLAIN, false).unwrap();
    // The index 0, then the index 3.
    let data = Bytes::from(vec![2u8, 2, 0, 2, 3]);
    reader.set_data(Encoding::RLE_DICTIONARY, data, 2, None).unwrap();
    reader.read_records(&rows(1)).unwrap();
    assert!(reader.check_records(&rows(1)));
    assert_eq!(reader.read_records(&rows(1)).unwrap(), 1);
    let error = reader.consume_batch().err().unwrap();
    assert!(matches!(error, ParquetError::External(ArrowError::InvalidArgumentError(_))));
}

#[test]
fn pages_of_one_dictionary_keep_their_keys() {
    let mut reader = reader(nullable());
    reader.set_dict(plain(&[7, 8, 9]), 3, Encoding::PLAIN, false).unwrap();
    reader.set_data(Encoding::RLE_DICTIONARY, Bytes::from(vec![2u8, 4, 1]), 3, Some(2)).unwrap();
    reader.read_records(&levels(&[1, 0])).unwrap();
    reader.read_records(&levels(&[1])).unwrap();
    reader.set_data(Encoding::RLE_DICTIONARY, Bytes::from(vec![2u8, 2, 0]), 2, Some(1)).unwrap();
    reader.read_records(&levels(&[0, 1])).unwrap();
    let batch = reader.consume_batch().unwrap();
    // The dictionary is that of the page: the value 9 is there, though no row has it.
    assert_eq!(values(&batch), vec![Some(7), Some(8), Some(9)]);
    assert_eq!(keys(&batch), vec![Some(1), None, Some(1), None, Some(0)]);
}

#[test]
fn a_batch_of_mixed_pages_holds_the_rows_that_were_read() {
    let mut reader = reader(nullable());
    reader.set_data(Encoding::PLAIN, plain(&[4]), 2, Some(1)).unwrap();
    reader.read_records(&levels(&[0, 1])).unwrap();
    reader.set_dict(plain(&[5, 4]), 2, Encoding::PLAIN, false).unwrap();
    reader.set_data(Encoding::RLE_DICTIONARY, Bytes::from(vec![1u8, 2, 0, 2, 1]), 3, Some(2))
        .unwrap();
    reader.read_records(&levels(&[1, 0, 1])).unwrap();
    reader.set_data(Encoding::PLAIN, plain(&[6]), 1, Some(1)).unwrap();
    reader.read_records(&levels(&[1])).unwrap();
    let batch = reader.consume_batch().unwrap();
    assert_eq!(decoded(&batch), vec![None, Some(4), Some(5), None, Some(4), Some(6)]);
    assert_eq!(batch.inner.data_type(), &dictionary_of(ArrowType::Int64));
}

#[test]
fn empty_arrays_of_other_value_types_can_be_made() {
    let flat = [
        ArrowType::Null,
        ArrowType::Boolean,
        ArrowType::Utf8,
        ArrowType::LargeUtf8,
        ArrowType::Utf8View,
        ArrowType::Binary,
        ArrowType::LargeBinary,
        ArrowType::BinaryView,
        ArrowType::FixedSizeBinary(0),
        ArrowType::FixedSizeBinary(4),
        ArrowType::Float16,
        ArrowType::Float64,
        ArrowType::Date32,
        ArrowType::Date64,
        ArrowType::Timestamp(TimeUnit::Nanosecond, Some("UTC".into())),
        ArrowType::Time32(TimeUnit::Second),
        ArrowType::Time64(TimeUnit::Nanosecond),
        ArrowType::Duration(TimeUnit::Second),
        ArrowType::Interval(arrow_schema::IntervalUnit::MonthDayNano),
        ArrowType::Decimal32(9, 2),
        ArrowType::Decimal64(18, 2),
        ArrowType::Decimal128(38, 10),
        ArrowType::Decimal256(76, 10),
        dictionary_of(ArrowType::Utf8),
    ];
    for value in flat {
        let mut reader = reader_for(required(), value.clone());
        assert!(reader.check_batch());
        let batch = reader.consume_batch().unwrap();
        assert_eq!(batch.inner.len(), 0);
        assert_eq!(batch.inner.data_type(), &dictionary_of(value));
    }
    for value in [
        ArrowType::Time32(TimeUnit::Nanosecond),
        ArrowType::Time64(TimeUnit::Second),
        ArrowType::FixedSizeBinary(-1),
        ArrowType::Dictionary(Box::new(ArrowType::Utf8), Box::new(ArrowType::Utf8)),
    ] {
        assert!(!reader_for(required(), value).check_batch());
    }
}

#[test]
fn every_integer_is_a_key_type_of_an_empty_array() {
    for key in [
        ArrowType::Int8,
        ArrowType::Int16,
        ArrowType::Int32,
        ArrowType::Int64,
        ArrowType::UInt8,
        ArrowType::UInt16,
        ArrowType::UInt32,
        ArrowType::UInt64,
    ] {
        let declared = ArrowType::Dictionary(Box::new(key), Box::new(ArrowType::Int64));
        let mut reader: Reader =
            make_primitive_dictionary_reader(Arc::new(required()), declared.clone(), 8).unwrap();
        assert!(reader.check_batch());
        assert_eq!(reader.consume_batch().unwrap().inner.data_type(), &declared);
    }
}

#[test]
fn empty_arrays_of_nested_value_types_can_be_made() {
    let item = Arc::new(Field::new("item", ArrowType::Utf8, true));
    let odd = Arc::new(Field::new("item", ArrowType::Time32(TimeUnit::Nanosecond), true));
    let ends = Arc::new(Field::new("run_ends", ArrowType::Int16, false));
    let pair = Fields::from(vec![Arc::clone(&item), Arc::clone(&ends)]);
    let entries = Arc::new(Field::new("entries", ArrowType::Struct(pair.clone()), false));
    let union = UnionFields::from_iter([(3i8, Arc::clone(&item)), (5, Arc::clone(&ends))]);
    let nested = [
        ArrowType::List(Arc::clone(&item)),
        ArrowType::LargeList(Arc::clone(&item)),
        ArrowType::ListView(Arc::clone(&item)),
        ArrowType::LargeListView(Arc::clone(&item)),
        ArrowType::FixedSizeList(Arc::clone(&item), 3),
        ArrowType::FixedSizeList(Arc::clone(&item), -3),
        ArrowType::Struct(pair),
        ArrowType::Struct(Fields::empty()),
        ArrowType::Map(Arc::clone(&entries), false),
        ArrowType::RunEndEncoded(Arc::clone(&ends), Arc::clone(&item)),
        ArrowType::Union(union.clone(), UnionMode::Sparse),
        ArrowType::Union(union, UnionMode::Dense),
        ArrowType::Union(UnionFields::empty(), UnionMode::Dense),
        ArrowType::List(Arc::clone(&entries)),
    ];
    for value in nested {
        let mut reader = reader_for(required(), value.clone());
        assert!(reader.check_batch());
        let batch = reader.consume_batch().unwrap();
        assert_eq!(batch.inner.len(), 0);
        assert_eq!(batch.inner.data_type(), &dictionary_of(value));
    }
    for value in [
        ArrowType::List(Arc::clone(&odd)),
        ArrowType::Struct(Fields::from(vec![Arc::clone(&item), Arc::clone(&odd)])),
        ArrowType::Map(Arc::clone(&item), false),
        ArrowType::RunEndEncoded(Arc::clone(&item), Arc::clone(&ends)),
        ArrowType::Union(UnionFields::from_iter([(0i8, odd)]), UnionMode::Sparse),
    ] {
        assert!(!reader_for(required(), value).check_batch());
    }
}
