use std::sync::Arc;

use arrow_array::BooleanArray;
use arrow_buffer::{BooleanBuffer, NullBuffer};
use arrow_schema::{ArrowError, DataType as ArrowType, TimeUnit};
use bytes::Bytes;

use primitive_dictionary::bits::{pack_byte, Bitmap};
use primitive_dictionary::column::{space_out, ColumnValueDecoder, DecodeBuffer, ValuesBuffer};
use primitive_dictionary::dictionary::{PrimitiveDictionaryBuffer, PrimitiveDictionaryDecoder};
use primitive_dictionary::errors::{
    not_dictionary_message, Encoding, ParquetError, Reason,
};
use primitive_dictionary::filter::filter_rows;
use primitive_dictionary::pack::pack;
use primitive_dictionary::plain::{decode_dictionary, ColumnValueDecoderImpl, PlainDecoder};
use primitive_dictionary::predicate::{
    PrimitivePredicateBuffer, PrimitivePredicateDecoder, UnconfiguredPrimitivePredicate,
};
use primitive_dictionary::record_reader::Levels;
use primitive_dictionary::rle::RleDecoder;
use primitive_dictionary::shared::SharedDictionary;
use primitive_dictionary::types::{ColumnDescriptor, DataType, Int32Type, Int64Type};

fn column() -> Arc<ColumnDescriptor> {
    Arc::new(ColumnDescriptor {
        max_def_level: 0,
        max_rep_level: 0,
        type_length: 0,
        is_optional: false,
    })
}

fn plain(values: &[i64]) -> Bytes {
    let mut bytes = Vec::new();
    for value in values {
        bytes.extend_from_slice(&value.to_le_bytes());
    }
    Bytes::from(bytes)
}

fn indices(width: u8, data: &[u8], count: usize) -> (usize, Vec<i32>) {
    let mut decoder = RleDecoder::new(width);
    decoder.set_data(Bytes::from(data.to_vec())).unwrap();
    let mut read = vec![-1; count];
    let got = decoder.get_batch(&mut read, 0).unwrap();
    (got, read)
}

#[test]
fn runs_of_one_index() {
    // 300 times an index of ten bits: the header takes two bytes, the index two.
    let (got, read) = indices(10, &[0xd8, 0x04, 0x34, 0x02], 300);
    assert_eq!(got, 300);
    assert!(read.iter().all(|index| *index == 0x234));
}

#[test]
fn groups_of_packed_indices() {
    // The indices 0 to 7 of three bits each.
    let (got, read) = indices(3, &[0x03, 0x88, 0xc6, 0xfa], 8);
    assert_eq!(got, 8);
    assert_eq!(read, vec![0, 1, 2, 3, 4, 5, 6, 7]);
}

#[test]
fn packed_groups_may_be_cut_short() {
    // Two groups of eight indices of one byte, with bytes for nine of them.
    let (got, read) = indices(8, &[0x05, 1, 2, 3, 4, 5, 6, 7, 8, 9], 16);
    assert_eq!(got, 9);
    assert_eq!(read[8..10], [9, -1]);
}

#[test]
fn runs_follow_each_other() {
    let mut decoder = RleDecoder::new(1);
    decoder.set_data(Bytes::from(vec![4u8, 1, 3, 0b1010_1010])).unwrap();
    assert_eq!(decoder.skip(3).unwrap(), 3);
    let mut read = vec![-1; 9];
    assert_eq!(decoder.get_batch(&mut read, 2).unwrap(), 7);
    assert_eq!(read, vec![-1, -1, 1, 0, 1, 0, 1, 0, 1]);
    assert_eq!(decoder.skip(1).unwrap(), 0);
}

#[test]
fn a_repeated_index_has_to_be_there() {
    let mut decoder = RleDecoder::new(8);
    assert!(matches!(
        decoder.set_data(Bytes::from(vec![4u8])),
        Err(ParquetError::General(Reason::IndexData))
    ));
    // The first run is fine and the second is not.
    decoder.set_data(Bytes::from(vec![2u8, 7, 2])).unwrap();
    let mut read = vec![-1; 1];
    assert_eq!(decoder.get_batch(&mut read, 0).unwrap(), 1);
    match decoder.skip(1).unwrap_err() {
        ParquetError::General(reason) => {
            assert_eq!(reason.message(), "Not enough bytes to decode a repeated index");
        }
        other => panic!("{:?}", other),
    }
}

#[test]
fn indices_are_looked_up() {
    let mut decoder = RleDecoder::new(2);
    decoder.set_data(Bytes::from(vec![3u8, 0b00_10_01_10, 0])).unwrap();
    assert!(decoder.check_indices(4, 3));
    assert!(!decoder.check_indices(4, 2));
    let mut found = vec![0u8; 5];
    let dictionary = vec![10u8, 20, 30];
    assert_eq!(decoder.get_batch_with_dict(&dictionary, &mut found, 1, 4).unwrap(), 4);
    assert_eq!(found, vec![0, 30, 20, 30, 10]);
}

#[test]
fn reading_in_parts_is_reading_at_once() {
    let data = Bytes::from(vec![2u8, 3, 0b11_10_01_00, 0b00_01_10_11, 6, 2]);
    let mask = vec![1u8, 0, 0, 1];
    let mut at_once = RleDecoder::new(2);
    at_once.set_data(data.slice(1..)).unwrap();
    let mut whole = vec![9u8; 11];
    assert_eq!(at_once.get_batch_with_dict(&mask, &mut whole, 0, 11).unwrap(), 11);
    let mut in_parts = RleDecoder::new(2);
    in_parts.set_data(data.slice(1..)).unwrap();
    let mut parts = vec![9u8; 11];
    assert_eq!(in_parts.get_batch_with_dict(&mask, &mut parts, 0, 5).unwrap(), 5);
    assert_eq!(in_parts.get_batch_with_dict(&mask, &mut parts, 5, 6).unwrap(), 6);
    assert_eq!(whole, vec![1, 0, 0, 1, 1, 0, 0, 1, 0, 0, 0]);
    assert_eq!(parts, whole);
}

#[test]
fn plain_values_are_little_endian() {
    assert_eq!(Int64Type::from_plain(&[0, 1, 2, 0, 0, 0, 0, 0, 0x80], 1), i64::MIN + 0x201);
    assert_eq!(Int32Type::from_plain(&[0xfe, 0xff, 0xff, 0xff], 0), -2);
    let mut decoder = PlainDecoder::<Int64Type>::new(0);
    decoder.set_data(plain(&[3, -4, 5]), 3).unwrap();
    let mut read = vec![0i64; 3];
    assert_eq!(decoder.skip(1).unwrap(), 1);
    assert_eq!(decoder.get(&mut read, 1).unwrap(), 2);
    assert_eq!(read, vec![0, -4, 5]);
}

#[test]
fn plain_values_need_their_bytes() {
    match decode_dictionary::<Int64Type>(plain(&[1]), 2, 0).unwrap_err() {
        ParquetError::EOF(reason) => assert_eq!(reason.message(), "Not enough bytes to decode"),
        other => panic!("{:?}", other),
    }
    assert_eq!(decode_dictionary::<Int64Type>(plain(&[1, 2]), 2, 0).unwrap(), vec![1, 2]);
}

#[test]
fn plain_pages_stop_at_their_count() {
    let mut decoder = ColumnValueDecoderImpl::<Int64Type>::new(&column());
    assert!(!decoder.is_ready());
    decoder.set_data(Encoding::PLAIN, plain(&[1, 2, 3]), 9, Some(2)).unwrap();
    assert!(decoder.is_ready());
    let mut out = vec![7i64];
    assert_eq!(decoder.read(&mut out, 5).unwrap(), 2);
    assert_eq!(out, vec![7, 1, 2]);
    match decoder.set_data(Encoding::RLE, plain(&[]), 0, None).unwrap_err() {
        ParquetError::NYI(reason) => {
            assert_eq!(reason.message(), "Unsupported encoding type for values: RLE");
        }
        other => panic!("{:?}", other),
    }
}

#[test]
fn a_dictionary_page_has_one_of_three_encodings() {
    type Decoder = PrimitiveDictionaryDecoder<Int64Type, ColumnValueDecoderImpl<Int64Type>>;
    let all = [
        Encoding::PLAIN,
        Encoding::PLAIN_DICTIONARY,
        Encoding::RLE,
        Encoding::BIT_PACKED,
        Encoding::DELTA_BINARY_PACKED,
        Encoding::DELTA_LENGTH_BYTE_ARRAY,
        Encoding::DELTA_BYTE_ARRAY,
        Encoding::RLE_DICTIONARY,
        Encoding::BYTE_STREAM_SPLIT,
    ];
    for encoding in all {
        let mut decoder = Decoder::new(&column());
        let accepted = decoder.set_dict(plain(&[1]), 1, encoding, false);
        match encoding {
            Encoding::PLAIN | Encoding::PLAIN_DICTIONARY | Encoding::RLE_DICTIONARY => {
                accepted.unwrap();
            }
            _ => match accepted.unwrap_err() {
                ParquetError::NYI(reason) => assert_eq!(
                    reason.message(),
                    format!(
                        "Invalid/Unsupported encoding type for dictionary: {:?}",
                        encoding
                    )
                ),
                other => panic!("{:?}", other),
            },
        }
    }
}

#[test]
fn a_refused_dictionary_leaves_the_old_one() {
    type Decoder = PrimitiveDictionaryDecoder<Int64Type, ColumnValueDecoderImpl<Int64Type>>;
    let mut decoder = Decoder::new(&column());
    decoder.set_dict(plain(&[4]), 1, Encoding::PLAIN, false).unwrap();
    assert!(decoder.set_dict(plain(&[4]), 2, Encoding::PLAIN, false).is_err());
    decoder.set_data(Encoding::RLE_DICTIONARY, Bytes::from(vec![1u8, 2, 0]), 1, None).unwrap();
    let mut out = PrimitiveDictionaryBuffer::with_capacity(1);
    assert_eq!(decoder.read(&mut out, 3).unwrap(), 1);
    assert_eq!(out.spill_values(), &vec![4]);
}

#[test]
fn a_page_hands_out_no_more_than_it_has() {
    type Decoder = PrimitiveDictionaryDecoder<Int64Type, ColumnValueDecoderImpl<Int64Type>>;
    let mut decoder = Decoder::new(&column());
    decoder.set_dict(plain(&[4, 5]), 2, Encoding::PLAIN, false).unwrap();
    // Ten times the index 1, of which the page has three values.
    let data = Bytes::from(vec![1u8, 20, 1]);
    decoder.set_data(Encoding::RLE_DICTIONARY, data, 10, Some(3)).unwrap();
    let mut out = PrimitiveDictionaryBuffer::with_capacity(4);
    assert_eq!(decoder.read(&mut out, 2).unwrap(), 2);
    assert_eq!(decoder.skip_values(5).unwrap(), 1);
    assert_eq!(decoder.read(&mut out, 2).unwrap(), 0);
    assert_eq!(out.num_held(), 2);
}

#[test]
fn keys_are_handed_out_for_their_own_dictionary() {
    let first = SharedDictionary::new(vec![1i64, 2]);
    let second = SharedDictionary::new(vec![1i64, 2]);
    let mut buffer = PrimitiveDictionaryBuffer::<Int64Type>::with_capacity(0);
    buffer.as_keys(&first).unwrap().push(1);
    buffer.as_keys(&first).unwrap().push(0);
    // The other dictionary has the same values, but it is another one.
    assert!(buffer.as_keys(&second).is_none());
    assert!(buffer.check_keys());
    assert_eq!(buffer.spill_values(), &vec![2, 1]);
    assert!(buffer.as_keys(&first).is_none());
    buffer.spill_values().clear();
    assert!(buffer.as_keys(&second).unwrap().is_empty());
    // Keys without rows change over to another dictionary.
    buffer.as_keys(&first).unwrap().push(1);
    assert!(buffer.as_keys(&second).is_none());
    assert_eq!(buffer.as_keys(&first).unwrap(), &vec![1]);
    match &buffer {
        PrimitiveDictionaryBuffer::Dict { values, .. } => assert_eq!(values.values(), &vec![1, 2]),
        PrimitiveDictionaryBuffer::Values(_) => panic!("values"),
    }
}

#[test]
fn stray_keys_are_found() {
    let dictionary = SharedDictionary::new(vec![1i64]);
    let mut buffer = PrimitiveDictionaryBuffer::<Int64Type>::with_capacity(0);
    buffer.as_keys(&dictionary).unwrap().push(-1);
    assert!(!buffer.check_keys());
}

#[test]
fn values_move_to_their_rows() {
    let mut values = vec![9, 1, 2, 3];
    // Row 0 is there already; of rows 1 to 6, rows 2, 3 and 6 are valid.
    space_out(&mut values, 0, 1, 3, 6, &[0b100_1101]);
    assert_eq!(values.len(), 7);
    assert_eq!((values[0], values[2], values[3], values[6]), (9, 1, 2, 3));
    let mut keys = PrimitiveDictionaryBuffer::<Int64Type>::with_capacity(0);
    keys.as_keys(&SharedDictionary::new(vec![5i64, 6])).unwrap().extend([1, 1]);
    keys.pad_nulls(0, 2, 3, &[0b110]);
    assert_eq!(keys.spill_values()[1..], [6, 6]);
}

#[test]
fn answers_stay_compact() {
    let mut answers = PrimitivePredicateBuffer::with_capacity(4);
    let given = BooleanArray::from(vec![Some(true), None, Some(false)]);
    assert_eq!(answers.append_answer(Ok(given), 3).unwrap(), 3);
    answers.pad_nulls(0, 3, 5, &[0b10101]);
    assert_eq!(answers.num_held(), 3);
    assert_eq!(answers.into_values(), vec![1, 0, 0]);
}

#[test]
fn a_decoder_without_a_predicate_refuses_dictionaries() {
    type Decoder = PrimitivePredicateDecoder<
        Int64Type,
        UnconfiguredPrimitivePredicate,
        ColumnValueDecoderImpl<Int64Type>,
    >;
    let mut decoder = Decoder::new(&column());
    assert!(decoder.set_dict(plain(&[1]), 1, Encoding::PLAIN, false).is_err());
    // The stand-in says so itself once the values can be handed to it.
    let mut decoder = Decoder::with_predicate(
        column(),
        ArrowType::Int64,
        Arc::new(UnconfiguredPrimitivePredicate),
    );
    let error = decoder.set_dict(plain(&[1]), 1, Encoding::PLAIN, false).unwrap_err();
    assert!(matches!(
        error,
        ParquetError::External(ArrowError::ComputeError(m))
            if m == "primitive predicate decoder was not configured"
    ));
}

#[test]
fn bits_are_packed_from_the_lowest() {
    let compact = vec![1, 0, 1, 1, 0, 1, 0, 1, 1];
    assert_eq!(pack_byte(0xff, &compact, 0), (0b1010_1101, 8));
    assert_eq!(pack_byte(0b1001_0010, &compact, 6), (0b1001_0000, 9));
    assert_eq!(pack_byte(0, &compact, 9), (0, 9));
    let mut bits = Bitmap::new();
    for i in 0..11 {
        bits.push(i % 3 == 0);
    }
    assert_eq!(bits.len(), 11);
    assert_eq!(bits.as_bytes(), &[0b0100_1001, 0b010]);
    assert_eq!(bits.into_bytes(), vec![0b0100_1001, 0b010]);
}

#[test]
fn a_filter_covers_the_valid_rows() {
    let validity = BooleanBuffer::from(vec![
        true, false, true, true, true, true, true, true, true, true, false, true,
    ]);
    let compact = vec![1, 0, 1, 1, 1, 0, 0, 1, 0, 1];
    let rows = filter_rows(Some(&validity), &compact, 12);
    let expected = [1, 0, 0, 1, 1, 1, 0, 0, 1, 0, 0, 1].map(|bit| Some(bit == 1));
    assert_eq!(rows.iter().collect::<Vec<_>>(), expected.to_vec());
    let all = filter_rows(None, &compact, 10);
    let expected: Vec<_> = compact.iter().map(|bit| Some(*bit == 1)).collect();
    assert_eq!(all.iter().collect::<Vec<_>>(), expected);
}

#[test]
fn rows_are_packed_once_per_value() {
    let nulls = NullBuffer::from(vec![true, false, true, true]);
    let (keys, values) = pack::<Int64Type>(&vec![8, 1, 9, 8], &Some(nulls)).unwrap();
    assert_eq!(values, vec![8, 9]);
    assert_eq!((keys[0], keys[2], keys[3]), (0, 1, 0));
}

#[test]
fn levels_are_counted() {
    let column =
        ColumnDescriptor { max_def_level: 3, max_rep_level: 2, type_length: 0, is_optional: true };
    let levels = Levels { count: 4, def_levels: vec![3, 0, 2, 3], rep_levels: vec![0, 0, 1, 2] };
    assert!(levels.check(&column));
    assert_eq!(levels.num_valid(&column), 2);
    assert_eq!(levels.num_records(&column), 2);
    let short = Levels { count: 4, def_levels: vec![3], rep_levels: vec![0, 0, 1, 2] };
    assert!(!short.check(&column));
}

#[test]
fn rare_reasons_are_told() {
    assert_eq!(Reason::KeyOverflow.message(), "Too many distinct values for 32-bit keys");
    assert_eq!(
        Reason::DictionaryPredicateLength { returned: 0, expected: 1234567890 }.message(),
        "primitive dictionary predicate returned 0 values, expected 1234567890"
    );
}

#[test]
fn plain_values_can_be_read_in_parts() {
    let mut at_once = ColumnValueDecoderImpl::<Int64Type>::new(&column());
    at_once.set_data(Encoding::PLAIN, plain(&[6, 5, 4, 3]), 4, None).unwrap();
    let mut whole = Vec::new();
    assert_eq!(at_once.read(&mut whole, 3).unwrap(), 3);
    let mut in_parts = ColumnValueDecoderImpl::<Int64Type>::new(&column());
    in_parts.set_data(Encoding::PLAIN, plain(&[6, 5, 4, 3]), 4, None).unwrap();
    let mut parts = Vec::new();
    assert_eq!(in_parts.read(&mut parts, 1).unwrap(), 1);
    assert_eq!(in_parts.read(&mut parts, 2).unwrap(), 2);
    assert_eq!(whole, vec![6, 5, 4]);
    assert_eq!(parts, whole);
    assert_eq!(in_parts.skip_values(9).unwrap(), 1);
}

#[test]
fn a_type_that_is_no_dictionary_is_written_out() {
    assert_eq!(
        Reason::NotDictionary(ArrowType::Int32).message(),
        "invalid non-dictionary data type for primitive dictionary reader - Int32"
    );
    assert_eq!(
        Reason::NotDictionary(ArrowType::FixedSizeBinary(3)).message(),
        not_dictionary_message("FixedSizeBinary(3)")
    );
    let spent = ArrowType::Duration(TimeUnit::Second);
    let text = spent.to_string();
    assert_eq!(Reason::NotDictionary(spent).message(), not_dictionary_message(&text));
    // The types without parameters write their names.
    let named = [
        (ArrowType::Null, "Null"),
        (ArrowType::Boolean, "Boolean"),
        (ArrowType::Int8, "Int8"),
        (ArrowType::Int16, "Int16"),
        (ArrowType::Int64, "Int64"),
        (ArrowType::UInt8, "UInt8"),
        (ArrowType::UInt16, "UInt16"),
        (ArrowType::UInt32, "UInt32"),
        (ArrowType::UInt64, "UInt64"),
        (ArrowType::Float16, "Float16"),
        (ArrowType::Float32, "Float32"),
        (ArrowType::Float64, "Float64"),
        (ArrowType::Date32, "Date32"),
        (ArrowType::Date64, "Date64"),
        (ArrowType::Binary, "Binary"),
        (ArrowType::LargeBinary, "LargeBinary"),
        (ArrowType::BinaryView, "BinaryView"),
        (ArrowType::Utf8, "Utf8"),
        (ArrowType::LargeUtf8, "LargeUtf8"),
        (ArrowType::Utf8View, "Utf8View"),
    ];
    for (data_type, name) in named {
        assert_eq!(Reason::NotDictionary(data_type).message(), not_dictionary_message(name));
    }
}
