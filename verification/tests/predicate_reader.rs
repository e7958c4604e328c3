use std::sync::atomic::{AtomicUsize, Ordering};
use std::sync::Arc;

use arrow_array::cast::AsArray;
use arrow_array::{Array, BooleanArray, Int64Array};
use arrow_schema::{ArrowError, DataType as ArrowType};
use bytes::Bytes;

use primitive_dictionary::arrow::ArrowArray;
use primitive_dictionary::errors::{Encoding, ParquetError, Reason};
use primitive_dictionary::plain::ColumnValueDecoderImpl;
use primitive_dictionary::predicate::PrimitiveDictionaryPredicate;
use primitive_dictionary::reader::{make_primitive_predicate_reader, PrimitivePredicateReader};
use primitive_dictionary::record_reader::Levels;
use primitive_dictionary::types::{ColumnDescriptor, Int64Type};

struct EqualsTwoDictionaryPredicate {
    evaluations: AtomicUsize,
}

impl PrimitiveDictionaryPredicate for EqualsTwoDictionaryPredicate {
    fn evaluate(&self, values: ArrowArray) -> Result<BooleanArray, ArrowError> {
        self.evaluations.fetch_add(1, Ordering::Relaxed);
        let values = values.inner.as_primitive::<arrow_array::types::Int64Type>();
        Ok(values.iter().map(|value| value.map(|value| value == 2)).collect())
    }
}

/// Answers with one slot too many, or fails.
struct Odd {
    fails: bool,
}

impl PrimitiveDictionaryPredicate for Odd {
    fn evaluate(&self, values: ArrowArray) -> Result<BooleanArray, ArrowError> {
        if self.fails {
            return Err(ArrowError::ComputeError("odd".to_string()));
        }
        Ok(BooleanArray::from(vec![true; values.inner.len() + 1]))
    }
}

/// Answers null for negative values, and whether the value is odd for the others.
struct Undecided;

impl PrimitiveDictionaryPredicate for Undecided {
    fn evaluate(&self, values: ArrowArray) -> Result<BooleanArray, ArrowError> {
        let values = values.inner.as_primitive::<arrow_array::types::Int64Type>();
        Ok(values
            .iter()
            .map(|value| value.and_then(|v| if v < 0 { None } else { Some(v % 2 == 1) }))
            .collect())
    }
}

type Reader<P> = PrimitivePredicateReader<Int64Type, P, ColumnValueDecoderImpl<Int64Type>>;

fn nullable() -> ColumnDescriptor {
    ColumnDescriptor { max_def_level: 1, max_rep_level: 0, type_length: 0, is_optional: true }
}

fn required() -> ColumnDescriptor {
    ColumnDescriptor { max_def_level: 0, max_rep_level: 0, type_length: 0, is_optional: false }
}

fn plain(values: &[i64]) -> Bytes {
    let mut bytes = Vec::new();
    for value in values {
        bytes.extend_from_slice(&value.to_le_bytes());
    }
    Bytes::from(bytes)
}

fn levels(def_levels: &[i16]) -> Levels {
    Levels { count: def_levels.len(), def_levels: def_levels.to_vec(), rep_levels: Vec::new() }
}

fn reader<P: PrimitiveDictionaryPredicate>(
    column: ColumnDescriptor,
    predicate: Arc<P>,
) -> Reader<P> {
    let mut reader =
        make_primitive_predicate_reader(Arc::new(column), ArrowType::Int64, 2, predicate).unwrap();
    reader.start_chunk();
    reader
}

fn slots(batch: &BooleanArray) -> Vec<Option<bool>> {
    batch.iter().collect()
}

/// The rows 1, 2, null, 3, 2, 1 in batches of two rows. Gives how often the predicate was asked.
fn run_primitive_predicate(dictionary_enabled: bool) -> usize {
    let values =
        Int64Array::from(vec![Some(1), Some(2), None, Some(3), Some(2), Some(1)]);
    let predicate = Arc::new(EqualsTwoDictionaryPredicate { evaluations: AtomicUsize::new(0) });
    let mut reader = reader(nullable(), Arc::clone(&predicate));
    if dictionary_enabled {
        reader.set_dict(plain(&[1, 2, 3]), 3, Encoding::PLAIN, false).unwrap();
        // One group of eight indices of two bits: 0, 1, 2, 1, 0 and three that are not there.
        let data = Bytes::from(vec![2u8, 3, 0b01_10_01_00, 0]);
        reader.set_data(Encoding::RLE_DICTIONARY, data, 6, Some(5)).unwrap();
    } else {
        reader.set_data(Encoding::PLAIN, plain(&[1, 2, 3, 2, 1]), 6, Some(5)).unwrap();
    }

    let mut kept = Vec::new();
    let mut row = 0;
    for run in [[1i16, 1], [0, 1], [1, 1]] {
        let run = levels(&run);
        assert!(reader.check_records(&run));
        assert_eq!(reader.read_records(&run).unwrap(), 2);
        assert!(reader.check_batch());
        let batch = reader.consume_batch().unwrap();
        assert_eq!(batch.len(), 2);
        assert_eq!(batch.null_count(), 0);
        for slot in batch.iter() {
            if slot.unwrap() {
                kept.push(values.is_valid(row).then_some(values.value(row)));
            }
            row += 1;
        }
    }
    assert_eq!(kept, vec![Some(2), Some(2)]);
    predicate.evaluations.load(Ordering::Relaxed)
}

#[test]
fn evaluates_primitive_dictionary_once_for_predicate() {
    assert_eq!(run_primitive_predicate(true), 1);
}

#[test]
fn evaluates_plain_primitive_values_for_predicate() {
    assert_eq!(run_primitive_predicate(false), 3);
}

#[test]
fn null_answers_are_false() {
    let mut reader = reader(required(), Arc::new(Undecided));
    reader.set_data(Encoding::PLAIN, plain(&[1, -1, 2, 3]), 4, None).unwrap();
    let run = Levels { count: 4, def_levels: Vec::new(), rep_levels: Vec::new() };
    assert_eq!(reader.read_records(&run).unwrap(), 4);
    let batch = reader.consume_batch().unwrap();
    assert_eq!(slots(&batch), vec![Some(true), Some(false), Some(false), Some(true)]);
    assert_eq!(reader.get_def_levels(), None);
}

#[test]
fn a_long_batch_packs_whole_and_partial_bytes() {
    let mut reader = reader(required(), Arc::new(Undecided));
    let values: Vec<i64> = (0..19).collect();
    reader.set_data(Encoding::PLAIN, plain(&values), 19, None).unwrap();
    let run = Levels { count: 19, def_levels: Vec::new(), rep_levels: Vec::new() };
    assert_eq!(reader.read_records(&run).unwrap(), 19);
    let batch = reader.consume_batch().unwrap();
    let expected: Vec<Option<bool>> = (0..19).map(|v| Some(v % 2 == 1)).collect();
    assert_eq!(slots(&batch), expected);
}

#[test]
fn nulls_are_spread_over_several_bytes() {
    let mut reader = reader(nullable(), Arc::new(Undecided));
    // Every third row is null; the others count up from zero.
    let def_levels: Vec<i16> = (0..20).map(|row| i16::from(row % 3 != 0)).collect();
    let held = def_levels.iter().filter(|level| **level == 1).count();
    let values: Vec<i64> = (0..held as i64).collect();
    reader.set_data(Encoding::PLAIN, plain(&values), 20, Some(held)).unwrap();
    reader.read_records(&levels(&def_levels)).unwrap();
    let batch = reader.consume_batch().unwrap();
    let mut next = 0;
    for (row, slot) in slots(&batch).into_iter().enumerate() {
        if def_levels[row] == 0 {
            assert_eq!(slot, Some(false));
        } else {
            assert_eq!(slot, Some(next % 2 == 1));
            next += 1;
        }
    }
    assert_eq!(batch.len(), 20);
    assert_eq!(reader.get_def_levels(), Some(def_levels.as_slice()));
    assert_eq!(reader.get_rep_levels(), None);
}

#[test]
fn two_reads_make_one_batch() {
    let mut reader = reader(nullable(), Arc::new(Undecided));
    reader.set_dict(plain(&[5, 6]), 2, Encoding::PLAIN_DICTIONARY, false).unwrap();
    // Four times the index 0, then three times the index 1.
    let data = Bytes::from(vec![1u8, 8, 0, 6, 1]);
    reader.set_data(Encoding::PLAIN_DICTIONARY, data, 9, Some(7)).unwrap();
    assert_eq!(reader.read_records(&levels(&[1, 0, 1, 1])).unwrap(), 4);
    assert_eq!(reader.read_records(&levels(&[1, 0, 1, 1, 1])).unwrap(), 5);
    let batch = reader.consume_batch().unwrap();
    let expected = [true, false, true, true, true, false, false, false, false];
    assert_eq!(slots(&batch), expected.iter().map(|b| Some(*b)).collect::<Vec<_>>());
    let next = reader.consume_batch().unwrap();
    assert_eq!(next.len(), 0);
}

#[test]
fn skipped_values_are_passed_over() {
    let mut reader = reader(required(), Arc::new(Undecided));
    reader.set_data(Encoding::PLAIN, plain(&[2, 2, 3]), 3, None).unwrap();
    let two = Levels { count: 2, def_levels: Vec::new(), rep_levels: Vec::new() };
    assert!(reader.check_skip(&two));
    assert_eq!(reader.skip_records(&two).unwrap(), 2);
    let run = Levels { count: 1, def_levels: Vec::new(), rep_levels: Vec::new() };
    reader.read_records(&run).unwrap();
    assert_eq!(slots(&reader.consume_batch().unwrap()), vec![Some(true)]);
    let error = reader.skip_records(&run).unwrap_err();
    match error {
        ParquetError::General(reason) => {
            assert_eq!(reason.message(), "skipped 0 values, expected 1");
        }
        other => panic!("{:?}", other),
    }
}

#[test]
fn lists_count_their_records() {
    let column =
        ColumnDescriptor { max_def_level: 2, max_rep_level: 1, type_length: 0, is_optional: true };
    let mut reader = reader(column, Arc::new(Undecided));
    reader.set_data(Encoding::PLAIN, plain(&[1, 3]), 4, Some(2)).unwrap();
    let run = Levels { count: 4, def_levels: vec![2, 1, 2, 0], rep_levels: vec![0, 1, 0, 0] };
    assert_eq!(reader.read_records(&run).unwrap(), 3);
    let batch = reader.consume_batch().unwrap();
    assert_eq!(slots(&batch), vec![Some(true), Some(false), Some(true), Some(false)]);
    assert_eq!(reader.get_def_levels(), Some([2i16, 1, 2, 0].as_slice()));
    assert_eq!(reader.get_rep_levels(), Some([0i16, 1, 0, 0].as_slice()));
}

#[test]
fn answers_have_to_cover_the_rows() {
    // The innermost field may not be null, so every level counts as a row with a value.
    let column =
        ColumnDescriptor { max_def_level: 1, max_rep_level: 0, type_length: 0, is_optional: false };
    let mut reader = reader(column, Arc::new(Undecided));
    reader.set_data(Encoding::PLAIN, plain(&[1]), 2, Some(1)).unwrap();
    reader.read_records(&levels(&[1, 0])).unwrap();
    match reader.consume_batch().unwrap_err() {
        ParquetError::General(reason) => {
            assert!(matches!(
                reason,
                Reason::CompactLength { decoded: 1, expected: 2, levels: 2 }
            ));
            assert_eq!(
                reason.message(),
                "primitive predicate decoded 1 values, expected 2 for 2 levels"
            );
        }
        other => panic!("{:?}", other),
    }
    // The answers are gone and the counts are not reset, so that the next batch fails too.
    assert!(reader.check_batch());
    match reader.consume_batch().unwrap_err() {
        ParquetError::General(reason) => assert!(matches!(
            reason,
            Reason::CompactLength { decoded: 0, expected: 2, levels: 2 }
        )),
        other => panic!("{:?}", other),
    }
}

#[test]
fn a_required_column_without_nulls_is_complete() {
    let column =
        ColumnDescriptor { max_def_level: 1, max_rep_level: 0, type_length: 0, is_optional: false };
    let mut reader = reader(column, Arc::new(Undecided));
    reader.set_data(Encoding::PLAIN, plain(&[1, 2]), 2, None).unwrap();
    reader.read_records(&levels(&[1, 1])).unwrap();
    assert_eq!(slots(&reader.consume_batch().unwrap()), vec![Some(true), Some(false)]);
}

#[test]
fn no_batch_is_made_of_rows_whose_validity_is_gone() {
    let mut reader = reader(nullable(), Arc::new(Undecided));
    reader.set_data(Encoding::PLAIN, plain(&[1, 3]), 3, Some(2)).unwrap();
    reader.read_records(&levels(&[1])).unwrap();
    // The second value is read before it is found that the third is missing.
    assert!(reader.read_records(&levels(&[1, 1])).is_err());
    match reader.consume_batch().unwrap_err() {
        ParquetError::General(reason) => assert!(matches!(
            reason,
            Reason::CompactLength { decoded: 2, expected: 1, levels: 1 }
        )),
        other => panic!("{:?}", other),
    }
    assert!(!reader.check_batch());
}

#[test]
fn questions_are_counted() {
    let predicate = Arc::new(EqualsTwoDictionaryPredicate { evaluations: AtomicUsize::new(0) });
    let asked = |predicate: &EqualsTwoDictionaryPredicate| {
        predicate.evaluations.load(Ordering::Relaxed)
    };
    let mut reader = reader(required(), Arc::clone(&predicate));
    let run = |count: usize| Levels { count, def_levels: Vec::new(), rep_levels: Vec::new() };
    // A dictionary that is refused before its values are known takes no question.
    assert!(reader.set_dict(plain(&[1, 2]), 2, Encoding::RLE, false).is_err());
    assert!(reader.set_dict(plain(&[1]), 2, Encoding::PLAIN, false).is_err());
    assert_eq!(asked(&predicate), 0);
    reader.set_dict(plain(&[1, 2]), 2, Encoding::PLAIN, false).unwrap();
    assert_eq!(asked(&predicate), 1);
    for _ in 0..3 {
        let data = Bytes::from(vec![1u8, 8, 1]);
        reader.set_data(Encoding::RLE_DICTIONARY, data, 4, None).unwrap();
        reader.read_records(&run(1)).unwrap();
        reader.skip_records(&run(1)).unwrap();
        reader.read_records(&run(2)).unwrap();
        assert_eq!(slots(&reader.consume_batch().unwrap()), vec![Some(true); 3]);
    }
    assert_eq!(asked(&predicate), 1);
    reader.set_data(Encoding::PLAIN, plain(&[2, 1, 2]), 3, None).unwrap();
    assert_eq!(asked(&predicate), 1);
    reader.read_records(&run(1)).unwrap();
    assert_eq!(asked(&predicate), 2);
    reader.skip_records(&run(1)).unwrap();
    assert_eq!(asked(&predicate), 2);
    reader.read_records(&run(1)).unwrap();
    assert_eq!(asked(&predicate), 3);
    assert_eq!(slots(&reader.consume_batch().unwrap()), vec![Some(true); 2]);
}

#[test]
fn plain_answers_can_be_read_in_parts() {
    let values: Vec<i64> = (0..7).collect();
    let run = |count: usize| Levels { count, def_levels: Vec::new(), rep_levels: Vec::new() };
    let mut at_once = reader(required(), Arc::new(Undecided));
    at_once.set_data(Encoding::PLAIN, plain(&values), 7, None).unwrap();
    at_once.read_records(&run(7)).unwrap();
    let whole = slots(&at_once.consume_batch().unwrap());
    let mut in_parts = reader(required(), Arc::new(Undecided));
    in_parts.set_data(Encoding::PLAIN, plain(&values), 7, None).unwrap();
    in_parts.read_records(&run(3)).unwrap();
    in_parts.read_records(&run(4)).unwrap();
    assert_eq!(slots(&in_parts.consume_batch().unwrap()), whole);
    let mut rest = reader(required(), Arc::new(Undecided));
    rest.set_data(Encoding::PLAIN, plain(&values), 7, None).unwrap();
    rest.skip_records(&run(3)).unwrap();
    rest.read_records(&run(4)).unwrap();
    assert_eq!(slots(&rest.consume_batch().unwrap()), whole[3..].to_vec());
}

#[test]
fn a_page_that_ends_early_is_an_error() {
    let mut reader = reader(nullable(), Arc::new(Undecided));
    reader.set_data(Encoding::PLAIN, plain(&[1]), 2, Some(1)).unwrap();
    match reader.read_records(&levels(&[1, 1])).unwrap_err() {
        ParquetError::General(reason) => {
            assert!(matches!(reason, Reason::InsufficientValues { expected: 2, read: 1 }));
            assert_eq!(
                reason.message(),
                "insufficient values read from column - expected: 2, got: 1"
            );
        }
        other => panic!("{:?}", other),
    }
}

#[test]
fn the_number_of_answers_is_checked() {
    let mut reader = reader(required(), Arc::new(Odd { fails: false }));
    match reader.set_dict(plain(&[1, 2]), 2, Encoding::PLAIN, false).unwrap_err() {
        ParquetError::General(reason) => assert_eq!(
            reason.message(),
            "primitive dictionary predicate returned 3 values, expected 2"
        ),
        other => panic!("{:?}", other),
    }
    reader.set_data(Encoding::PLAIN, plain(&[1]), 1, None).unwrap();
    let run = Levels { count: 1, def_levels: Vec::new(), rep_levels: Vec::new() };
    match reader.read_records(&run).unwrap_err() {
        ParquetError::General(reason) => assert_eq!(
            reason.message(),
            "primitive predicate returned 2 values, expected 1"
        ),
        other => panic!("{:?}", other),
    }
}

#[test]
fn an_error_of_the_predicate_is_handed_on() {
    let mut reader = reader(required(), Arc::new(Odd { fails: true }));
    let error = reader.set_dict(plain(&[1, 2]), 2, Encoding::PLAIN, false).unwrap_err();
    assert!(matches!(error, ParquetError::External(ArrowError::ComputeError(m)) if m == "odd"));
    // The dictionary was refused, so that there is no mask to look up.
    reader.set_data(Encoding::RLE_DICTIONARY, Bytes::from(vec![1u8, 2, 0]), 1, None).unwrap();
    let run = Levels { count: 1, def_levels: Vec::new(), rep_levels: Vec::new() };
    match reader.read_records(&run).unwrap_err() {
        ParquetError::General(reason) => {
            assert_eq!(reason.message(), "missing dictionary predicate mask");
        }
        other => panic!("{:?}", other),
    }
}

#[test]
fn the_batches_are_boolean() {
    let reader = reader(required(), Arc::new(Undecided));
    assert_eq!(reader.get_data_type(), ArrowType::Boolean);
    assert!(reader.is_predicate_result());
}

#[test]
fn two_batches_hold_the_rows_of_one() {
    let def_levels = [1i16, 0, 1, 1, 0, 1, 1, 1, 1, 0, 1];
    let values: Vec<i64> = (0..8).collect();
    let mut at_once = reader(nullable(), Arc::new(Undecided));
    at_once.set_data(Encoding::PLAIN, plain(&values), 11, Some(8)).unwrap();
    at_once.read_records(&levels(&def_levels)).unwrap();
    let whole = slots(&at_once.consume_batch().unwrap());
    let mut in_parts = reader(nullable(), Arc::new(Undecided));
    in_parts.set_data(Encoding::PLAIN, plain(&values), 11, Some(8)).unwrap();
    in_parts.read_records(&levels(&def_levels[..5])).unwrap();
    let mut parts = slots(&in_parts.consume_batch().unwrap());
    in_parts.read_records(&levels(&def_levels[5..])).unwrap();
    parts.extend(slots(&in_parts.consume_batch().unwrap()));
    assert_eq!(parts, whole);
    assert_eq!(whole.iter().filter(|slot| **slot == Some(true)).count(), 4);
}

#[test]
fn skipped_nulls_take_no_values() {
    let mut reader = reader(nullable(), Arc::new(Undecided));
    assert!(!reader.check_skip(&levels(&[0])));
    reader.set_data(Encoding::PLAIN, plain(&[2, 3]), 4, Some(2)).unwrap();
    assert_eq!(reader.skip_records(&levels(&[0, 1, 0])).unwrap(), 3);
    reader.read_records(&levels(&[1])).unwrap();
    assert_eq!(slots(&reader.consume_batch().unwrap()), vec![Some(true)]);
}

#[test]
fn a_batch_crosses_pages_of_both_kinds() {
    let predicate = Arc::new(EqualsTwoDictionaryPredicate { evaluations: AtomicUsize::new(0) });
    let mut reader = reader(nullable(), Arc::clone(&predicate));
    reader.set_dict(plain(&[1, 2, 3]), 3, Encoding::PLAIN, false).unwrap();
    let data = Bytes::from(vec![2u8, 2, 0, 2, 1]);
    reader.set_data(Encoding::RLE_DICTIONARY, data, 2, Some(2)).unwrap();
    reader.read_records(&levels(&[1, 1])).unwrap();
    reader.set_data(Encoding::PLAIN, plain(&[3, 2]), 3, Some(2)).unwrap();
    reader.read_records(&levels(&[0, 1, 1])).unwrap();
    reader.set_data(Encoding::RLE_DICTIONARY, Bytes::from(vec![2u8, 2, 0]), 1, Some(1)).unwrap();
    reader.read_records(&levels(&[1])).unwrap();
    let batch = reader.consume_batch().unwrap();
    let expected = [false, true, false, false, true, false];
    assert_eq!(slots(&batch), expected.iter().map(|b| Some(*b)).collect::<Vec<_>>());
    assert_eq!(predicate.evaluations.load(Ordering::Relaxed), 2);
}
