use primitive_dictionary::record_reader::Levels;
use primitive_dictionary::rows::{RowCursor, Step};
use primitive_dictionary::types::ColumnDescriptor;

fn column(max_def_level: i16, max_rep_level: i16) -> ColumnDescriptor {
    ColumnDescriptor { max_def_level, max_rep_level, type_length: 0, is_optional: true }
}

#[test]
fn flat_rows_are_records() {
    let column = column(1, 0);
    let levels = Levels { count: 3, def_levels: vec![1, 0, 1], rep_levels: Vec::new() };
    let mut cursor = RowCursor::new(levels);
    match cursor.next_step(&column, 2) {
        Step::Rows(run) => {
            assert_eq!(run.count, 2);
            assert_eq!(run.def_levels, vec![1, 0]);
            assert_eq!(run.rep_levels, vec![]);
        }
        _ => panic!("rows"),
    }
    assert!(matches!(cursor.next_step(&column, 0), Step::Done));
    let run = cursor.next_run(&column, 9);
    assert_eq!((run.count, run.def_levels), (1, vec![1]));
    assert!(matches!(cursor.next_step(&column, 4), Step::Fetch));
    assert!(matches!(cursor.next_step(&column, 0), Step::Done));
}

#[test]
fn a_record_keeps_its_rows() {
    let column = column(0, 1);
    let levels = Levels { count: 5, def_levels: Vec::new(), rep_levels: vec![1, 0, 1, 1, 0] };
    let mut cursor = RowCursor::new(levels);
    // The first row goes on with a record of the page before.
    let run = cursor.next_run(&column, 1);
    assert_eq!(run.rep_levels, vec![1, 0, 1, 1]);
    assert_eq!(run.num_records(&column), 1);
    assert!(matches!(cursor.next_step(&column, 0), Step::Done));
    assert_eq!(cursor.next_run(&column, 1).count, 1);
    // The record may go on in the next page.
    assert!(matches!(cursor.next_step(&column, 0), Step::Fetch));
}

#[test]
fn a_cursor_without_rows_asks_for_a_page() {
    let mut cursor = RowCursor::at_end();
    assert!(matches!(cursor.next_step(&column(1, 1), 3), Step::Fetch));
    assert_eq!(cursor.next_run(&column(1, 1), 3).count, 0);
}
