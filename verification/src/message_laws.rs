//! What the reasons for a failure say.
use vstd::prelude::*;

use crate::arrow::type_text;
use crate::errors::{decimal, Encoding, Reason};

verus! {

/// The number that decimal digits stand for.
pub open spec fn text_number(text: Seq<char>) -> int
    decreases text.len(),
{
    if text.len() == 0 {
        0
    } else {
        10 * text_number(text.drop_last()) + (text.last() as int - '0' as int)
    }
}

/// The text writes the number: digits only, and no zero in front.
pub open spec fn writes_number(text: Seq<char>, n: nat) -> bool {
    &&& text.len() > 0
    &&& forall|i: int| 0 <= i < text.len() ==> '0' <= #[trigger] text[i] <= '9'
    &&& text[0] == '0' ==> text.len() == 1
    &&& text_number(text) == n
}

/// A number is written so that it can be read back.
pub proof fn law_numbers_are_written(n: nat)
    ensures
        writes_number(decimal(n), n),
        n > 0 ==> decimal(n)[0] != '0',
    decreases n,
{
    let text = decimal(n);
    if n < 10 {
        assert(text.drop_last() =~= Seq::empty());
        assert(text_number(text.drop_last()) == 0);
    } else {
        law_numbers_are_written(n / 10);
        assert(text.drop_last() =~= decimal(n / 10));
        assert(text[0] == decimal(n / 10)[0]);
    }
}

/// The encodings are called by their names in the format.
pub proof fn law_encodings_are_named()
    ensures
        Encoding::PLAIN.spec_name() == "PLAIN"@,
        Encoding::PLAIN_DICTIONARY.spec_name() == "PLAIN_DICTIONARY"@,
        Encoding::RLE.spec_name() == "RLE"@,
        Encoding::BIT_PACKED.spec_name() == "BIT_PACKED"@,
        Encoding::DELTA_BINARY_PACKED.spec_name() == "DELTA_BINARY_PACKED"@,
        Encoding::DELTA_LENGTH_BYTE_ARRAY.spec_name() == "DELTA_LENGTH_BYTE_ARRAY"@,
        Encoding::DELTA_BYTE_ARRAY.spec_name() == "DELTA_BYTE_ARRAY"@,
        Encoding::RLE_DICTIONARY.spec_name() == "RLE_DICTIONARY"@,
        Encoding::BYTE_STREAM_SPLIT.spec_name() == "BYTE_STREAM_SPLIT"@,
{
}

/// A failure to read an encoding says which page has it, and names the encoding.
pub proof fn law_encoding_is_told(
    encoding: Encoding,
    of_dictionary: Seq<char>,
    of_values: Seq<char>,
)
    requires
        Reason::DictionaryEncoding(encoding).says(of_dictionary),
        Reason::ValueEncoding(encoding).says(of_values),
    ensures
        of_dictionary == "Invalid/Unsupported encoding type for dictionary: "@
            + encoding.spec_name(),
        of_values == "Unsupported encoding type for values: "@ + encoding.spec_name(),
{
}

/// A wrong number of answers is told with the number that was returned and the one that was
/// expected, in that order.
pub proof fn law_answer_counts_are_told(
    returned: usize,
    expected: usize,
    of_dictionary: Seq<char>,
    of_values: Seq<char>,
)
    requires
        (Reason::DictionaryPredicateLength { returned, expected }).says(of_dictionary),
        (Reason::PredicateLength { returned, expected }).says(of_values),
    ensures
        exists|a: Seq<char>, b: Seq<char>| #[trigger]
            writes_number(a, returned as nat) && #[trigger] writes_number(b, expected as nat)
                && of_dictionary == "primitive dictionary predicate returned "@ + a
                + " values, expected "@ + b && of_values == "primitive predicate returned "@ + a
                + " values, expected "@ + b,
{
    law_numbers_are_written(returned as nat);
    law_numbers_are_written(expected as nat);
    let (a, b) = (decimal(returned as nat), decimal(expected as nat));
    assert(writes_number(a, returned as nat) && writes_number(b, expected as nat));
}

/// A page that ended early is told with the number of values that was expected and the one that was
/// there.
pub proof fn law_value_counts_are_told(
    expected: usize,
    there: usize,
    read: Seq<char>,
    skipped: Seq<char>,
)
    requires
        (Reason::InsufficientValues { expected, read: there }).says(read),
        (Reason::InsufficientSkip { expected, skipped: there }).says(skipped),
    ensures
        exists|a: Seq<char>, b: Seq<char>| #[trigger]
            writes_number(a, expected as nat) && #[trigger] writes_number(b, there as nat) && read
                == "insufficient values read from column - expected: "@ + a + ", got: "@ + b
                && skipped == "skipped "@ + b + " values, expected "@ + a,
{
    law_numbers_are_written(expected as nat);
    law_numbers_are_written(there as nat);
    let (a, b) = (decimal(expected as nat), decimal(there as nat));
    assert(writes_number(a, expected as nat) && writes_number(b, there as nat));
}

/// Answers that do not cover the rows are told with their number, the number of rows that hold a
/// value, and the number of rows.
pub proof fn law_row_counts_are_told(
    decoded: usize,
    expected: usize,
    levels: usize,
    text: Seq<char>,
)
    requires
        (Reason::CompactLength { decoded, expected, levels }).says(text),
    ensures
        exists|a: Seq<char>, b: Seq<char>, c: Seq<char>| #[trigger]
            writes_number(a, decoded as nat) && #[trigger] writes_number(b, expected as nat)
                && #[trigger] writes_number(c, levels as nat) && text
                == "primitive predicate decoded "@ + a + " values, expected "@ + b + " for "@ + c
                + " levels"@,
{
    law_numbers_are_written(decoded as nat);
    law_numbers_are_written(expected as nat);
    law_numbers_are_written(levels as nat);
    let (a, b, c) = (decimal(decoded as nat), decimal(expected as nat), decimal(levels as nat));
    assert(writes_number(a, decoded as nat) && writes_number(b, expected as nat)
        && writes_number(c, levels as nat));
}

/// The other reasons have one text each.
pub proof fn law_plain_reasons(reason: Reason, text: Seq<char>)
    requires
        reason.says(text),
    ensures
        reason is MissingPredicateMask ==> text == "missing dictionary predicate mask"@,
        reason is MissingDictionaryPage ==> text == "missing dictionary page for column"@,
        reason is PlainData ==> text == "Not enough bytes to decode"@,
        reason is IndexData ==> text == "Not enough bytes to decode a repeated index"@,
        reason is ValueType ==> text == "Unsupported data type for primitive values"@,
        reason is KeyOverflow ==> text == "Too many distinct values for 32-bit keys"@,
        reason matches Reason::NotDictionary(data_type) ==> text
            == "invalid non-dictionary data type for primitive dictionary reader - "@ + type_text(
            data_type,
        ),
{
}

} // verus!
