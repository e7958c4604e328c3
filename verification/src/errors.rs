//! Encodings, and why reading a column fails.
use arrow_schema::{ArrowError, DataType as ArrowType};
use vstd::prelude::*;
use vstd::string::StringExecFns;

use crate::arrow::{bare_name, type_text, write_type};

verus! {

/// How the values of a page are encoded.
#[allow(non_camel_case_types)]
#[derive(Clone, Copy, PartialEq, Eq, Structural, Debug)]
pub enum Encoding {
    PLAIN,
    PLAIN_DICTIONARY,
    RLE,
    BIT_PACKED,
    DELTA_BINARY_PACKED,
    DELTA_LENGTH_BYTE_ARRAY,
    DELTA_BYTE_ARRAY,
    RLE_DICTIONARY,
    BYTE_STREAM_SPLIT,
}

impl Encoding {
    /// The name of the encoding.
    pub open spec fn spec_name(self) -> Seq<char> {
        match self {
            Encoding::PLAIN => "PLAIN"@,
            Encoding::PLAIN_DICTIONARY => "PLAIN_DICTIONARY"@,
            Encoding::RLE => "RLE"@,
            Encoding::BIT_PACKED => "BIT_PACKED"@,
            Encoding::DELTA_BINARY_PACKED => "DELTA_BINARY_PACKED"@,
            Encoding::DELTA_LENGTH_BYTE_ARRAY => "DELTA_LENGTH_BYTE_ARRAY"@,
            Encoding::DELTA_BYTE_ARRAY => "DELTA_BYTE_ARRAY"@,
            Encoding::RLE_DICTIONARY => "RLE_DICTIONARY"@,
            Encoding::BYTE_STREAM_SPLIT => "BYTE_STREAM_SPLIT"@,
        }
    }

    /// The name of the encoding.
    pub fn name(self) -> (r: &'static str)
        ensures
            r@ == self.spec_name(),
    {
        match self {
            Encoding::PLAIN => "PLAIN",
            Encoding::PLAIN_DICTIONARY => "PLAIN_DICTIONARY",
            Encoding::RLE => "RLE",
            Encoding::BIT_PACKED => "BIT_PACKED",
            Encoding::DELTA_BINARY_PACKED => "DELTA_BINARY_PACKED",
            Encoding::DELTA_LENGTH_BYTE_ARRAY => "DELTA_LENGTH_BYTE_ARRAY",
            Encoding::DELTA_BYTE_ARRAY => "DELTA_BYTE_ARRAY",
            Encoding::RLE_DICTIONARY => "RLE_DICTIONARY",
            Encoding::BYTE_STREAM_SPLIT => "BYTE_STREAM_SPLIT",
        }
    }

    /// The pages of this encoding hold indices into a dictionary.
    pub open spec fn holds_indices(self) -> bool {
        self == Encoding::RLE_DICTIONARY || self == Encoding::PLAIN_DICTIONARY
    }

    /// A dictionary page may have this encoding.
    pub open spec fn encodes_dictionary(self) -> bool {
        self == Encoding::PLAIN || self.holds_indices()
    }
}

/// What is wrong with a column.
#[derive(Debug)]
pub enum Reason {
    /// A dictionary page has an encoding that no dictionary has.
    DictionaryEncoding(Encoding),
    /// The values of a page have an encoding that the decoder does not know.
    ValueEncoding(Encoding),
    /// A page holds fewer bytes than its values take.
    PlainData,
    /// The indices of a page end in the middle of a repeated index.
    IndexData,
    /// A predicate gave another number of answers than the dictionary has values.
    DictionaryPredicateLength { returned: usize, expected: usize },
    /// A predicate gave another number of answers than there are values.
    PredicateLength { returned: usize, expected: usize },
    /// Indices were read before a dictionary was filtered.
    MissingPredicateMask,
    /// Indices were read before a dictionary.
    MissingDictionaryPage,
    /// The filtered values do not cover the valid rows.
    CompactLength { decoded: usize, expected: usize, levels: usize },
    /// A page ended before all its values were read.
    InsufficientValues { expected: usize, read: usize },
    /// A page ended before all its values were skipped.
    InsufficientSkip { expected: usize, skipped: usize },
    /// A dictionary was asked for with another type.
    NotDictionary(ArrowType),
    /// The values cannot be given the type that was asked for.
    ValueType,
    /// There are more distinct values than keys.
    KeyOverflow,
}

/// Why a column could not be read.
#[derive(Debug)]
pub enum ParquetError {
    General(Reason),
    NYI(Reason),
    EOF(Reason),
    External(ArrowError),
}

pub open spec fn digit(d: nat) -> char {
    (48 + d) as char
}

/// `n` in decimal digits.
pub open spec fn decimal(n: nat) -> Seq<char>
    decreases n,
{
    if n < 10 {
        seq![digit(n)]
    } else {
        decimal(n / 10).push(digit(n % 10))
    }
}

fn digit_text(d: usize) -> (r: &'static str)
    requires
        d < 10,
    ensures
        r@ == seq![digit(d as nat)],
{
    proof {
        reveal_strlit("0");
        reveal_strlit("1");
        reveal_strlit("2");
        reveal_strlit("3");
        reveal_strlit("4");
        reveal_strlit("5");
        reveal_strlit("6");
        reveal_strlit("7");
        reveal_strlit("8");
        reveal_strlit("9");
    }
    if d == 0 {
        "0"
    } else if d == 1 {
        "1"
    } else if d == 2 {
        "2"
    } else if d == 3 {
        "3"
    } else if d == 4 {
        "4"
    } else if d == 5 {
        "5"
    } else if d == 6 {
        "6"
    } else if d == 7 {
        "7"
    } else if d == 8 {
        "8"
    } else {
        "9"
    }
}

fn append_number(text: &mut String, n: usize)
    ensures
        final(text)@ == old(text)@ + decimal(n as nat),
    decreases n,
{
    if n >= 10 {
        append_number(text, n / 10);
    }
    text.append(digit_text(n % 10));
    proof {
        assert(text@ =~= old(text)@ + decimal(n as nat));
    }
}

fn start(text: &str) -> (r: String)
    ensures
        r@ == text@,
{
    String::from_str(text)
}

/// What is said of a type that is no dictionary, once it is written out.
pub open spec fn not_dictionary_text(written: Seq<char>) -> Seq<char> {
    "invalid non-dictionary data type for primitive dictionary reader - "@ + written
}

/// Says of a type that it is no dictionary, once it is written out.
pub fn not_dictionary_message(written: &str) -> (r: String)
    ensures
        r@ == not_dictionary_text(written@),
{
    let mut text = start("invalid non-dictionary data type for primitive dictionary reader - ");
    text.append(written);
    text
}

impl Reason {
    /// Whether `text` is what the reason says.
    pub open spec fn says(self, text: Seq<char>) -> bool {
        match self {
            Reason::DictionaryEncoding(encoding) => text
                == "Invalid/Unsupported encoding type for dictionary: "@ + encoding.spec_name(),
            Reason::ValueEncoding(encoding) => text == "Unsupported encoding type for values: "@
                + encoding.spec_name(),
            Reason::PlainData => text == "Not enough bytes to decode"@,
            Reason::IndexData => text == "Not enough bytes to decode a repeated index"@,
            Reason::DictionaryPredicateLength { returned, expected } => text
                == "primitive dictionary predicate returned "@ + decimal(returned as nat)
                + " values, expected "@ + decimal(expected as nat),
            Reason::PredicateLength { returned, expected } => text
                == "primitive predicate returned "@ + decimal(returned as nat)
                + " values, expected "@ + decimal(expected as nat),
            Reason::MissingPredicateMask => text == "missing dictionary predicate mask"@,
            Reason::MissingDictionaryPage => text == "missing dictionary page for column"@,
            Reason::CompactLength { decoded, expected, levels } => text
                == "primitive predicate decoded "@ + decimal(decoded as nat)
                + " values, expected "@ + decimal(expected as nat) + " for "@ + decimal(
                levels as nat,
            ) + " levels"@,
            Reason::InsufficientValues { expected, read } => text
                == "insufficient values read from column - expected: "@ + decimal(expected as nat)
                + ", got: "@ + decimal(read as nat),
            Reason::InsufficientSkip { expected, skipped } => text == "skipped "@ + decimal(
                skipped as nat,
            ) + " values, expected "@ + decimal(expected as nat),
            Reason::NotDictionary(data_type) => {
                &&& text == not_dictionary_text(type_text(data_type))
                &&& bare_name(data_type) matches Some(name) ==> text == not_dictionary_text(name)
            },
            Reason::ValueType => text == "Unsupported data type for primitive values"@,
            Reason::KeyOverflow => text == "Too many distinct values for 32-bit keys"@,
        }
    }

    /// The reason in words.
    pub fn message(&self) -> (r: String)
        ensures
            self.says(r@),
    {
        match self {
            Reason::DictionaryEncoding(encoding) => {
                let mut text = start("Invalid/Unsupported encoding type for dictionary: ");
                text.append(encoding.name());
                text
            },
            Reason::ValueEncoding(encoding) => {
                let mut text = start("Unsupported encoding type for values: ");
                text.append(encoding.name());
                text
            },
            Reason::PlainData => start("Not enough bytes to decode"),
            Reason::IndexData => start("Not enough bytes to decode a repeated index"),
            Reason::DictionaryPredicateLength { returned, expected } => {
                let mut text = start("primitive dictionary predicate returned ");
                append_number(&mut text, *returned);
                text.append(" values, expected ");
                append_number(&mut text, *expected);
                text
            },
            Reason::PredicateLength { returned, expected } => {
                let mut text = start("primitive predicate returned ");
                append_number(&mut text, *returned);
                text.append(" values, expected ");
                append_number(&mut text, *expected);
                text
            },
            Reason::MissingPredicateMask => start("missing dictionary predicate mask"),
            Reason::MissingDictionaryPage => start("missing dictionary page for column"),
            Reason::CompactLength { decoded, expected, levels } => {
                let mut text = start("primitive predicate decoded ");
                append_number(&mut text, *decoded);
                text.append(" values, expected ");
                append_number(&mut text, *expected);
                text.append(" for ");
                append_number(&mut text, *levels);
                text.append(" levels");
                text
            },
            Reason::InsufficientValues { expected, read } => {
                let mut text = start("insufficient values read from column - expected: ");
                append_number(&mut text, *expected);
                text.append(", got: ");
                append_number(&mut text, *read);
                text
            },
            Reason::InsufficientSkip { expected, skipped } => {
                let mut text = start("skipped ");
                append_number(&mut text, *skipped);
                text.append(" values, expected ");
                append_number(&mut text, *expected);
                text
            },
            Reason::NotDictionary(data_type) => {
                let written = write_type(data_type);
                not_dictionary_message(written.as_str())
            },
            Reason::ValueType => start("Unsupported data type for primitive values"),
            Reason::KeyOverflow => start("Too many distinct values for 32-bit keys"),
        }
    }
}

} // verus!
