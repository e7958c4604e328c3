//! Physical types, and the columns that hold them.
use arrow_buffer::NullBuffer;
use arrow_schema::DataType as ArrowType;
use vstd::prelude::*;

use crate::arrow::{
    array_len, array_type, int32_array, int64_array, integer_values, masked, null_buffer_bits,
    ArrowArray,
};
use crate::errors::{ParquetError, Reason};
use crate::rle::little_endian;

verus! {

/// What the levels and the values of a column are measured by.
#[derive(Clone, Copy, PartialEq, Eq, Structural, Debug)]
pub struct ColumnDescriptor {
    pub max_def_level: i16,
    pub max_rep_level: i16,
    pub type_length: i32,
    /// The innermost field may be null.
    pub is_optional: bool,
}

/// A null buffer for as many slots as there are values.
pub open spec fn nulls_fit(nulls: Option<NullBuffer>, len: nat) -> bool {
    nulls matches Some(n) ==> null_buffer_bits(n).len() == len
}

/// A physical type of fixed width.
pub trait DataType: Sized {
    type T: Copy;

    /// How many bytes a plain value takes.
    spec fn width() -> nat;

    /// The value that plain bytes stand for.
    spec fn plain(bytes: Seq<u8>) -> Self::T;

    /// The value that an unset slot holds.
    spec fn unset() -> Self::T;

    /// A number that no other value has.
    spec fn code(value: Self::T) -> u64;

    /// `r` is what an array of the given values, type and nulls comes to.
    spec fn makes(
        values: Seq<Self::T>,
        value_type: ArrowType,
        nulls: Option<NullBuffer>,
        r: Result<ArrowArray, ParquetError>,
    ) -> bool;

    /// Different values have different codes.
    proof fn code_tells_apart(a: Self::T, b: Self::T)
        ensures
            Self::code(a) == Self::code(b) ==> a == b,
    ;

    /// An array that was made has a slot for each value, and the type that was asked for.
    proof fn lemma_makes(
        values: Seq<Self::T>,
        value_type: ArrowType,
        nulls: Option<NullBuffer>,
        r: Result<ArrowArray, ParquetError>,
    )
        requires
            Self::makes(values, value_type, nulls, r),
            r is Ok,
        ensures
            array_len(r->Ok_0) == values.len(),
            array_type(r->Ok_0) == value_type,
    ;

    /// How many bytes a plain value takes.
    fn plain_width() -> (r: usize)
        ensures
            r == Self::width(),
            r > 0,
    ;

    /// The value that the plain bytes from `at` on stand for.
    fn from_plain(bytes: &[u8], at: usize) -> (r: Self::T)
        requires
            at + Self::width() <= bytes@.len(),
        ensures
            r == Self::plain(bytes@.subrange(at as int, at + Self::width())),
    ;

    /// The value that an unset slot holds.
    fn unset_value() -> (r: Self::T)
        ensures
            r == Self::unset(),
    ;

    /// A number that no other value has.
    fn value_code(value: Self::T) -> (r: u64)
        ensures
            r == Self::code(value),
    ;

    /// An array of the given values, type and nulls.
    fn array_from_values(
        values: Vec<Self::T>,
        value_type: &ArrowType,
        nulls: Option<NullBuffer>,
    ) -> (r: Result<ArrowArray, ParquetError>)
        requires
            nulls_fit(nulls, values@.len()),
        ensures
            Self::makes(values@, *value_type, nulls, r),
    ;
}

/// 32-bit integers.
pub struct Int32Type;

/// 64-bit integers.
pub struct Int64Type;

/// An integer array of the type that was asked for, or an error when it is of another kind.
pub open spec fn makes_integers(
    values: Seq<int>,
    wanted: ArrowType,
    value_type: ArrowType,
    nulls: Option<NullBuffer>,
    r: Result<ArrowArray, ParquetError>,
) -> bool {
    if value_type == wanted {
        &&& r matches Ok(a)
        &&& array_len(a) == values.len()
        &&& integer_values(a) == masked(values, nulls)
        &&& array_type(a) == value_type
    } else {
        r == Err::<ArrowArray, ParquetError>(ParquetError::General(Reason::ValueType))
    }
}

impl DataType for Int32Type {
    type T = i32;

    open spec fn width() -> nat {
        4
    }

    open spec fn plain(bytes: Seq<u8>) -> i32 {
        little_endian(bytes) as i32
    }

    open spec fn unset() -> i32 {
        0
    }

    open spec fn code(value: i32) -> u64 {
        (value - i32::MIN) as u64
    }

    open spec fn makes(
        values: Seq<i32>,
        value_type: ArrowType,
        nulls: Option<NullBuffer>,
        r: Result<ArrowArray, ParquetError>,
    ) -> bool {
        makes_integers(
            values.map_values(|v: i32| v as int),
            ArrowType::Int32,
            value_type,
            nulls,
            r,
        )
    }

    proof fn code_tells_apart(a: i32, b: i32) {
    }

    proof fn lemma_makes(
        values: Seq<i32>,
        value_type: ArrowType,
        nulls: Option<NullBuffer>,
        r: Result<ArrowArray, ParquetError>,
    ) {
    }

    fn plain_width() -> usize {
        4
    }

    fn from_plain(bytes: &[u8], at: usize) -> i32 {
        proof {
            let data = bytes@.subrange(at as int, at + 4);
            reveal_with_fuel(little_endian, 5);
            assert(data.skip(1).skip(1) =~= data.skip(2));
            assert(data.skip(2).skip(1) =~= data.skip(3));
            assert(data.skip(3).skip(1) =~= data.skip(4));
        }
        let value: u32 = bytes[at] as u32 + 0x100 * bytes[at + 1] as u32 + 0x1_0000 * bytes[at
            + 2] as u32 + 0x100_0000 * bytes[at + 3] as u32;
        #[verifier::truncate]
        (value as i32)
    }

    fn unset_value() -> i32 {
        0
    }

    fn value_code(value: i32) -> u64 {
        (value as i64 - i32::MIN as i64) as u64
    }

    fn array_from_values(values: Vec<i32>, value_type: &ArrowType, nulls: Option<NullBuffer>) -> (r:
        Result<ArrowArray, ParquetError>) {
        if matches!(value_type, ArrowType::Int32) {
            Ok(int32_array(values, nulls))
        } else {
            Err(ParquetError::General(Reason::ValueType))
        }
    }
}

impl DataType for Int64Type {
    type T = i64;

    open spec fn width() -> nat {
        8
    }

    open spec fn plain(bytes: Seq<u8>) -> i64 {
        little_endian(bytes) as i64
    }

    open spec fn unset() -> i64 {
        0
    }

    open spec fn code(value: i64) -> u64 {
        (value - i64::MIN) as u64
    }

    open spec fn makes(
        values: Seq<i64>,
        value_type: ArrowType,
        nulls: Option<NullBuffer>,
        r: Result<ArrowArray, ParquetError>,
    ) -> bool {
        makes_integers(
            values.map_values(|v: i64| v as int),
            ArrowType::Int64,
            value_type,
            nulls,
            r,
        )
    }

    proof fn code_tells_apart(a: i64, b: i64) {
    }

    proof fn lemma_makes(
        values: Seq<i64>,
        value_type: ArrowType,
        nulls: Option<NullBuffer>,
        r: Result<ArrowArray, ParquetError>,
    ) {
    }

    fn plain_width() -> usize {
        8
    }

    fn from_plain(bytes: &[u8], at: usize) -> i64 {
        proof {
            let data = bytes@.subrange(at as int, at + 8);
            reveal_with_fuel(little_endian, 9);
            assert(data.skip(1).skip(1) =~= data.skip(2));
            assert(data.skip(2).skip(1) =~= data.skip(3));
            assert(data.skip(3).skip(1) =~= data.skip(4));
            assert(data.skip(4).skip(1) =~= data.skip(5));
            assert(data.skip(5).skip(1) =~= data.skip(6));
            assert(data.skip(6).skip(1) =~= data.skip(7));
            assert(data.skip(7).skip(1) =~= data.skip(8));
        }
        let value: u64 = bytes[at] as u64 + 0x100 * bytes[at + 1] as u64 + 0x1_0000 * bytes[at
            + 2] as u64 + 0x100_0000 * bytes[at + 3] as u64 + 0x1_0000_0000 * bytes[at + 4] as u64
            + 0x100_0000_0000 * bytes[at + 5] as u64 + 0x1_0000_0000_0000 * bytes[at + 6] as u64
            + 0x100_0000_0000_0000 * bytes[at + 7] as u64;
        #[verifier::truncate]
        (value as i64)
    }

    fn unset_value() -> i64 {
        0
    }

    fn value_code(value: i64) -> u64 {
        (value as i128 - i64::MIN as i128) as u64
    }

    fn array_from_values(values: Vec<i64>, value_type: &ArrowType, nulls: Option<NullBuffer>) -> (r:
        Result<ArrowArray, ParquetError>) {
        if matches!(value_type, ArrowType::Int64) {
            Ok(int64_array(values, nulls))
        } else {
            Err(ParquetError::General(Reason::ValueType))
        }
    }
}

} // verus!
