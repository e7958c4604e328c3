//! The parts of `arrow-array`, `arrow-buffer`, `arrow-schema` and `bytes` that the readers call.
//!
//! The types of `arrow-schema` that are plain enums are seen through; the other outside types are
//! opaque. What a value of such a type holds is given a name, a spec function without a body, and
//! the items below say over these names what each outside function does.
use arrow_array::{ArrayRef, BooleanArray, DictionaryArray, Int32Array, Int64Array};
use arrow_buffer::{BooleanBuffer, Buffer, MutableBuffer, NullBuffer};
use arrow_schema::{
    ArrowError, DataType as ArrowType, Field, Fields, IntervalUnit, TimeUnit, UnionFields,
    UnionMode,
};
use bytes::Bytes;
use std::sync::Arc;
use vstd::prelude::*;

use crate::bits::{set_count, unpacked};
use crate::nested::has_empty_array;

verus! {

#[verifier::external_type_specification]
#[verifier::external_body]
pub struct ExBytes(Bytes);

#[verifier::external_type_specification]
#[verifier::external_body]
pub struct ExBuffer(Buffer);

#[verifier::external_type_specification]
#[verifier::external_body]
pub struct ExMutableBuffer(MutableBuffer);

#[verifier::external_type_specification]
#[verifier::external_body]
pub struct ExBooleanBuffer(BooleanBuffer);

#[verifier::external_type_specification]
#[verifier::external_body]
pub struct ExNullBuffer(NullBuffer);

#[verifier::external_type_specification]
#[verifier::external_body]
pub struct ExBooleanArray(BooleanArray);

#[verifier::external_type_specification]
#[verifier::external_body]
pub struct ExArrowError(ArrowError);

#[verifier::external_type_specification]
pub struct ExArrowType(ArrowType);

#[verifier::external_type_specification]
#[verifier::external_body]
pub struct ExField(Field);

#[verifier::external_type_specification]
#[verifier::external_body]
pub struct ExFields(Fields);

#[verifier::external_type_specification]
#[verifier::external_body]
pub struct ExUnionFields(UnionFields);

#[verifier::external_type_specification]
pub struct ExUnionMode(UnionMode);

#[verifier::external_type_specification]
pub struct ExTimeUnit(TimeUnit);

#[verifier::external_type_specification]
pub struct ExIntervalUnit(IntervalUnit);

/// A shared array of any Arrow type.
#[verifier::external_body]
pub struct ArrowArray {
    pub inner: ArrayRef,
}

/// The keys of a dictionary array.
#[verifier::external_body]
pub struct KeyArray {
    inner: Int32Array,
}

/// The bytes of a `Bytes` handle.
pub uninterp spec fn bytes_content(b: Bytes) -> Seq<u8>;

/// The bytes of a `Buffer`.
pub uninterp spec fn buffer_bytes(b: Buffer) -> Seq<u8>;

/// The bytes of a `MutableBuffer`.
pub uninterp spec fn mutable_buffer_bytes(b: MutableBuffer) -> Seq<u8>;

/// The bytes that a `BooleanBuffer` was made from.
pub uninterp spec fn boolean_buffer_bytes(b: BooleanBuffer) -> Seq<u8>;

/// The bits of a `BooleanBuffer`.
pub uninterp spec fn boolean_buffer_bits(b: BooleanBuffer) -> Seq<bool>;

/// The validity bits of a `NullBuffer`: `true` where the slot is not null.
pub uninterp spec fn null_buffer_bits(b: NullBuffer) -> Seq<bool>;

/// The slots of a `BooleanArray`, `None` where the slot is null.
pub uninterp spec fn boolean_array_values(a: BooleanArray) -> Seq<Option<bool>>;

/// The slots of a key array, `None` where the slot is null.
pub uninterp spec fn key_array_values(a: KeyArray) -> Seq<Option<i32>>;

/// The message of a compute error, `None` for the other errors.
pub uninterp spec fn compute_error_message(e: ArrowError) -> Option<Seq<char>>;

/// The type of an array.
pub uninterp spec fn array_type(a: ArrowArray) -> ArrowType;

/// How many slots an array has.
pub uninterp spec fn array_len(a: ArrowArray) -> nat;

/// The slots of an integer array, `None` where the slot is null.
pub uninterp spec fn integer_values(a: ArrowArray) -> Seq<Option<int>>;

/// The keys of a dictionary array, `None` where the slot is null.
pub uninterp spec fn dictionary_keys(a: ArrowArray) -> Seq<Option<i32>>;

/// The values that the keys of a dictionary array point into.
pub uninterp spec fn dictionary_values(a: ArrowArray) -> ArrowArray;

/// `BooleanBuffer::new` keeps the buffer and reads `bit_len` bits of it from `bit_offset` on. It
/// panics when the buffer holds fewer bits.
#[verifier::external_body]
pub(crate) fn boolean_buffer(buffer: Buffer, bit_offset: usize, bit_len: usize) -> (r:
    BooleanBuffer)
    requires
        bit_offset + bit_len <= 8 * buffer_bytes(buffer).len(),
    ensures
        boolean_buffer_bytes(r) == buffer_bytes(buffer),
        boolean_buffer_bits(r) == unpacked(
            buffer_bytes(buffer),
            (bit_offset + bit_len) as nat,
        ).skip(bit_offset as int),
{
    BooleanBuffer::new(buffer, bit_offset, bit_len)
}

/// `BooleanBuffer::count_set_bits` counts the bits that are set.
pub assume_specification[ BooleanBuffer::count_set_bits ](b: &BooleanBuffer) -> (r: usize)
    ensures
        r == set_count(boolean_buffer_bits(*b)),
;

/// `BooleanBuffer::values` gives the bytes of the buffer that it was made from.
pub assume_specification[ BooleanBuffer::values ](b: &BooleanBuffer) -> (r: &[u8])
    ensures
        r@ == boolean_buffer_bytes(*b),
;

/// `MutableBuffer::new_null` makes a buffer of zero bytes, as many as `len` bits need.
pub assume_specification[ MutableBuffer::new_null ](len: usize) -> (r: MutableBuffer)
    ensures
        mutable_buffer_bytes(r) == Seq::new(((len + 7) / 8) as nat, |i: int| 0u8),
;

/// `MutableBuffer::as_slice_mut` gives the bytes of the buffer to be written to.
pub assume_specification[ MutableBuffer::as_slice_mut ](b: &mut MutableBuffer) -> (r: &mut [u8])
    ensures
        r@ == mutable_buffer_bytes(*old(b)),
        final(r)@ == mutable_buffer_bytes(*final(b)),
;

/// `Buffer::from` freezes a `MutableBuffer` and keeps its bytes.
#[verifier::external_body]
pub(crate) fn freeze(buffer: MutableBuffer) -> (r: Buffer)
    ensures
        buffer_bytes(r) == mutable_buffer_bytes(buffer),
{
    Buffer::from(buffer)
}

/// `BooleanArray::new` without a null buffer makes an array whose slots are the bits of `values`.
#[verifier::external_body]
pub(crate) fn boolean_array(values: BooleanBuffer) -> (r: BooleanArray)
    ensures
        boolean_array_values(r) == boolean_buffer_bits(values).map_values(|b: bool| Some(b)),
{
    BooleanArray::new(values, None)
}

/// `BooleanArray::len` counts the slots, null ones too.
pub assume_specification[ BooleanArray::len ](a: &BooleanArray) -> (r: usize)
    ensures
        r == boolean_array_values(*a).len(),
;

/// `BooleanArray::iter` walks the slots in order.
#[verifier::external_body]
pub(crate) fn boolean_slots(a: &BooleanArray) -> (r: Vec<Option<bool>>)
    ensures
        r@ == boolean_array_values(*a),
{
    a.iter().collect()
}

/// `Buffer::from_vec` takes over the bytes of a vector.
#[verifier::external_body]
pub(crate) fn buffer_from_vec(bytes: Vec<u8>) -> (r: Buffer)
    ensures
        buffer_bytes(r) == bytes@,
{
    Buffer::from_vec(bytes)
}

/// `NullBuffer::from_unsliced_buffer` reads `len` validity bits from the start of the buffer, and
/// gives `None` when all of them are set. It panics when the buffer holds fewer bits.
#[verifier::external_body]
pub(crate) fn null_buffer(buffer: Buffer, len: usize) -> (r: Option<NullBuffer>)
    requires
        len <= 8 * buffer_bytes(buffer).len(),
    ensures
        r is None <==> set_count(unpacked(buffer_bytes(buffer), len as nat)) == len,
        r matches Some(n) ==> null_buffer_bits(n) == unpacked(buffer_bytes(buffer), len as nat),
{
    NullBuffer::from_unsliced_buffer(buffer, len)
}

/// `NullBuffer::is_valid` gives a validity bit. It panics past the last.
pub assume_specification[ NullBuffer::is_valid ](b: &NullBuffer, idx: usize) -> (r: bool)
    requires
        idx < null_buffer_bits(*b).len(),
    ensures
        r == null_buffer_bits(*b)[idx as int],
;

/// The slots of an array made from `values` and a null buffer.
pub open spec fn masked<A>(values: Seq<A>, nulls: Option<NullBuffer>) -> Seq<Option<A>> {
    Seq::new(
        values.len(),
        |i: int|
            match nulls {
                Some(n) => if null_buffer_bits(n)[i] {
                    Some(values[i])
                } else {
                    None
                },
                None => Some(values[i]),
            },
    )
}

/// `Int32Array::new` pairs each value with its validity bit. It panics when the null buffer has
/// another length than the values.
#[verifier::external_body]
pub(crate) fn key_array(values: Vec<i32>, nulls: Option<NullBuffer>) -> (r: KeyArray)
    requires
        nulls matches Some(n) ==> null_buffer_bits(n).len() == values@.len(),
    ensures
        key_array_values(r) == masked(values@, nulls),
{
    KeyArray { inner: Int32Array::new(values.into(), nulls) }
}

/// `Bytes::new` holds no bytes.
#[verifier::external_body]
pub(crate) fn no_bytes() -> (r: Bytes)
    ensures
        bytes_content(r) == Seq::<u8>::empty(),
{
    Bytes::new()
}

/// `Bytes` dereferences to the bytes that it holds.
#[verifier::external_body]
pub(crate) fn as_slice(b: &Bytes) -> (r: &[u8])
    ensures
        r@ == bytes_content(*b),
{
    b
}

/// `Bytes::slice` with an open range keeps what follows `begin`. It panics when `begin` is past
/// the end.
#[verifier::external_body]
pub(crate) fn slice_from(b: &Bytes, begin: usize) -> (r: Bytes)
    requires
        begin <= bytes_content(*b).len(),
    ensures
        bytes_content(r) == bytes_content(*b).skip(begin as int),
{
    b.slice(begin..)
}

/// `DataType::clone` gives an equal type.
pub assume_specification[ <ArrowType as Clone>::clone ](t: &ArrowType) -> (r: ArrowType)
    ensures
        r == *t,
;

/// The type of dictionary arrays with 32-bit keys.
pub open spec fn dictionary_of(value_type: ArrowType) -> ArrowType {
    ArrowType::Dictionary(Box::new(ArrowType::Int32), Box::new(value_type))
}

/// How a type without parameters is written.
pub open spec fn bare_name(t: ArrowType) -> Option<Seq<char>> {
    match t {
        ArrowType::Null => Some("Null"@),
        ArrowType::Boolean => Some("Boolean"@),
        ArrowType::Int8 => Some("Int8"@),
        ArrowType::Int16 => Some("Int16"@),
        ArrowType::Int32 => Some("Int32"@),
        ArrowType::Int64 => Some("Int64"@),
        ArrowType::UInt8 => Some("UInt8"@),
        ArrowType::UInt16 => Some("UInt16"@),
        ArrowType::UInt32 => Some("UInt32"@),
        ArrowType::UInt64 => Some("UInt64"@),
        ArrowType::Float16 => Some("Float16"@),
        ArrowType::Float32 => Some("Float32"@),
        ArrowType::Float64 => Some("Float64"@),
        ArrowType::Date32 => Some("Date32"@),
        ArrowType::Date64 => Some("Date64"@),
        ArrowType::Binary => Some("Binary"@),
        ArrowType::LargeBinary => Some("LargeBinary"@),
        ArrowType::BinaryView => Some("BinaryView"@),
        ArrowType::Utf8 => Some("Utf8"@),
        ArrowType::LargeUtf8 => Some("LargeUtf8"@),
        ArrowType::Utf8View => Some("Utf8View"@),
        _ => None,
    }
}

/// How a type is written.
pub uninterp spec fn type_text(t: ArrowType) -> Seq<char>;

/// `DataType` writes itself through `Display`. The text is a function of the type, down to the
/// metadata of its fields, which are written in the order of their keys. A type without parameters
/// writes its name.
#[verifier::external_body]
pub(crate) fn write_type(t: &ArrowType) -> (r: String)
    ensures
        r@ == type_text(*t),
        bare_name(*t) matches Some(name) ==> r@ == name,
{
    format!("{}", t)
}

/// The type of a field.
pub uninterp spec fn field_type(f: Field) -> ArrowType;

/// The fields of a struct type, in order.
pub uninterp spec fn struct_fields(f: Fields) -> Seq<Arc<Field>>;

/// The fields of a union type with their type ids, in order.
pub uninterp spec fn union_fields(f: UnionFields) -> Seq<(i8, Arc<Field>)>;

/// `NullBuffer::clone` keeps the validity bits.
pub assume_specification[ <NullBuffer as Clone>::clone ](b: &NullBuffer) -> (r: NullBuffer)
    ensures
        null_buffer_bits(r) == null_buffer_bits(*b),
;

/// `Field::data_type` gives the type of a field.
pub assume_specification[ Field::data_type ](f: &Field) -> (r: &ArrowType)
    ensures
        *r == field_type(*f),
;

/// `Fields` dereferences to the fields that it holds.
#[verifier::external_body]
pub(crate) fn fields_slice(f: &Fields) -> (r: &[Arc<Field>])
    ensures
        r@ == struct_fields(*f),
{
    f
}

/// `UnionFields::iter` walks the fields with their type ids.
#[verifier::external_body]
pub(crate) fn union_members(f: &UnionFields) -> (r: Vec<(i8, Arc<Field>)>)
    ensures
        r@ == union_fields(*f),
{
    f.iter().map(|(id, field)| (id, Arc::clone(field))).collect()
}

/// `ArrowError::ComputeError` holds a message.
#[verifier::external_body]
pub(crate) fn compute_error(message: &str) -> (r: ArrowError)
    ensures
        compute_error_message(r) == Some(message@),
{
    ArrowError::ComputeError(message.to_string())
}

/// `new_empty_array` makes an array of the given type without slots; a dictionary gets no values,
/// either. It panics for the types that have no such array.
#[verifier::external_body]
pub(crate) fn empty_array(t: &ArrowType) -> (r: ArrowArray)
    requires
        has_empty_array(*t, usize::MAX as nat),
    ensures
        array_type(r) == *t,
        array_len(r) == 0,
        *t matches ArrowType::Dictionary(_, value) ==> {
            &&& array_len(dictionary_values(r)) == 0
            &&& array_type(dictionary_values(r)) == *value
        },
{
    ArrowArray { inner: arrow_array::new_empty_array(t) }
}

/// `DictionaryArray::try_new` refuses a key that is not null and points past the values, and pairs
/// the keys with the values otherwise.
#[verifier::external_body]
pub(crate) fn dictionary_array(keys: KeyArray, values: ArrowArray) -> (r: Result<
    ArrowArray,
    ArrowError,
>)
    ensures
        r is Ok <==> keys_point_into(key_array_values(keys), array_len(values)),
        r matches Ok(a) ==> {
            &&& array_len(a) == key_array_values(keys).len()
            &&& dictionary_keys(a) == key_array_values(keys)
            &&& dictionary_values(a) == values
            &&& array_type(a) == dictionary_of(array_type(values))
        },
{
    DictionaryArray::try_new(keys.inner, values.inner).map(
        |a| ArrowArray { inner: Arc::new(a) },
    )
}

/// Every key that is not null is the index of one of `len` values.
pub open spec fn keys_point_into(keys: Seq<Option<i32>>, len: nat) -> bool {
    forall|i: int|
        0 <= i < keys.len() ==> (#[trigger] keys[i] matches Some(k) ==> 0 <= k < len)
}

/// `Int32Array::new` makes a 32-bit integer array. It panics when the null buffer has another
/// length than the values.
#[verifier::external_body]
pub(crate) fn int32_array(values: Vec<i32>, nulls: Option<NullBuffer>) -> (r: ArrowArray)
    requires
        nulls matches Some(n) ==> null_buffer_bits(n).len() == values@.len(),
    ensures
        array_len(r) == values@.len(),
        integer_values(r) == masked(values@.map_values(|v: i32| v as int), nulls),
        array_type(r) == ArrowType::Int32,
{
    ArrowArray { inner: Arc::new(Int32Array::new(values.into(), nulls)) }
}

/// `Int64Array::new` makes a 64-bit integer array. It panics when the null buffer has another
/// length than the values.
#[verifier::external_body]
pub(crate) fn int64_array(values: Vec<i64>, nulls: Option<NullBuffer>) -> (r: ArrowArray)
    requires
        nulls matches Some(n) ==> null_buffer_bits(n).len() == values@.len(),
    ensures
        array_len(r) == values@.len(),
        integer_values(r) == masked(values@.map_values(|v: i64| v as int), nulls),
        array_type(r) == ArrowType::Int64,
{
    ArrowArray { inner: Arc::new(Int64Array::new(values.into(), nulls)) }
}

} // verus!
