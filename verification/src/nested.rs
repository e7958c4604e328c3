//! Which types an empty array can be made of.
use arrow_schema::{DataType as ArrowType, Field, Fields, TimeUnit, UnionFields, UnionMode};
use std::sync::Arc;
use vstd::prelude::*;

use crate::arrow::{field_type, fields_slice, struct_fields, union_fields, union_members};

verus! {

/// A type that the keys of a dictionary may have.
pub open spec fn is_key_type(t: ArrowType) -> bool {
    match t {
        ArrowType::Int8 | ArrowType::Int16 | ArrowType::Int32 | ArrowType::Int64 => true,
        ArrowType::UInt8 | ArrowType::UInt16 | ArrowType::UInt32 | ArrowType::UInt64 => true,
        _ => false,
    }
}

/// A type that the run ends of a run-end encoded array may have.
pub open spec fn is_run_end_type(t: ArrowType) -> bool {
    t == ArrowType::Int16 || t == ArrowType::Int32 || t == ArrowType::Int64
}

/// The entries of a map are pairs.
pub open spec fn is_entry_type(t: ArrowType) -> bool {
    match t {
        ArrowType::Struct(fields) => struct_fields(fields).len() == 2,
        _ => false,
    }
}

/// An empty array can be made of a type that nests at most `depth` types. There is none of a time
/// in a unit that does not go with its width, of byte strings of a negative width, of a dictionary
/// whose keys are no integers, of runs whose ends are none that runs can have, of a map whose
/// entries are no pairs, nor of a union with a negative type id.
pub open spec fn has_empty_array(t: ArrowType, depth: nat) -> bool
    decreases depth,
{
    match t {
        ArrowType::Time32(unit) => unit == TimeUnit::Second || unit == TimeUnit::Millisecond,
        ArrowType::Time64(unit) => unit == TimeUnit::Microsecond || unit == TimeUnit::Nanosecond,
        ArrowType::FixedSizeBinary(width) => width >= 0,
        ArrowType::Dictionary(key, value) => is_key_type(*key) && depth > 0 && has_empty_array(
            *value,
            (depth - 1) as nat,
        ),
        ArrowType::List(f) => depth > 0 && has_empty_array(field_type(*f), (depth - 1) as nat),
        ArrowType::LargeList(f) => depth > 0 && has_empty_array(field_type(*f), (depth - 1) as nat),
        ArrowType::ListView(f) => depth > 0 && has_empty_array(field_type(*f), (depth - 1) as nat),
        ArrowType::LargeListView(f) => depth > 0 && has_empty_array(
            field_type(*f),
            (depth - 1) as nat,
        ),
        ArrowType::FixedSizeList(f, _) => depth > 0 && has_empty_array(
            field_type(*f),
            (depth - 1) as nat,
        ),
        ArrowType::Map(f, _) => is_entry_type(field_type(*f)) && depth > 0 && has_empty_array(
            field_type(*f),
            (depth - 1) as nat,
        ),
        ArrowType::RunEndEncoded(ends, f) => is_run_end_type(field_type(*ends)) && depth > 0
            && has_empty_array(field_type(*f), (depth - 1) as nat),
        ArrowType::Struct(fields) => depth > 0 && forall|i: int|
            0 <= i < struct_fields(fields).len() ==> has_empty_array(
                field_type(*(#[trigger] struct_fields(fields)[i])),
                (depth - 1) as nat,
            ),
        ArrowType::Union(fields, _) => depth > 0 && forall|i: int|
            0 <= i < union_fields(fields).len() ==> (#[trigger] union_fields(fields)[i]).0 >= 0
                && has_empty_array(
                field_type(*union_fields(fields)[i].1),
                (depth - 1) as nat,
            ),
        _ => true,
    }
}

/// Whether the keys of a dictionary may have a type.
fn check_key_type(t: &ArrowType) -> (r: bool)
    ensures
        r == is_key_type(*t),
{
    match t {
        ArrowType::Int8 | ArrowType::Int16 | ArrowType::Int32 | ArrowType::Int64 => true,
        ArrowType::UInt8 | ArrowType::UInt16 | ArrowType::UInt32 | ArrowType::UInt64 => true,
        _ => false,
    }
}

/// Whether the entries of a map are pairs.
fn check_entry_type(t: &ArrowType) -> (r: bool)
    ensures
        r == is_entry_type(*t),
{
    match t {
        ArrowType::Struct(fields) => fields_slice(fields).len() == 2,
        _ => false,
    }
}

/// Whether an empty array can be made of a type that nests at most `depth` types.
pub fn check_empty_array(t: &ArrowType, depth: usize) -> (r: bool)
    ensures
        r == has_empty_array(*t, depth as nat),
    decreases depth,
{
    match t {
        ArrowType::Time32(unit) => matches!(unit, TimeUnit::Second | TimeUnit::Millisecond),
        ArrowType::Time64(unit) => matches!(unit, TimeUnit::Microsecond | TimeUnit::Nanosecond),
        ArrowType::FixedSizeBinary(width) => *width >= 0,
        ArrowType::Dictionary(key, value) => check_key_type(key) && depth > 0 && check_empty_array(
            value,
            depth - 1,
        ),
        ArrowType::List(f) => depth > 0 && check_empty_array(f.data_type(), depth - 1),
        ArrowType::LargeList(f) => depth > 0 && check_empty_array(f.data_type(), depth - 1),
        ArrowType::ListView(f) => depth > 0 && check_empty_array(f.data_type(), depth - 1),
        ArrowType::LargeListView(f) => depth > 0 && check_empty_array(f.data_type(), depth - 1),
        ArrowType::FixedSizeList(f, _) => depth > 0 && check_empty_array(f.data_type(), depth - 1),
        ArrowType::Map(f, _) => check_entry_type(f.data_type()) && depth > 0 && check_empty_array(
            f.data_type(),
            depth - 1,
        ),
        ArrowType::RunEndEncoded(ends, f) => matches!(
            ends.data_type(),
            ArrowType::Int16 | ArrowType::Int32 | ArrowType::Int64
        ) && depth > 0 && check_empty_array(f.data_type(), depth - 1),
        ArrowType::Struct(fields) => {
            if depth == 0 {
                return false;
            }
            let members = fields_slice(fields);
            let mut i: usize = 0;
            while i < members.len()
                invariant
                    i <= members@.len(),
                    depth > 0,
                    *t == ArrowType::Struct(*fields),
                    members@ == struct_fields(*fields),
                    forall|j: int|
                        0 <= j < i ==> has_empty_array(
                            field_type(*(#[trigger] members@[j])),
                            (depth - 1) as nat,
                        ),
                decreases members@.len() - i,
            {
                if !check_empty_array(members[i].data_type(), depth - 1) {
                    proof {
                        assert(members@[i as int] == struct_fields(*fields)[i as int]);
                    }
                    return false;
                }
                i = i + 1;
            }
            true
        },
        ArrowType::Union(fields, _) => {
            if depth == 0 {
                return false;
            }
            let members = union_members(fields);
            let mut i: usize = 0;
            while i < members.len()
                invariant
                    i <= members@.len(),
                    depth > 0,
                    *t matches ArrowType::Union(named, _) && named == *fields,
                    members@ == union_fields(*fields),
                    forall|j: int|
                        0 <= j < i ==> (#[trigger] members@[j]).0 >= 0 && has_empty_array(
                            field_type(*members@[j].1),
                            (depth - 1) as nat,
                        ),
                decreases members@.len() - i,
            {
                if members[i].0 < 0 || !check_empty_array(members[i].1.data_type(), depth - 1) {
                    proof {
                        assert(members@[i as int] == union_fields(*fields)[i as int]);
                    }
                    return false;
                }
                i = i + 1;
            }
            true
        },
        _ => true,
    }
}

/// The type that a type of one part is made of.
spec fn part_of(t: ArrowType) -> Option<ArrowType> {
    match t {
        ArrowType::Dictionary(_, value) => Some(*value),
        ArrowType::List(f) => Some(field_type(*f)),
        ArrowType::LargeList(f) => Some(field_type(*f)),
        ArrowType::ListView(f) => Some(field_type(*f)),
        ArrowType::LargeListView(f) => Some(field_type(*f)),
        ArrowType::FixedSizeList(f, _) => Some(field_type(*f)),
        ArrowType::Map(f, _) => Some(field_type(*f)),
        ArrowType::RunEndEncoded(_, f) => Some(field_type(*f)),
        _ => None,
    }
}

/// Room for deeper types takes nothing away.
pub proof fn law_depth_is_room(t: ArrowType, depth: nat, more: nat)
    requires
        depth <= more,
        has_empty_array(t, depth),
    ensures
        has_empty_array(t, more),
    decreases depth,
{
    if let Some(part) = part_of(t) {
        law_depth_is_room(part, (depth - 1) as nat, (more - 1) as nat);
    }
    match t {
        ArrowType::Struct(fields) => {
            assert forall|i: int| 0 <= i < struct_fields(fields).len() implies has_empty_array(
                field_type(*(#[trigger] struct_fields(fields)[i])),
                (more - 1) as nat,
            ) by {
                law_depth_is_room(
                    field_type(*struct_fields(fields)[i]),
                    (depth - 1) as nat,
                    (more - 1) as nat,
                );
            }
        },
        ArrowType::Union(fields, _) => {
            assert forall|i: int| 0 <= i < union_fields(fields).len() implies (
            #[trigger] union_fields(fields)[i]).0 >= 0 && has_empty_array(
                field_type(*union_fields(fields)[i].1),
                (more - 1) as nat,
            ) by {
                law_depth_is_room(
                    field_type(*union_fields(fields)[i].1),
                    (depth - 1) as nat,
                    (more - 1) as nat,
                );
            }
        },
        _ => {},
    }
}

/// There is an empty dictionary array of a type exactly where its keys are integers and there is an
/// empty array of its values.
pub proof fn law_empty_dictionary(key: ArrowType, value: ArrowType, depth: nat)
    requires
        depth > 0,
    ensures
        has_empty_array(ArrowType::Dictionary(Box::new(key), Box::new(value)), depth) <==> {
            &&& has_empty_array(value, (depth - 1) as nat)
            &&& match key {
                ArrowType::Int8
                | ArrowType::Int16
                | ArrowType::Int32
                | ArrowType::Int64
                | ArrowType::UInt8
                | ArrowType::UInt16
                | ArrowType::UInt32
                | ArrowType::UInt64 => true,
                _ => false,
            }
        },
{
}

/// There are empty arrays of all types that have neither parameters nor parts.
pub proof fn law_empty_simple_arrays(t: ArrowType, depth: nat)
    requires
        match t {
            ArrowType::Null | ArrowType::Boolean => true,
            ArrowType::Int8 | ArrowType::Int16 | ArrowType::Int32 | ArrowType::Int64 => true,
            ArrowType::UInt8 | ArrowType::UInt16 | ArrowType::UInt32 | ArrowType::UInt64 => true,
            ArrowType::Float16 | ArrowType::Float32 | ArrowType::Float64 => true,
            ArrowType::Date32 | ArrowType::Date64 => true,
            ArrowType::Timestamp(_, _) | ArrowType::Duration(_) | ArrowType::Interval(_) => true,
            ArrowType::Binary | ArrowType::LargeBinary | ArrowType::BinaryView => true,
            ArrowType::Utf8 | ArrowType::LargeUtf8 | ArrowType::Utf8View => true,
            ArrowType::Time32(unit) => unit == TimeUnit::Second || unit == TimeUnit::Millisecond,
            ArrowType::Time64(unit) => unit == TimeUnit::Microsecond || unit
                == TimeUnit::Nanosecond,
            ArrowType::FixedSizeBinary(width) => width >= 0,
            _ => false,
        },
    ensures
        has_empty_array(t, depth),
{
}

/// The kinds of lists go together: there is an empty array of one where there is one of another.
pub proof fn law_empty_lists(f: Arc<Field>, size: i32, depth: nat)
    requires
        depth > 0,
    ensures
        has_empty_array(ArrowType::List(f), depth) <==> has_empty_array(
            field_type(*f),
            (depth - 1) as nat,
        ),
        has_empty_array(ArrowType::LargeList(f), depth) <==> has_empty_array(
            ArrowType::List(f),
            depth,
        ),
        has_empty_array(ArrowType::ListView(f), depth) <==> has_empty_array(
            ArrowType::List(f),
            depth,
        ),
        has_empty_array(ArrowType::LargeListView(f), depth) <==> has_empty_array(
            ArrowType::List(f),
            depth,
        ),
        has_empty_array(ArrowType::FixedSizeList(f, size), depth) <==> has_empty_array(
            ArrowType::List(f),
            depth,
        ),
{
}

/// There is no empty array of a time in a unit that does not go with its width, nor of byte strings
/// of a negative width.
pub proof fn law_no_empty_array(unit: TimeUnit, width: i32, depth: nat)
    ensures
        has_empty_array(ArrowType::Time32(unit), depth) <==> !has_empty_array(
            ArrowType::Time64(unit),
            depth,
        ),
        has_empty_array(ArrowType::Time32(TimeUnit::Second), depth),
        has_empty_array(ArrowType::Time32(TimeUnit::Millisecond), depth),
        has_empty_array(ArrowType::Time64(TimeUnit::Microsecond), depth),
        has_empty_array(ArrowType::Time64(TimeUnit::Nanosecond), depth),
        width < 0 ==> !has_empty_array(ArrowType::FixedSizeBinary(width), depth),
{
}

/// There is an empty array of a struct exactly where there is one of each of its fields.
pub proof fn law_empty_struct(fields: Fields, depth: nat)
    requires
        depth > 0,
    ensures
        has_empty_array(ArrowType::Struct(fields), depth) <==> forall|i: int|
            0 <= i < struct_fields(fields).len() ==> has_empty_array(
                field_type(*(#[trigger] struct_fields(fields)[i])),
                (depth - 1) as nat,
            ),
{
}

/// There is an empty map exactly where there is an empty array of its entries and these are pairs.
pub proof fn law_empty_map(entries: Arc<Field>, sorted: bool, depth: nat)
    requires
        depth > 0,
    ensures
        has_empty_array(ArrowType::Map(entries, sorted), depth) <==> {
            &&& has_empty_array(field_type(*entries), (depth - 1) as nat)
            &&& field_type(*entries) matches ArrowType::Struct(fields)
            &&& struct_fields(fields).len() == 2
        },
{
}

/// There is an empty array of runs exactly where there is one of the values, and the ends of the
/// runs are signed integers of at least 16 bits.
pub proof fn law_empty_runs(ends: Arc<Field>, values: Arc<Field>, depth: nat)
    requires
        depth > 0,
    ensures
        has_empty_array(ArrowType::RunEndEncoded(ends, values), depth) <==> {
            &&& has_empty_array(field_type(*values), (depth - 1) as nat)
            &&& match field_type(*ends) {
                ArrowType::Int16 | ArrowType::Int32 | ArrowType::Int64 => true,
                _ => false,
            }
        },
{
}

/// There is an empty union exactly where there is an empty array of each of its fields and none has
/// a negative type id, in whichever way the union is laid out.
pub proof fn law_empty_union(fields: UnionFields, mode: UnionMode, depth: nat)
    requires
        depth > 0,
    ensures
        has_empty_array(ArrowType::Union(fields, mode), depth) <==> forall|i: int|
            0 <= i < union_fields(fields).len() ==> {
                &&& (#[trigger] union_fields(fields)[i]).0 >= 0
                &&& has_empty_array(field_type(*union_fields(fields)[i].1), (depth - 1) as nat)
            },
{
}

} // verus!
