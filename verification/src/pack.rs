//! Dictionary encoding: each value that occurs is kept once, and the rows become keys.
use arrow_buffer::NullBuffer;
use std::collections::HashMap;
use vstd::prelude::*;

use crate::arrow::{masked, null_buffer_bits};
use crate::errors::{ParquetError, Reason};
use crate::types::{nulls_fit, DataType};

verus! {

/// The values that occur in the rows, in the order in which they first do.
pub open spec fn distinct<A>(rows: Seq<Option<A>>) -> Seq<A>
    decreases rows.len(),
{
    if rows.len() == 0 {
        Seq::empty()
    } else {
        let before = distinct(rows.drop_last());
        match rows.last() {
            Some(value) => if before.contains(value) {
                before
            } else {
                before.push(value)
            },
            None => before,
        }
    }
}

/// For each row the position of its value among the distinct values.
pub open spec fn packed_keys<A>(rows: Seq<Option<A>>) -> Seq<Option<i32>> {
    rows.map_values(
        |row: Option<A>|
            match row {
                Some(value) => Some(distinct(rows).index_of(value) as i32),
                None => None,
            },
    )
}

/// The distinct values are distinct, and every value of a row is among them.
pub proof fn lemma_distinct<A>(rows: Seq<Option<A>>)
    ensures
        distinct(rows).no_duplicates(),
        distinct(rows).len() <= rows.len(),
        forall|i: int|
            0 <= i < rows.len() ==> (#[trigger] rows[i] matches Some(value) ==> distinct(
                rows,
            ).contains(value)),
    decreases rows.len(),
{
    if rows.len() > 0 {
        let front = rows.drop_last();
        lemma_distinct(front);
        let before = distinct(front);
        assert forall|i: int| 0 <= i < rows.len() implies (#[trigger] rows[i] matches Some(value)
            ==> distinct(rows).contains(value)) by {
            if let Some(value) = rows[i] {
                if i < front.len() {
                    assert(front[i] == rows[i]);
                    let k = choose|k: int| 0 <= k < before.len() && before[k] == value;
                    assert(distinct(rows)[k] == value);
                } else if !before.contains(value) {
                    assert(distinct(rows)[before.len() as int] == value);
                }
            }
        }
    }
}

/// More rows only add values.
pub proof fn lemma_distinct_grows<A>(rows: Seq<Option<A>>, n: int)
    requires
        0 <= n <= rows.len(),
    ensures
        distinct(rows.take(n)).len() <= distinct(rows).len(),
    decreases rows.len() - n,
{
    if n < rows.len() {
        assert(rows.take(n + 1).drop_last() =~= rows.take(n));
        lemma_distinct_grows(rows, n + 1);
    } else {
        assert(rows.take(n) =~= rows);
    }
}

/// Whether a slot holds a value.
fn holds_value(nulls: &Option<NullBuffer>, i: usize) -> (r: bool)
    requires
        *nulls matches Some(n) ==> i < null_buffer_bits(n).len(),
    ensures
        r == (*nulls matches Some(n) ==> null_buffer_bits(n)[i as int]),
{
    match nulls {
        Some(n) => n.is_valid(i),
        None => true,
    }
}

/// The keys and the distinct values of rows. It fails when there are more distinct values than
/// there are keys.
pub fn pack<T: DataType>(rows: &Vec<T::T>, nulls: &Option<NullBuffer>) -> (r: Result<
    (Vec<i32>, Vec<T::T>),
    ParquetError,
>)
    requires
        nulls_fit(*nulls, rows@.len()),
    ensures
        ({
            let slots = masked(rows@, *nulls);
            if distinct(slots).len() > 0x8000_0000 {
                r == Err::<(Vec<i32>, Vec<T::T>), ParquetError>(
                    ParquetError::General(Reason::KeyOverflow),
                )
            } else {
                &&& r matches Ok((keys, values))
                &&& keys@.len() == rows@.len()
                &&& values@ == distinct(slots)
                &&& masked(keys@, *nulls) == packed_keys(slots)
            }
        }),
{
    broadcast use vstd::std_specs::hash::group_hash_axioms;

    let ghost slots = masked(rows@, *nulls);
    let mut keys: Vec<i32> = Vec::with_capacity(rows.len());
    let mut values: Vec<T::T> = Vec::new();
    let mut known: HashMap<u64, i32> = HashMap::new();
    let mut i: usize = 0;
    proof {
        assert(slots.take(0) =~= Seq::empty());
    }
    while i < rows.len()
        invariant
            i <= rows@.len(),
            nulls_fit(*nulls, rows@.len()),
            slots == masked(rows@, *nulls),
            keys@.len() == i,
            values@ == distinct(slots.take(i as int)),
            values@.len() <= 0x8000_0000,
            forall|k: int|
                0 <= k < values@.len() ==> known@.contains_key(#[trigger] T::code(values@[k]))
                    && known@[T::code(values@[k])] == k,
            forall|c: u64| #[trigger]
                known@.contains_key(c) ==> 0 <= known@[c] < values@.len() && T::code(
                    values@[known@[c] as int],
                ) == c,
            forall|j: int|
                0 <= j < i ==> (#[trigger] slots[j] matches Some(value) ==> 0 <= keys@[j]
                    < values@.len() && values@[keys@[j] as int] == value),
        decreases rows@.len() - i,
    {
        proof {
            assert(slots.take(i + 1).drop_last() =~= slots.take(i as int));
            assert(slots.take(i + 1).last() == slots[i as int]);
        }
        let ghost before = values@;
        if holds_value(nulls, i) {
            let value = rows[i];
            let code: u64 = T::value_code(value);
            proof {
                assert(slots[i as int] == Some(value));
            }
            match known.get(&code) {
                Some(key) => {
                    proof {
                        T::code_tells_apart(before[*key as int], value);
                        assert(before.contains(value));
                    }
                    keys.push(*key);
                },
                None => {
                    proof {
                        if before.contains(value) {
                            let k = choose|k: int| 0 <= k < before.len() && before[k] == value;
                            assert(known@.contains_key(T::code(before[k])));
                        }
                    }
                    if values.len() > i32::MAX as usize {
                        proof {
                            assert(distinct(slots.take(i + 1)).len() == values@.len() + 1);
                            lemma_distinct_grows(slots, i + 1);
                        }
                        return Err(ParquetError::General(Reason::KeyOverflow));
                    }
                    let key: i32 = values.len() as i32;
                    values.push(value);
                    known.insert(code, key);
                    keys.push(key);
                    proof {
                        assert(values@ == distinct(slots.take(i + 1)));
                        assert forall|k: int| 0 <= k < values@.len() implies known@.contains_key(
                            #[trigger] T::code(values@[k]),
                        ) && known@[T::code(values@[k])] == k by {
                            if k < before.len() {
                                assert(values@[k] == before[k]);
                                assert(known@.contains_key(T::code(before[k])));
                            }
                        }
                    }
                },
            }
        } else {
            proof {
                assert(slots[i as int] is None);
            }
            keys.push(0);
        }
        i = i + 1;
    }
    proof {
        assert(slots.take(i as int) =~= slots);
        lemma_distinct(slots);
        assert forall|j: int| 0 <= j < slots.len() implies #[trigger] masked(keys@, *nulls)[j]
            == packed_keys(slots)[j] by {
            if let Some(value) = slots[j] {
                let found = distinct(slots).index_of(value);
                assert(values@[keys@[j] as int] == value);
                assert(values@[found] == value);
            }
        }
        assert(masked(keys@, *nulls) =~= packed_keys(slots));
    }
    Ok((keys, values))
}

} // verus!
