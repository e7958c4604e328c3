//! The rows of a filter: what a predicate said of the values, spread over the valid rows.
use arrow_array::BooleanArray;
use arrow_buffer::{BooleanBuffer, MutableBuffer};
use vstd::prelude::*;

use crate::arrow::{
    boolean_array, boolean_array_values, boolean_buffer, boolean_buffer_bytes, buffer_bytes, freeze,
};
use crate::bits::{
    bit_at, byte_bits, lemma_rank_bounds, lemma_rank_split, lemma_rank_zero_run, pack_byte, rank,
    scattered, set_count, unpacked,
};

verus! {

/// Which of `n` rows hold a value: those that the packed validity names, or all of them.
pub open spec fn valid_rows(validity: Option<Seq<u8>>, n: nat) -> Seq<bool> {
    match validity {
        Some(bytes) => unpacked(bytes, n),
        None => Seq::new(n, |i: int| true),
    }
}

/// Only the low `count` bits of a byte are kept.
proof fn lemma_low_bits(byte: u8, count: u8, j: u8)
    by (bit_vector)
    requires
        count < 8,
        j < 8,
    ensures
        ((byte & (((1u8 << count) - 1) as u8)) >> j) & 1u8 == if j < count {
            (byte >> j) & 1u8
        } else {
            0u8
        },
        (1u8 << count) >= 1,
{
}

/// The rows that an optional validity bitmap names.
pub open spec fn rows_of(validity: Option<&[u8]>, n: nat) -> Seq<bool> {
    match validity {
        Some(bytes) => valid_rows(Some(bytes@), n),
        None => valid_rows(None, n),
    }
}

/// Writes the packed rows into `out`, one bit per row.
fn fill_rows(out: &mut [u8], validity: Option<&[u8]>, compact: &Vec<u8>, num_rows: usize)
    requires
        old(out)@.len() == (num_rows + 7) / 8,
        validity matches Some(bytes) ==> num_rows <= 8 * bytes@.len(),
        compact@.len() == set_count(rows_of(validity, num_rows as nat)),
        forall|i: int| 0 <= i < compact@.len() ==> compact@[i] <= 1,
    ensures
        final(out)@.len() == old(out)@.len(),
        unpacked(final(out)@, num_rows as nat) == scattered(
            rows_of(validity, num_rows as nat),
            compact@,
        ),
{
    let ghost rows = rows_of(validity, num_rows as nat);
    let mut byte_index: usize = 0;
    let mut compact_index: usize = 0;
    while byte_index < out.len()
        invariant
            rows == rows_of(validity, num_rows as nat),
            out@.len() == old(out)@.len(),
            out@.len() == (num_rows + 7) / 8,
            byte_index <= out@.len(),
            validity matches Some(bytes) ==> num_rows <= 8 * bytes@.len(),
            compact@.len() == set_count(rows),
            forall|i: int| 0 <= i < compact@.len() ==> compact@[i] <= 1,
            byte_index < out@.len() ==> compact_index == rank(rows, 8 * byte_index),
            forall|k: int|
                0 <= k < 8 * byte_index && k < num_rows ==> bit_at(out@, k) == #[trigger] scattered(
                    rows,
                    compact@,
                )[k],
        decreases out@.len() - byte_index,
    {
        let remaining: usize = num_rows - byte_index * 8;
        let relevant_bits: usize = if remaining < 8 {
            remaining
        } else {
            8
        };
        let whole: u8 = match validity {
            Some(bytes) => bytes[byte_index],
            None => u8::MAX,
        };
        let mut valid_byte: u8 = whole;
        proof {
            let count = relevant_bits as u8;
            if count < 8 {
                lemma_low_bits(whole, count, 0);
            }
        }
        if relevant_bits != 8 {
            valid_byte = valid_byte & ((1u8 << relevant_bits) - 1);
        }
        let ghost start = 8 * byte_index as int;
        let ghost part = byte_bits(valid_byte);
        proof {
            let count = relevant_bits as u8;
            assert forall|j: int| 0 <= j < 8 implies #[trigger] part[j] == (j < relevant_bits
                && rows[start + j]) by {
                if count < 8 {
                    lemma_low_bits(whole, count, j as u8);
                }
                let k = j as u8;
                assert((0xffu8 >> k) & 1u8 == 1u8) by (bit_vector)
                    requires
                        k < 8,
                ;
                assert((start + j) / 8 == byte_index && (start + j) % 8 == j);
            }
            lemma_rank_split(rows, part, start, relevant_bits as int);
            lemma_rank_zero_run(part, relevant_bits as int, 8);
            lemma_rank_bounds(rows, start + relevant_bits, num_rows as int);
        }
        let (packed, next_index) = pack_byte(valid_byte, compact, compact_index);
        let ghost before = out@;
        out[byte_index] = packed;
        proof {
            assert forall|k: int|
                0 <= k < 8 * (byte_index + 1) && k < num_rows implies bit_at(out@, k)
                == #[trigger] scattered(rows, compact@)[k] by {
                if k < start {
                    assert(bit_at(before, k) == scattered(rows, compact@)[k]);
                } else {
                    let j = k - start;
                    assert(k / 8 == byte_index && k % 8 == j);
                    assert(byte_bits(packed)[j] == scattered(
                        part,
                        compact@.skip(compact_index as int),
                    )[j]);
                    lemma_rank_split(rows, part, start, j);
                    if part[j] {
                        lemma_rank_bounds(part, j + 1, 8);
                        assert(rank(part, j + 1) == rank(part, j) + 1);
                    }
                }
            }
        }
        compact_index = next_index;
        byte_index = byte_index + 1;
    }
    proof {
        assert(unpacked(out@, num_rows as nat) =~= scattered(rows, compact@));
    }
}

/// The filter over `num_rows` rows: row `i` holds what the predicate said of its value, and
/// `false` where the row holds none.
pub fn filter_rows(validity: Option<&BooleanBuffer>, compact: &Vec<u8>, num_rows: usize) -> (r:
    BooleanArray)
    requires
        validity matches Some(b) ==> num_rows <= 8 * boolean_buffer_bytes(*b).len(),
        compact@.len() == set_count(rows_of_buffer(validity, num_rows as nat)),
        forall|i: int| 0 <= i < compact@.len() ==> compact@[i] <= 1,
    ensures
        boolean_array_values(r) == scattered(
            rows_of_buffer(validity, num_rows as nat),
            compact@,
        ).map_values(|b: bool| Some(b)),
{
    let mut output = MutableBuffer::new_null(num_rows);
    let bytes: Option<&[u8]> = match validity {
        Some(b) => Some(b.values()),
        None => None,
    };
    fill_rows(output.as_slice_mut(), bytes, compact, num_rows);
    let frozen = freeze(output);
    let ghost rows = scattered(rows_of_buffer(validity, num_rows as nat), compact@);
    proof {
        assert(unpacked(buffer_bytes(frozen), num_rows as nat) == rows);
        assert(rows.skip(0) =~= rows);
    }
    boolean_array(boolean_buffer(frozen, 0, num_rows))
}

/// The rows that an optional validity buffer names.
pub open spec fn rows_of_buffer(validity: Option<&BooleanBuffer>, n: nat) -> Seq<bool> {
    match validity {
        Some(b) => valid_rows(Some(boolean_buffer_bytes(*b)), n),
        None => valid_rows(None, n),
    }
}

} // verus!
