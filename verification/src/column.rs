//! What a record reader asks of the values of a column: a decoder, and a buffer to decode into.
use bytes::Bytes;
use std::sync::Arc;
use vstd::prelude::*;

use crate::bits::{lemma_rank_bounds, rank, unpacked};
use crate::errors::{Encoding, ParquetError};
use crate::types::ColumnDescriptor;

verus! {

/// A shared column description.
pub type ColumnDescPtr = Arc<ColumnDescriptor>;

/// Something that values can be decoded into.
pub trait DecodeBuffer: View {
    /// The content is valid.
    spec fn wf(content: Self::V) -> bool;

    /// How many values there are.
    spec fn held(content: Self::V) -> nat;

    /// How many values there are.
    fn num_held(&self) -> (r: usize)
        ensures
            r == Self::held(self@),
    ;
}

impl<A> DecodeBuffer for Vec<A> {
    open spec fn wf(content: Seq<A>) -> bool {
        true
    }

    open spec fn held(content: Seq<A>) -> nat {
        content.len()
    }

    fn num_held(&self) -> (r: usize) {
        self.len()
    }
}

/// Decodes the values of a column, page by page.
pub trait ColumnValueDecoder: Sized {
    type Buffer: DecodeBuffer;

    /// The decoder is valid.
    spec fn wf(&self) -> bool;

    /// `r` is a new decoder for the column.
    spec fn starts(column_desc: ColumnDescriptor, r: Self) -> bool;

    /// What setting a dictionary page does.
    spec fn sets_dict(
        before: Self,
        buf: Bytes,
        num_values: u32,
        encoding: Encoding,
        after: Self,
        r: Result<(), ParquetError>,
    ) -> bool;

    /// The bytes can be set as a page of the given encoding.
    spec fn takes_data(encoding: Encoding, data: Bytes) -> bool;

    /// What setting a data page does.
    spec fn sets_data(
        before: Self,
        encoding: Encoding,
        data: Bytes,
        num_levels: usize,
        num_values: Option<usize>,
        after: Self,
        r: Result<(), ParquetError>,
    ) -> bool;

    /// A data page has been set.
    spec fn has_data(&self) -> bool;

    /// `num_values` values can be read into the buffer.
    spec fn can_read(&self, out: <Self::Buffer as View>::V, num_values: usize) -> bool;

    /// What a read does.
    spec fn reads(
        before: Self,
        out_before: <Self::Buffer as View>::V,
        num_values: usize,
        after: Self,
        out_after: <Self::Buffer as View>::V,
        r: Result<usize, ParquetError>,
    ) -> bool;

    /// What passing over values does.
    spec fn skips(
        before: Self,
        num_values: usize,
        after: Self,
        r: Result<usize, ParquetError>,
    ) -> bool;

    /// A read appends as many values as it says, and no more than it was asked for.
    proof fn lemma_reads(
        before: Self,
        out_before: <Self::Buffer as View>::V,
        num_values: usize,
        after: Self,
        out_after: <Self::Buffer as View>::V,
        r: Result<usize, ParquetError>,
    )
        requires
            before.can_read(out_before, num_values),
            Self::reads(before, out_before, num_values, after, out_after, r),
            r is Ok,
        ensures
            r->Ok_0 <= num_values,
            Self::Buffer::held(out_after) == Self::Buffer::held(out_before) + r->Ok_0,
    ;

    /// A decoder for a column.
    fn new(column_desc: &ColumnDescPtr) -> (r: Self)
        ensures
            r.wf(),
            Self::starts(**column_desc, r),
    ;

    /// Takes a dictionary page. Whether it is sorted makes no difference.
    fn set_dict(&mut self, buf: Bytes, num_values: u32, encoding: Encoding, is_sorted: bool) -> (r:
        Result<(), ParquetError>)
        requires
            old(self).wf(),
        ensures
            final(self).wf(),
            Self::sets_dict(*old(self), buf, num_values, encoding, *final(self), r),
    ;

    /// Whether the bytes can be set as a page of the given encoding.
    fn check_data(encoding: Encoding, data: &Bytes) -> (r: bool)
        ensures
            r == Self::takes_data(encoding, *data),
    ;

    /// Takes a data page of `num_levels` rows, of which `num_values` hold a value where that is
    /// known.
    fn set_data(
        &mut self,
        encoding: Encoding,
        data: Bytes,
        num_levels: usize,
        num_values: Option<usize>,
    ) -> (r: Result<(), ParquetError>)
        requires
            old(self).wf(),
            Self::takes_data(encoding, data),
        ensures
            final(self).wf(),
            Self::sets_data(
                *old(self),
                encoding,
                data,
                num_levels,
                num_values,
                *final(self),
                r,
            ),
    ;

    /// Whether a data page has been set.
    fn is_ready(&self) -> (r: bool)
        ensures
            r == self.has_data(),
    ;

    /// Whether `num_values` values can be read into the buffer.
    fn check_read(&self, out: &Self::Buffer, num_values: usize) -> (r: bool)
        requires
            self.wf(),
            Self::Buffer::wf(out@),
        ensures
            r == self.can_read(out@, num_values),
    ;

    /// Reads up to `num_values` values of the page into the buffer. Gives how many there were.
    fn read(&mut self, out: &mut Self::Buffer, num_values: usize) -> (r: Result<
        usize,
        ParquetError,
    >)
        requires
            old(self).wf(),
            Self::Buffer::wf(old(out)@),
            old(self).can_read(old(out)@, num_values),
        ensures
            final(self).wf(),
            Self::Buffer::wf(final(out)@),
            Self::reads(*old(self), old(out)@, num_values, *final(self), final(out)@, r),
    ;

    /// Passes over up to `num_values` values of the page. Gives how many there were.
    fn skip_values(&mut self, num_values: usize) -> (r: Result<usize, ParquetError>)
        requires
            old(self).wf(),
            old(self).has_data(),
        ensures
            final(self).wf(),
            Self::skips(*old(self), num_values, *final(self), r),
    ;
}

/// Holds the values of the rows that have been read.
pub trait ValuesBuffer: Sized + DecodeBuffer {
    /// The buffer holds nothing.
    spec fn is_blank(content: Self::V) -> bool;

    /// A null row takes the place of a value, too.
    spec fn has_null_slots() -> bool;

    /// Nulls can be padded: the buffer holds the values of the valid rows only, from row
    /// `read_offset` on.
    spec fn can_pad(
        content: Self::V,
        read_offset: usize,
        values_read: usize,
        levels_read: usize,
        rows: Seq<bool>,
    ) -> bool;

    /// What padding makes of the content.
    spec fn padded(
        content: Self::V,
        read_offset: usize,
        values_read: usize,
        levels_read: usize,
        rows: Seq<bool>,
    ) -> Self::V;

    /// Where values stand for rows, those of the valid rows can be padded, and a value stands for
    /// each row afterwards.
    proof fn lemma_padded(
        content: Self::V,
        read_offset: usize,
        values_read: usize,
        levels_read: usize,
        rows: Seq<bool>,
    )
        requires
            names_rows(
                read_offset as int,
                values_read as int,
                levels_read as int,
                rows,
            ),
            Self::has_null_slots() ==> Self::held(content) == read_offset + values_read,
        ensures
            Self::can_pad(content, read_offset, values_read, levels_read, rows),
            Self::held(
                Self::padded(content, read_offset, values_read, levels_read, rows),
            ) == if Self::has_null_slots() {
                (read_offset + levels_read) as nat
            } else {
                Self::held(content)
            },
    ;

    /// Where values do not stand for rows, padding changes nothing.
    proof fn lemma_compact(
        content: Self::V,
        read_offset: usize,
        values_read: usize,
        levels_read: usize,
        rows: Seq<bool>,
    )
        ensures
            !Self::has_null_slots() ==> Self::can_pad(
                content,
                read_offset,
                values_read,
                levels_read,
                rows,
            ),
            !Self::has_null_slots() ==> Self::padded(
                content,
                read_offset,
                values_read,
                levels_read,
                rows,
            ) == content,
    ;

    /// Whether a null row takes the place of a value, too.
    fn null_slots() -> (r: bool)
        ensures
            r == Self::has_null_slots(),
    ;

    /// A buffer that holds nothing, with room for some values.
    fn with_capacity(capacity: usize) -> (r: Self)
        ensures
            Self::wf(r@),
            Self::is_blank(r@),
            Self::held(r@) == 0,
    ;

    /// Makes room for the null rows among the `levels_read` rows from `read_offset` on.
    fn pad_nulls(
        &mut self,
        read_offset: usize,
        values_read: usize,
        levels_read: usize,
        valid_mask: &[u8],
    )
        requires
            Self::wf(old(self)@),
            Self::can_pad(
                old(self)@,
                read_offset,
                values_read,
                levels_read,
                rows_named(valid_mask@, read_offset + levels_read),
            ),
        ensures
            Self::wf(final(self)@),
            final(self)@ == Self::padded(
                old(self)@,
                read_offset,
                values_read,
                levels_read,
                rows_named(valid_mask@, read_offset + levels_read),
            ),
    ;
}

/// The first `end` bits of a packed mask, or all of them where it has no more.
pub open spec fn rows_named(valid_mask: Seq<u8>, end: int) -> Seq<bool> {
    unpacked(
        valid_mask,
        if end <= 8 * valid_mask.len() {
            end as nat
        } else {
            8 * valid_mask.len()
        },
    )
}

/// Of the `levels_read` rows from `read_offset` on, `values_read` are valid.
pub open spec fn names_rows(
    read_offset: int,
    values_read: int,
    levels_read: int,
    rows: Seq<bool>,
) -> bool {
    let end = read_offset + levels_read;
    &&& 0 <= read_offset
    &&& 0 <= levels_read
    &&& end <= usize::MAX
    &&& end <= rows.len()
    &&& values_read == rank(rows, end) - rank(rows, read_offset)
}

/// The values of rows `read_offset` on stand next to each other, one for each valid row.
pub open spec fn can_space_out<A>(
    values: Seq<A>,
    read_offset: int,
    values_read: int,
    levels_read: int,
    rows: Seq<bool>,
) -> bool {
    &&& names_rows(read_offset, values_read, levels_read, rows)
    &&& values.len() == read_offset + values_read
}

/// The values moved to their rows. A null row keeps what stood in its place, or `unset` where
/// nothing did.
pub open spec fn spaced_out<A>(
    values: Seq<A>,
    unset: A,
    read_offset: int,
    levels_read: int,
    rows: Seq<bool>,
) -> Seq<A> {
    let end = read_offset + levels_read;
    Seq::new(
        end as nat,
        |j: int|
            if j >= read_offset && rows[j] {
                values[read_offset + rank(rows, j) - rank(rows, read_offset)]
            } else if j < values.len() {
                values[j]
            } else {
                unset
            },
    )
}

/// Moves the values of the rows from `read_offset` on to their rows.
pub fn space_out<A: Copy>(
    values: &mut Vec<A>,
    unset: A,
    read_offset: usize,
    values_read: usize,
    levels_read: usize,
    valid_mask: &[u8],
)
    requires
        can_space_out(
            old(values)@,
            read_offset as int,
            values_read as int,
            levels_read as int,
            rows_named(valid_mask@, read_offset + levels_read),
        ),
    ensures
        final(values)@ == spaced_out(
            old(values)@,
            unset,
            read_offset as int,
            levels_read as int,
            rows_named(valid_mask@, read_offset + levels_read),
        ),
{
    let end: usize = read_offset + levels_read;
    let ghost rows = rows_named(valid_mask@, end as int);
    let ghost before = values@;
    let ghost goal = spaced_out(
        before,
        unset,
        read_offset as int,
        levels_read as int,
        rows,
    );
    proof {
        lemma_rank_bounds(rows, read_offset as int, end as int);
    }
    while values.len() < end
        invariant
            before.len() <= values@.len() <= end,
            forall|j: int| 0 <= j < before.len() ==> values@[j] == before[j],
            forall|j: int| before.len() <= j < values@.len() ==> values@[j] == unset,
        decreases end - values@.len(),
    {
        values.push(unset);
    }
    let mut level: usize = end;
    let mut position: usize = read_offset + values_read;
    while level > read_offset
        invariant
            rows == unpacked(valid_mask@, end as nat),
            before.len() == read_offset + values_read <= end,
            end == read_offset + levels_read,
            end <= 8 * valid_mask@.len(),
            goal == spaced_out(
                before,
                unset,
                read_offset as int,
                levels_read as int,
                rows,
            ),
            read_offset <= level <= end,
            values@.len() == end,
            position == read_offset + rank(rows, level as int) - rank(rows, read_offset as int),
            forall|j: int|
                0 <= j < level ==> values@[j] == if j < before.len() {
                    before[j]
                } else {
                    unset
                },
            forall|j: int| level <= j < end ==> values@[j] == goal[j],
            values_read == rank(rows, end as int) - rank(rows, read_offset as int),
        decreases level,
    {
        level = level - 1;
        let byte: u8 = valid_mask[level / 8];
        let valid: bool = (byte >> ((level % 8) as u8)) & 1 == 1;
        proof {
            lemma_rank_bounds(rows, read_offset as int, level as int);
            lemma_rank_bounds(rows, level as int + 1, end as int);
            assert(valid == rows[level as int]);
        }
        if valid {
            position = position - 1;
            values[level] = values[position];
        }
    }
    proof {
        assert(values@ =~= goal);
    }
}

} // verus!
