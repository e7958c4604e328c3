//! Collects the rows of a column from its pages.
use arrow_buffer::Buffer;
use bytes::Bytes;
use vstd::prelude::*;

use crate::arrow::{buffer_bytes, buffer_from_vec};
use crate::bits::{
    bit_at, filled, filled_bit, lemma_rank_extended, lemma_rank_full_run, rank, set_count, Bitmap,
};
use crate::column::{rows_named, ColumnDescPtr, ColumnValueDecoder, ValuesBuffer};
use crate::errors::{Encoding, ParquetError, Reason};
use crate::types::ColumnDescriptor;

verus! {

/// The levels of some consecutive rows of a page. A column without nulls needs no definition
/// levels, and one without lists no repetition levels.
pub struct Levels {
    pub count: usize,
    pub def_levels: Vec<i16>,
    pub rep_levels: Vec<i16>,
}

impl Levels {
    /// There is a level of each kind that the column has for each row.
    pub open spec fn fits(self, column: ColumnDescriptor) -> bool {
        &&& column.max_def_level > 0 ==> self.def_levels@.len() == self.count
        &&& column.max_rep_level > 0 ==> self.rep_levels@.len() == self.count
    }

    /// The rows that hold a value.
    pub open spec fn validity(self, column: ColumnDescriptor) -> Seq<bool> {
        Seq::new(
            self.count as nat,
            |i: int| column.max_def_level > 0 ==> self.def_levels@[i] == column.max_def_level,
        )
    }

    /// The rows that start a record.
    pub open spec fn starts(self, column: ColumnDescriptor) -> Seq<bool> {
        Seq::new(
            self.count as nat,
            |i: int| column.max_rep_level > 0 ==> self.rep_levels@[i] == 0,
        )
    }

    /// Whether there is a level of each kind that the column has for each row.
    pub fn check(&self, column: &ColumnDescriptor) -> (r: bool)
        ensures
            r == self.fits(*column),
    {
        (column.max_def_level <= 0 || self.def_levels.len() == self.count) && (
        column.max_rep_level <= 0 || self.rep_levels.len() == self.count)
    }

    /// How many rows hold a value.
    pub fn num_valid(&self, column: &ColumnDescriptor) -> (r: usize)
        requires
            self.fits(*column),
        ensures
            r == set_count(self.validity(*column)),
            r <= self.count,
    {
        count_equal(
            column.max_def_level > 0,
            &self.def_levels,
            column.max_def_level,
            self.count,
            Ghost(self.validity(*column)),
        )
    }

    /// How many records start.
    pub fn num_records(&self, column: &ColumnDescriptor) -> (r: usize)
        requires
            self.fits(*column),
        ensures
            r == set_count(self.starts(*column)),
            r <= self.count,
    {
        count_equal(
            column.max_rep_level > 0,
            &self.rep_levels,
            0,
            self.count,
            Ghost(self.starts(*column)),
        )
    }
}

/// How many of `count` levels equal `wanted`, or `count` where there are no levels.
fn count_equal(
    has_levels: bool,
    levels: &Vec<i16>,
    wanted: i16,
    count: usize,
    Ghost(bits): Ghost<Seq<bool>>,
) -> (r: usize)
    requires
        has_levels ==> levels@.len() == count,
        bits.len() == count,
        forall|i: int| 0 <= i < count ==> bits[i] == (has_levels ==> levels@[i] == wanted),
    ensures
        r == set_count(bits),
        r <= count,
{
    if !has_levels {
        proof {
            lemma_rank_full_run(bits, count as int);
        }
        return count;
    }
    let mut found: usize = 0;
    let mut i: usize = 0;
    while i < count
        invariant
            i <= count == levels@.len(),
            bits.len() == count,
            found == rank(bits, i as int),
            found <= i,
            forall|i: int| 0 <= i < count ==> bits[i] == (levels@[i] == wanted),
        decreases count - i,
    {
        if levels[i] == wanted {
            found = found + 1;
        }
        i = i + 1;
    }
    found
}

/// What a record reader holds.
#[verifier::ext_equal]
pub struct RecordState<C, D> {
    pub column: ColumnDescriptor,
    pub decoder: Option<D>,
    pub content: C,
    pub def_levels: Option<Seq<i16>>,
    pub rep_levels: Option<Seq<i16>>,
    /// The rows that hold a value, where a row may hold none.
    pub valid: Option<Seq<bool>>,
    pub num_values: nat,
    pub num_records: nat,
}

/// Collects the rows of a column.
pub struct GenericRecordReader<V, D> {
    column_desc: ColumnDescPtr,
    decoder: Option<D>,
    values: V,
    def_levels: Option<Vec<i16>>,
    rep_levels: Option<Vec<i16>>,
    valid: Option<Bitmap>,
    num_values: usize,
    num_records: usize,
    capacity: usize,
}

/// The elements of an optional vector.
pub open spec fn elements<A>(v: Option<Vec<A>>) -> Option<Seq<A>> {
    match v {
        Some(v) => Some(v@),
        None => None,
    }
}

/// Levels with more levels behind them.
pub open spec fn extended<A>(levels: Option<Seq<A>>, more: Seq<A>) -> Option<Seq<A>> {
    match levels {
        Some(levels) => Some(levels + more),
        None => None,
    }
}

/// The levels without any rows.
pub open spec fn emptied<A>(levels: Option<Seq<A>>) -> Option<Seq<A>> {
    match levels {
        Some(_) => Some(Seq::empty()),
        None => None,
    }
}

/// There are as many levels as rows.
pub open spec fn levels_match<A>(levels: Option<Seq<A>>, count: nat) -> bool {
    levels matches Some(levels) ==> levels.len() == count
}

/// A record reader of a column that has no rows and nothing to read them from.
pub open spec fn starts_empty<C, D>(state: RecordState<C, D>, column: ColumnDescriptor) -> bool {
    state == RecordState::<C, D> {
        column,
        decoder: None,
        content: state.content,
        def_levels: if column.max_def_level > 0 {
            Some(Seq::empty())
        } else {
            None
        },
        rep_levels: if column.max_rep_level > 0 {
            Some(Seq::empty())
        } else {
            None
        },
        valid: if column.max_def_level > 0 {
            Some(Seq::empty())
        } else {
            None
        },
        num_values: 0,
        num_records: 0,
    }
}

/// The validity that a batch gets. Only a column whose innermost field may be null has one.
pub open spec fn given_validity<C, D>(state: RecordState<C, D>) -> Option<Seq<bool>> {
    match state.valid {
        Some(valid) => if state.column.is_optional {
            Some(filled(valid, state.num_values))
        } else {
            None
        },
        None => None,
    }
}

/// The bytes of the validity that a batch gets have a bit for every row.
pub open spec fn validity_covers<C, D>(state: RecordState<C, D>) -> bool {
    state.column.is_optional ==> (state.valid matches Some(valid) ==> state.num_values <= 8 * ((
    valid.len() + 7) / 8))
}

/// How many rows hold a value.
pub open spec fn num_valid<C, D>(state: RecordState<C, D>) -> nat {
    match state.valid {
        Some(valid) => set_count(valid),
        None => state.num_values,
    }
}

impl<V: ValuesBuffer, D: ColumnValueDecoder<Buffer = V>> View for GenericRecordReader<V, D> {
    type V = RecordState<V::V, D>;

    closed spec fn view(&self) -> RecordState<V::V, D> {
        RecordState {
            column: *self.column_desc,
            decoder: self.decoder,
            content: self.values@,
            def_levels: elements(self.def_levels),
            rep_levels: elements(self.rep_levels),
            valid: match self.valid {
                Some(valid) => Some(valid@),
                None => None,
            },
            num_values: self.num_values as nat,
            num_records: self.num_records as nat,
        }
    }
}

impl<V: ValuesBuffer, D: ColumnValueDecoder<Buffer = V>> GenericRecordReader<V, D> {
    /// The reader is valid.
    pub closed spec fn wf(self) -> bool {
        &&& V::wf(self.values@)
        &&& self.decoder matches Some(d) ==> d.wf()
        &&& self.valid matches Some(valid) ==> valid.wf()
        &&& self.valid is Some <==> self.column_desc.max_def_level > 0
        &&& self.def_levels is Some <==> self.column_desc.max_def_level > 0
        &&& self.rep_levels is Some <==> self.column_desc.max_rep_level > 0
        &&& self.num_records <= self.num_values
    }

    /// The levels, the validity and, where null rows take the place of a value, the values tell of
    /// the same rows.
    pub open spec fn in_step(state: RecordState<V::V, D>) -> bool {
        &&& state.def_levels is Some <==> state.column.max_def_level > 0
        &&& state.valid is Some <==> state.column.max_def_level > 0
        &&& state.rep_levels is Some <==> state.column.max_rep_level > 0
        &&& levels_match(state.def_levels, state.num_values)
        &&& levels_match(state.rep_levels, state.num_values)
        &&& levels_match(state.valid, state.num_values)
        &&& V::has_null_slots() ==> V::held(state.content) == state.num_values
    }

    /// The validity and the values tell of the same rows.
    pub open spec fn can_pad_rows(state: RecordState<V::V, D>) -> bool {
        &&& levels_match(state.valid, state.num_values)
        &&& V::held(state.content) == state.num_values
    }

    /// There is a value for every row that holds one.
    pub open spec fn is_complete(state: RecordState<V::V, D>) -> bool {
        &&& Self::in_step(state)
        &&& !V::has_null_slots() ==> V::held(state.content) == num_valid(state)
    }

    /// No rows are held.
    pub open spec fn is_reset(before: RecordState<V::V, D>, after: RecordState<V::V, D>) -> bool {
        &&& V::is_blank(after.content)
        &&& V::held(after.content) == 0
        &&& after == RecordState {
            content: after.content,
            def_levels: emptied(before.def_levels),
            rep_levels: emptied(before.rep_levels),
            valid: emptied(before.valid),
            num_values: 0,
            num_records: 0,
            ..before
        }
    }

    /// What reading the rows of `levels` makes of the reader, once their values are in `content`.
    pub open spec fn with_rows(
        before: RecordState<V::V, D>,
        levels: Levels,
        decoder: D,
        content: V::V,
    ) -> RecordState<V::V, D> {
        let validity = levels.validity(before.column);
        let valid = extended(before.valid, validity);
        RecordState {
            decoder: Some(decoder),
            content: if set_count(validity) < levels.count {
                V::padded(
                    content,
                    before.num_values as usize,
                    set_count(validity) as usize,
                    levels.count,
                    valid->0,
                )
            } else {
                content
            },
            def_levels: extended(before.def_levels, levels.def_levels@),
            rep_levels: extended(before.rep_levels, levels.rep_levels@),
            valid,
            num_values: before.num_values + levels.count as nat,
            num_records: before.num_records + set_count(levels.starts(before.column)),
            ..before
        }
    }

    /// What reading the rows of `levels` does: their values are read, and a null row takes none.
    pub open spec fn reads_rows(
        before: RecordState<V::V, D>,
        levels: Levels,
        after: RecordState<V::V, D>,
        r: Result<usize, ParquetError>,
    ) -> bool {
        let want = set_count(levels.validity(before.column)) as usize;
        exists|next: D, content: V::V, got: Result<usize, ParquetError>|
            {
                &&& #[trigger] D::reads(
                    before.decoder->0,
                    before.content,
                    want,
                    next,
                    content,
                    got,
                )
                &&& match got {
                    Ok(read) => if read == want {
                        &&& after == Self::with_rows(before, levels, next, content)
                        &&& r == Ok::<usize, ParquetError>(
                            set_count(levels.starts(before.column)) as usize,
                        )
                    } else {
                        &&& after == RecordState { decoder: Some(next), content, ..before }
                        &&& r == Err::<usize, ParquetError>(
                            ParquetError::General(
                                Reason::InsufficientValues { expected: want, read },
                            ),
                        )
                    },
                    Err(e) => {
                        &&& after == RecordState { decoder: Some(next), content, ..before }
                        &&& r == Err::<usize, ParquetError>(e)
                    },
                }
            }
    }

    /// What passing over the rows of `levels` does: their values are passed over, and nothing is
    /// kept of the rows.
    pub open spec fn skips_rows(
        before: RecordState<V::V, D>,
        levels: Levels,
        after: RecordState<V::V, D>,
        r: Result<usize, ParquetError>,
    ) -> bool {
        let want = set_count(levels.validity(before.column)) as usize;
        exists|next: D, got: Result<usize, ParquetError>|
            {
                &&& #[trigger] D::skips(before.decoder->0, want, next, got)
                &&& after == RecordState { decoder: Some(next), ..before }
                &&& r == match got {
                    Ok(skipped) => if skipped == want {
                        Ok::<usize, ParquetError>(
                            set_count(levels.starts(before.column)) as usize,
                        )
                    } else {
                        Err(
                            ParquetError::General(
                                Reason::InsufficientSkip { expected: want, skipped },
                            ),
                        )
                    },
                    Err(e) => Err(e),
                }
            }
    }

    /// The rows of `levels` can be passed over.
    pub open spec fn can_skip_rows(state: RecordState<V::V, D>, levels: Levels) -> bool {
        &&& levels.fits(state.column)
        &&& state.decoder matches Some(decoder)
        &&& decoder.has_data()
    }

    /// A reader for a column that holds no rows and has no column chunk to read from.
    pub fn new(column_desc: ColumnDescPtr, capacity: usize) -> (r: Self)
        ensures
            r.wf(),
            V::is_blank(r@.content),
            V::held(r@.content) == 0,
            starts_empty(r@, *column_desc),
            Self::is_complete(r@),
    {
        let has_nulls: bool = column_desc.max_def_level > 0;
        let has_lists: bool = column_desc.max_rep_level > 0;
        let def_levels: Option<Vec<i16>> = if has_nulls {
            Some(Vec::new())
        } else {
            None
        };
        let rep_levels: Option<Vec<i16>> = if has_lists {
            Some(Vec::new())
        } else {
            None
        };
        let valid: Option<Bitmap> = if has_nulls {
            Some(Bitmap::new())
        } else {
            None
        };
        GenericRecordReader {
            column_desc,
            decoder: None,
            values: V::with_capacity(capacity),
            def_levels,
            rep_levels,
            valid,
            num_values: 0,
            num_records: 0,
            capacity,
        }
    }

    /// Goes on with another column chunk, which `decoder` is to decode.
    pub fn start_chunk(&mut self, decoder: D)
        requires
            old(self).wf(),
            decoder.wf(),
        ensures
            final(self).wf(),
            final(self)@ == (RecordState { decoder: Some(decoder), ..old(self)@ }),
    {
        self.decoder = Some(decoder);
    }

    /// The column that is read.
    pub fn column(&self) -> (r: &ColumnDescPtr)
        ensures
            **r == self@.column,
    {
        &self.column_desc
    }

    /// Whether a column chunk has been started.
    pub fn has_chunk(&self) -> (r: bool)
        ensures
            r == self@.decoder is Some,
    {
        self.decoder.is_some()
    }

    /// Whether the rows of `levels` can be passed over.
    pub fn check_skip(&self, levels: &Levels) -> (r: bool)
        ensures
            r == Self::can_skip_rows(self@, *levels),
    {
        levels.check(&self.column_desc) && match &self.decoder {
            Some(decoder) => decoder.is_ready(),
            None => false,
        }
    }

    /// Takes the dictionary page of the column chunk.
    pub fn set_dict(&mut self, buf: Bytes, num_values: u32, encoding: Encoding, is_sorted: bool)
        -> (r: Result<(), ParquetError>)
        requires
            old(self).wf(),
            old(self)@.decoder is Some,
        ensures
            final(self).wf(),
            exists|next: D| #[trigger]
                D::sets_dict(old(self)@.decoder->0, buf, num_values, encoding, next, r)
                    && final(self)@ == (RecordState { decoder: Some(next), ..old(self)@ }),
    {
        match &mut self.decoder {
            Some(decoder) => {
                let ghost before = *decoder;
                let r = decoder.set_dict(buf, num_values, encoding, is_sorted);
                proof {
                    assert(D::sets_dict(before, buf, num_values, encoding, *decoder, r));
                }
                r
            },
            None => vstd::pervasive::unreached(),
        }
    }

    /// Takes a data page of the column chunk.
    pub fn set_data(
        &mut self,
        encoding: Encoding,
        data: Bytes,
        num_levels: usize,
        num_values: Option<usize>,
    ) -> (r: Result<(), ParquetError>)
        requires
            old(self).wf(),
            old(self)@.decoder is Some,
            D::takes_data(encoding, data),
        ensures
            final(self).wf(),
            exists|next: D| #[trigger]
                D::sets_data(
                    old(self)@.decoder->0,
                    encoding,
                    data,
                    num_levels,
                    num_values,
                    next,
                    r,
                ) && final(self)@ == (RecordState { decoder: Some(next), ..old(self)@ }),
    {
        match &mut self.decoder {
            Some(decoder) => {
                let ghost before = *decoder;
                let r = decoder.set_data(encoding, data, num_levels, num_values);
                proof {
                    assert(D::sets_data(
                        before,
                        encoding,
                        data,
                        num_levels,
                        num_values,
                        *decoder,
                        r,
                    ));
                }
                r
            },
            None => vstd::pervasive::unreached(),
        }
    }

    /// The rows of `levels` can be read. Null rows among them take the place of values only where
    /// the values and the validity tell of the same rows.
    pub open spec fn can_read_rows(state: RecordState<V::V, D>, levels: Levels) -> bool {
        let valid_rows = set_count(levels.validity(state.column));
        &&& levels.fits(state.column)
        &&& state.num_values + levels.count <= usize::MAX
        &&& state.valid matches Some(valid) ==> valid.len() + levels.count <= usize::MAX
        &&& V::has_null_slots() && valid_rows < levels.count ==> Self::can_pad_rows(state)
        &&& state.decoder matches Some(decoder)
        &&& decoder.can_read(
            state.content,
            set_count(levels.validity(state.column)) as usize,
        )
    }

    /// Whether the validity that a batch gets has a bit for every row.
    pub fn check_validity(&self) -> (r: bool)
        requires
            self.wf(),
        ensures
            r == validity_covers(self@),
    {
        match &self.valid {
            Some(valid) => !self.column_desc.is_optional || self.num_values <= valid.room(),
            None => true,
        }
    }

    /// Whether a batch has null rows.
    pub fn has_nulls(&self) -> (r: bool)
        requires
            self.wf(),
        ensures
            r == (given_validity(self@) matches Some(valid) && set_count(valid)
                != self@.num_values),
    {
        match &self.valid {
            Some(valid) => self.column_desc.is_optional && !valid.starts_with(self.num_values),
            None => false,
        }
    }

    /// How many values are held.
    pub fn num_held(&self) -> (r: usize)
        ensures
            r == V::held(self@.content),
    {
        self.values.num_held()
    }

    /// Whether the rows of `levels` can be read.
    pub fn check_rows(&self, levels: &Levels) -> (r: bool)
        requires
            self.wf(),
        ensures
            r == Self::can_read_rows(self@, *levels),
    {
        if !levels.check(&self.column_desc) || levels.count > usize::MAX - self.num_values {
            return false;
        }
        let want: usize = levels.num_valid(&self.column_desc);
        let bits: usize = match &self.valid {
            Some(valid) => valid.len(),
            None => self.num_values,
        };
        if levels.count > usize::MAX - bits {
            return false;
        }
        if V::null_slots() && want < levels.count && (bits != self.num_values
            || self.values.num_held() != self.num_values) {
            return false;
        }
        match &self.decoder {
            Some(decoder) => decoder.check_read(&self.values, want),
            None => false,
        }
    }

    /// Appends the levels and the validity of rows whose values have been read.
    fn append_levels(&mut self, levels: &Levels)
        requires
            old(self).wf(),
            levels.fits(old(self)@.column),
            old(self)@.valid matches Some(valid) ==> valid.len() + levels.count <= usize::MAX,
        ensures
            final(self).wf(),
            final(self)@ == (RecordState {
                def_levels: extended(old(self)@.def_levels, levels.def_levels@),
                rep_levels: extended(old(self)@.rep_levels, levels.rep_levels@),
                valid: extended(old(self)@.valid, levels.validity(old(self)@.column)),
                ..old(self)@
            }),
    {
        if let Some(def_levels) = &mut self.def_levels {
            append_all(def_levels, &levels.def_levels);
        }
        if let Some(rep_levels) = &mut self.rep_levels {
            append_all(rep_levels, &levels.rep_levels);
        }
        let max_def_level: i16 = self.column_desc.max_def_level;
        if let Some(valid) = &mut self.valid {
            let ghost before = valid@;
            let ghost rows = levels.validity(*self.column_desc);
            let mut i: usize = 0;
            while i < levels.count
                invariant
                    i <= levels.count,
                    valid.wf(),
                    valid@ == before + rows.take(i as int),
                    before.len() + levels.count <= usize::MAX,
                    max_def_level > 0,
                    levels.def_levels@.len() == levels.count,
                    rows.len() == levels.count,
                    forall|k: int|
                        0 <= k < levels.count ==> rows[k] == (levels.def_levels@[k]
                            == max_def_level),
                decreases levels.count - i,
            {
                let ghost bits = valid@;
                valid.push(levels.def_levels[i] == max_def_level);
                proof {
                    assert(bits.push(rows[i as int]) =~= before + rows.take(i + 1));
                }
                i = i + 1;
            }
            proof {
                assert(rows.take(levels.count as int) =~= rows);
            }
        }
    }

    /// Reads the rows of `levels`. Gives how many records start among them.
    pub fn read_rows(&mut self, levels: &Levels) -> (r: Result<usize, ParquetError>)
        requires
            old(self).wf(),
            Self::can_read_rows(old(self)@, *levels),
        ensures
            final(self).wf(),
            Self::reads_rows(old(self)@, *levels, final(self)@, r),
            r is Ok && Self::in_step(old(self)@) ==> Self::in_step(final(self)@),
            r is Ok && Self::is_complete(old(self)@) ==> Self::is_complete(final(self)@),
    {
        let want: usize = levels.num_valid(&self.column_desc);
        let records: usize = levels.num_records(&self.column_desc);
        let ghost state = self@;
        let ghost validity = levels.validity(state.column);
        let got = match &mut self.decoder {
            Some(decoder) => {
                let ghost before = *decoder;
                let ghost content = self.values@;
                let got = decoder.read(&mut self.values, want);
                proof {
                    assert(D::reads(before, content, want, *decoder, self.values@, got));
                    if got is Ok {
                        D::lemma_reads(before, content, want, *decoder, self.values@, got);
                    }
                }
                got
            },
            None => vstd::pervasive::unreached(),
        };
        let ghost next = self.decoder->0;
        let ghost content = self.values@;
        match got {
            Ok(read) => {
                if read != want {
                    return Err(
                        ParquetError::General(Reason::InsufficientValues { expected: want, read }),
                    );
                }
                self.append_levels(levels);
                let ghost rows = state.valid->0 + validity;
                proof {
                    if state.valid is Some {
                        lemma_rank_extended(state.valid->0, validity, validity.len() as int);
                        lemma_rank_extended(state.valid->0, validity, 0);
                        assert(set_count(rows) == set_count(state.valid->0) + want);
                        if V::has_null_slots() {
                            if Self::can_pad_rows(state) {
                                V::lemma_padded(
                                    content,
                                    state.num_values as usize,
                                    want,
                                    levels.count,
                                    rows,
                                );
                            }
                        } else {
                            V::lemma_compact(
                                content,
                                state.num_values as usize,
                                want,
                                levels.count,
                                rows,
                            );
                        }
                    } else {
                        lemma_rank_full_run(validity, levels.count as int);
                    }
                }
                if want < levels.count {
                    if let Some(valid) = &self.valid {
                        let mask = valid.as_bytes();
                        proof {
                            let named = rows_named(mask@, state.num_values + levels.count);
                            if V::has_null_slots() {
                                assert(named =~= valid@);
                            } else {
                                V::lemma_compact(
                                    content,
                                    state.num_values as usize,
                                    want,
                                    levels.count,
                                    named,
                                );
                            }
                        }
                        self.values.pad_nulls(self.num_values, want, levels.count, mask);
                    }
                }
                self.num_values = self.num_values + levels.count;
                self.num_records = self.num_records + records;
                proof {
                    assert(self@ == Self::with_rows(state, *levels, next, content));
                }
                Ok(records)
            },
            Err(e) => Err(e),
        }
    }

    /// Passes over the rows of `levels`. Gives how many records start among them.
    pub fn skip_rows(&mut self, levels: &Levels) -> (r: Result<usize, ParquetError>)
        requires
            old(self).wf(),
            Self::can_skip_rows(old(self)@, *levels),
        ensures
            final(self).wf(),
            Self::skips_rows(old(self)@, *levels, final(self)@, r),
    {
        let want: usize = levels.num_valid(&self.column_desc);
        let records: usize = levels.num_records(&self.column_desc);
        match &mut self.decoder {
            Some(decoder) => {
                let ghost before = *decoder;
                let got = decoder.skip_values(want);
                proof {
                    assert(D::skips(before, want, *decoder, got));
                }
                match got {
                    Ok(skipped) => if skipped == want {
                        Ok(records)
                    } else {
                        Err(
                            ParquetError::General(
                                Reason::InsufficientSkip { expected: want, skipped },
                            ),
                        )
                    },
                    Err(e) => Err(e),
                }
            },
            None => vstd::pervasive::unreached(),
        }
    }

    /// How many rows are held.
    pub fn num_values(&self) -> (r: usize)
        ensures
            r == self@.num_values,
    {
        self.num_values
    }

    /// How many records are held.
    pub fn num_records(&self) -> (r: usize)
        ensures
            r == self@.num_records,
    {
        self.num_records
    }

    /// Takes the definition levels of the rows.
    pub fn consume_def_levels(&mut self) -> (r: Option<Vec<i16>>)
        requires
            old(self).wf(),
        ensures
            final(self).wf(),
            elements(r) == old(self)@.def_levels,
            final(self)@ == (RecordState {
                def_levels: emptied(old(self)@.def_levels),
                ..old(self)@
            }),
    {
        take_levels(&mut self.def_levels)
    }

    /// Takes the repetition levels of the rows.
    pub fn consume_rep_levels(&mut self) -> (r: Option<Vec<i16>>)
        requires
            old(self).wf(),
        ensures
            final(self).wf(),
            elements(r) == old(self)@.rep_levels,
            final(self)@ == (RecordState {
                rep_levels: emptied(old(self)@.rep_levels),
                ..old(self)@
            }),
    {
        take_levels(&mut self.rep_levels)
    }

    /// Takes the validity of the rows. It is given out only where the innermost field may be null.
    pub fn consume_bitmap_buffer(&mut self) -> (r: Option<Buffer>)
        requires
            old(self).wf(),
        ensures
            final(self).wf(),
            final(self)@ == (RecordState { valid: emptied(old(self)@.valid), ..old(self)@ }),
            r is Some <==> old(self)@.valid is Some && old(self)@.column.is_optional,
            r matches Some(b) ==> {
                &&& buffer_bytes(b).len() == (old(self)@.valid->0.len() + 7) / 8
                &&& forall|k: int|
                    0 <= k < 8 * buffer_bytes(b).len() ==> #[trigger] bit_at(buffer_bytes(b), k)
                        == filled_bit(old(self)@.valid->0, k)
            },
    {
        match self.valid.take() {
            Some(valid) => {
                self.valid = Some(Bitmap::new());
                if self.column_desc.is_optional {
                    Some(buffer_from_vec(valid.into_bytes()))
                } else {
                    None
                }
            },
            None => None,
        }
    }

    /// Takes the values of the rows.
    pub fn consume_record_data(&mut self) -> (r: V)
        requires
            old(self).wf(),
        ensures
            final(self).wf(),
            r@ == old(self)@.content,
            V::wf(r@),
            V::is_blank(final(self)@.content),
            V::held(final(self)@.content) == 0,
            final(self)@ == (RecordState { content: final(self)@.content, ..old(self)@ }),
    {
        let mut values = V::with_capacity(self.capacity);
        core::mem::swap(&mut values, &mut self.values);
        values
    }

    /// Forgets the rows.
    pub fn reset(&mut self)
        requires
            old(self).wf(),
        ensures
            final(self).wf(),
            Self::is_reset(old(self)@, final(self)@),
            Self::is_complete(final(self)@),
    {
        let _ = self.consume_def_levels();
        let _ = self.consume_rep_levels();
        let _ = self.consume_bitmap_buffer();
        let _ = self.consume_record_data();
        self.num_values = 0;
        self.num_records = 0;
    }
}

/// Appends the elements of `more`.
fn append_all(levels: &mut Vec<i16>, more: &Vec<i16>)
    ensures
        final(levels)@ == old(levels)@ + more@,
{
    levels.extend_from_slice(more.as_slice());
    proof {
        assert(levels@ =~= old(levels)@ + more@);
    }
}

/// Takes levels, and leaves none behind.
fn take_levels(levels: &mut Option<Vec<i16>>) -> (r: Option<Vec<i16>>)
    ensures
        r == *old(levels),
        elements(*final(levels)) == emptied(elements(*old(levels))),
{
    let taken = levels.take();
    if taken.is_some() {
        *levels = Some(Vec::new());
    }
    taken
}

} // verus!
