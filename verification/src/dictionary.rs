//! Decoding a column into dictionary keys.
//!
//! The keys of one dictionary are kept as they are. Once keys of another dictionary or plain
//! values follow, the values that the keys stand for are kept in their place.
use bytes::Bytes;
use std::sync::Arc;
use vstd::prelude::*;

use crate::arrow::{as_slice, bytes_content, slice_from};
use crate::column::{
    can_space_out, space_out, spaced_out, ColumnDescPtr, ColumnValueDecoder, DecodeBuffer,
    ValuesBuffer,
};
use crate::errors::{Encoding, ParquetError, Reason};
use crate::plain::{decode_dictionary, plain_values};
use crate::predicate::least;
use crate::rle::{bad_run, ends_badly, indices, keys_of, looked_up, RleDecoder};
use crate::shared::{Dictionary, SharedDictionary};
use crate::types::{ColumnDescriptor, DataType};

verus! {

/// The keys of one dictionary, or values.
pub enum PrimitiveDictionaryBuffer<T: DataType> {
    Dict { keys: Vec<i32>, values: SharedDictionary<T::T> },
    Values(Vec<T::T>),
}

/// What a `PrimitiveDictionaryBuffer` holds.
#[verifier::ext_equal]
pub enum DictionaryContent<A> {
    Dict { keys: Seq<i32>, dictionary: Dictionary<A> },
    Values(Seq<A>),
}

impl<A> DictionaryContent<A> {
    /// How many rows there are.
    pub open spec fn len(self) -> nat {
        match self {
            DictionaryContent::Dict { keys, .. } => keys.len(),
            DictionaryContent::Values(values) => values.len(),
        }
    }

    /// Every key points to a value.
    pub open spec fn keys_in_range(self) -> bool {
        match self {
            DictionaryContent::Dict { keys, dictionary } => forall|i: int|
                0 <= i < keys.len() ==> 0 <= #[trigger] keys[i] < dictionary.values.len(),
            DictionaryContent::Values(_) => true,
        }
    }

    /// The values of the rows.
    pub open spec fn rows(self) -> Seq<A> {
        match self {
            DictionaryContent::Dict { keys, dictionary } => keys.map_values(
                |k: i32| dictionary.values[k as int],
            ),
            DictionaryContent::Values(values) => values,
        }
    }

    /// The rows are keys of this very dictionary.
    pub open spec fn refers_to(self, dictionary: Dictionary<A>) -> bool {
        self matches DictionaryContent::Dict { dictionary: own, .. } && own == dictionary
    }

    /// The keys that keys of `dictionary` can be appended to. They can when there are no rows yet
    /// and when the rows are keys of this very dictionary.
    pub open spec fn keys_for(self, dictionary: Dictionary<A>) -> Option<Seq<i32>> {
        match self {
            DictionaryContent::Dict { keys, .. } => if self.refers_to(dictionary) || keys.len()
                == 0 {
                Some(keys)
            } else {
                None
            },
            DictionaryContent::Values(values) => if values.len() == 0 {
                Some(Seq::empty())
            } else {
                None
            },
        }
    }
}

impl<T: DataType> View for PrimitiveDictionaryBuffer<T> {
    type V = DictionaryContent<T::T>;

    open spec fn view(&self) -> DictionaryContent<T::T> {
        match self {
            PrimitiveDictionaryBuffer::Dict { keys, values } => DictionaryContent::Dict {
                keys: keys@,
                dictionary: values@,
            },
            PrimitiveDictionaryBuffer::Values(values) => DictionaryContent::Values(values@),
        }
    }
}

/// The values that the keys point to.
fn expand<A: Copy>(keys: &Vec<i32>, values: &Vec<A>) -> (r: Vec<A>)
    requires
        forall|i: int| 0 <= i < keys@.len() ==> 0 <= #[trigger] keys@[i] < values@.len(),
    ensures
        r@ == keys@.map_values(|k: i32| values@[k as int]),
{
    let mut expanded: Vec<A> = Vec::with_capacity(keys.len());
    let ghost goal = keys@.map_values(|k: i32| values@[k as int]);
    let mut i: usize = 0;
    while i < keys.len()
        invariant
            i <= keys@.len(),
            forall|i: int| 0 <= i < keys@.len() ==> 0 <= #[trigger] keys@[i] < values@.len(),
            goal == keys@.map_values(|k: i32| values@[k as int]),
            expanded@ == goal.take(i as int),
        decreases keys@.len() - i,
    {
        let key: i32 = keys[i];
        expanded.push(values[key as usize]);
        proof {
            assert(expanded@ =~= goal.take(i + 1));
        }
        i = i + 1;
    }
    proof {
        assert(expanded@ =~= goal);
    }
    expanded
}

impl<T: DataType> PrimitiveDictionaryBuffer<T> {
    /// Whether every key points to a value.
    pub fn check_keys(&self) -> (r: bool)
        ensures
            r == self@.keys_in_range(),
    {
        match self {
            PrimitiveDictionaryBuffer::Dict { keys, values } => {
                let ghost dictionary = values@;
                let values = values.values();
                let mut i: usize = 0;
                while i < keys.len()
                    invariant
                        i <= keys@.len(),
                        self@ == (DictionaryContent::Dict { keys: keys@, dictionary }),
                        values@ == dictionary.values,
                        forall|j: int| 0 <= j < i ==> 0 <= #[trigger] keys@[j] < values@.len(),
                    decreases keys@.len() - i,
                {
                    let key: i32 = keys[i];
                    if key < 0 || key as u64 >= values.len() as u64 {
                        proof {
                            let content: DictionaryContent<T::T> = self@;
                            assert(content->keys[i as int] == key);
                            assert(content->dictionary.values.len() == values.len());
                        }
                        return false;
                    }
                    i = i + 1;
                }
                true
            },
            PrimitiveDictionaryBuffer::Values(_) => true,
        }
    }

    /// Whether the rows are keys of this very dictionary, and not of another with the same values.
    fn shares(&self, dictionary: &SharedDictionary<T::T>) -> (r: bool)
        ensures
            r == self@.refers_to(dictionary@),
    {
        match self {
            PrimitiveDictionaryBuffer::Dict { values, .. } => values.is_same(dictionary),
            PrimitiveDictionaryBuffer::Values(_) => false,
        }
    }

    /// The keys to which keys of `dictionary` can be appended, if there are any.
    pub fn as_keys(&mut self, dictionary: &SharedDictionary<T::T>) -> (r: Option<&mut Vec<i32>>)
        ensures
            match old(self)@.keys_for(dictionary@) {
                Some(expected) => {
                    &&& r matches Some(keys)
                    &&& keys@ == expected
                    &&& final(self)@ == (DictionaryContent::Dict {
                        keys: final(keys)@,
                        dictionary: dictionary@,
                    })
                },
                None => {
                    &&& r is None
                    &&& final(self)@ == old(self)@
                },
            },
    {
        if matches!(&*self, PrimitiveDictionaryBuffer::Values(values) if values.is_empty()) {
            *self = PrimitiveDictionaryBuffer::Dict {
                keys: Vec::new(),
                values: dictionary.share(),
            };
        }
        match self {
            PrimitiveDictionaryBuffer::Dict { keys, values } => {
                if values.is_same(dictionary) {
                    Some(keys)
                } else if keys.is_empty() {
                    *values = dictionary.share();
                    Some(keys)
                } else {
                    None
                }
            },
            PrimitiveDictionaryBuffer::Values(_) => None,
        }
    }

    /// The values of the rows. The keys, if there are any, give way to them.
    pub fn spill_values(&mut self) -> (r: &mut Vec<T::T>)
        requires
            old(self)@.keys_in_range(),
        ensures
            r@ == old(self)@.rows(),
            final(self)@ == DictionaryContent::Values(final(r)@),
    {
        if let PrimitiveDictionaryBuffer::Dict { keys, values } = &*self {
            let values = values.values();
            proof {
                let content: DictionaryContent<T::T> = self@;
                assert(forall|i: int| #![trigger keys@[i]] content->keys[i] == keys@[i]);
                assert(content->dictionary.values.len() == values@.len());
            }
            let expanded = expand(keys, values);
            *self = PrimitiveDictionaryBuffer::Values(expanded);
        }
        match self {
            PrimitiveDictionaryBuffer::Values(values) => values,
            _ => vstd::pervasive::unreached(),
        }
    }
}

impl<T: DataType> PrimitiveDictionaryBuffer<T> {
    /// Reads `len` indices of `dictionary`. Where the rows are keys of another one, values take the
    /// place of keys, so that keys and indices have to point to values there.
    pub fn read_indices(
        &mut self,
        dictionary: &SharedDictionary<T::T>,
        decoder: &mut RleDecoder,
        len: usize,
    ) -> (r: Result<usize, ParquetError>)
        requires
            old(decoder).wf(),
            old(self)@.len() + len <= usize::MAX,
            old(self)@.keys_for(dictionary@) is None ==> old(self)@.keys_in_range()
                && keys_point_into_values(
                *old(decoder),
                len as nat,
                dictionary@.values.len(),
            ),
        ensures
            r == old(decoder).outcome(len as nat),
            old(decoder).moved(len as nat, *final(decoder)),
            final(self)@ == appended(
                old(self)@,
                dictionary@,
                old(decoder).pending().take(old(decoder).reach(len as nat) as int),
                (len - old(decoder).reach(len as nat)) as nat,
                r is Ok,
            ),
    {
        let ghost content: DictionaryContent<T::T> = self@;
        let ghost got = decoder.pending().take(decoder.reach(len as nat) as int);
        let ghost unread = (len - got.len()) as nat;
        let keys = match self.as_keys(dictionary) {
            Some(keys) => keys,
            None => {
                proof {
                    assert(decoder.points_into(len as nat, dictionary@.values.len()));
                    assert(decoder.points_into(len as nat, 0x8000_0000));
                    assert(forall|i: int|
                        0 <= i < got.len() ==> #[trigger] got[i] < dictionary@.values.len()
                            && got[i] < 0x8000_0000) by {
                        assert(forall|i: int|
                            0 <= i < got.len() ==> #[trigger] got[i] == decoder.pending()[i]);
                    }
                }
                let values = self.spill_values();
                let mut keys: Vec<i32> = vec![0i32; len];
                return match decoder.get_batch(&mut keys, 0) {
                    Ok(read) => {
                        proof {
                            assert(keys@.take(read as int) =~= keys_of(got));
                            assert forall|i: int| 0 <= i < read implies 0 <= #[trigger] keys@[i]
                                < dictionary@.values.len() by {
                                assert(keys@.take(read as int)[i] == keys_of(got)[i]);
                                assert(got[i] < 0x8000_0000);
                            }
                            assert(keys_of(got).map_values(|k: i32| dictionary@.values[k as int])
                                =~= looked_up(got, dictionary@.values)) by {
                                assert(forall|i: int|
                                    0 <= i < got.len() ==> #[trigger] got[i] < 0x8000_0000);
                            }
                        }
                        append_looked_up(values, &keys, read, dictionary.values());
                        Ok(read)
                    },
                    Err(e) => Err(e),
                };
            },
        };
        let start: usize = keys.len();
        let ghost kept = keys@;
        keys.resize(start + len, 0);
        proof {
            assert(keys@ =~= kept + Seq::new(len as nat, |i: int| 0i32));
            assert(keys@.take(start as int) =~= kept);
        }
        let r = decoder.get_batch(keys, start);
        proof {
            assert(keys@ =~= kept + keys_of(got) + Seq::new(unread, |i: int| 0i32));
        }
        if let Ok(read) = r {
            keys.truncate(start + read);
            proof {
                assert(keys@ =~= kept + keys_of(got));
            }
        }
        r
    }
}

impl<T: DataType> DecodeBuffer for PrimitiveDictionaryBuffer<T> {
    open spec fn wf(content: DictionaryContent<T::T>) -> bool {
        true
    }

    open spec fn held(content: DictionaryContent<T::T>) -> nat {
        content.len()
    }

    fn num_held(&self) -> (r: usize) {
        match self {
            PrimitiveDictionaryBuffer::Dict { keys, .. } => keys.len(),
            PrimitiveDictionaryBuffer::Values(values) => values.len(),
        }
    }
}

impl<T: DataType> ValuesBuffer for PrimitiveDictionaryBuffer<T> {
    open spec fn is_blank(content: DictionaryContent<T::T>) -> bool {
        content == DictionaryContent::Values(Seq::<T::T>::empty())
    }

    open spec fn has_null_slots() -> bool {
        true
    }

    open spec fn can_pad(
        content: DictionaryContent<T::T>,
        read_offset: usize,
        values_read: usize,
        levels_read: usize,
        rows: Seq<bool>,
    ) -> bool {
        match content {
            DictionaryContent::Dict { keys, .. } => can_space_out(
                keys,
                read_offset as int,
                values_read as int,
                levels_read as int,
                rows,
            ),
            DictionaryContent::Values(values) => can_space_out(
                values,
                read_offset as int,
                values_read as int,
                levels_read as int,
                rows,
            ),
        }
    }

    /// The keys or the values move to their rows.
    open spec fn padded(
        content: DictionaryContent<T::T>,
        read_offset: usize,
        values_read: usize,
        levels_read: usize,
        rows: Seq<bool>,
    ) -> DictionaryContent<T::T> {
        match content {
            DictionaryContent::Dict { keys, dictionary } => DictionaryContent::Dict {
                keys: spaced_out(keys, 0, read_offset as int, levels_read as int, rows),
                dictionary,
            },
            DictionaryContent::Values(values) => DictionaryContent::Values(
                spaced_out(
                    values,
                    T::unset(),
                    read_offset as int,
                    levels_read as int,
                    rows,
                ),
            ),
        }
    }

    proof fn lemma_padded(
        content: DictionaryContent<T::T>,
        read_offset: usize,
        values_read: usize,
        levels_read: usize,
        rows: Seq<bool>,
    ) {
    }

    proof fn lemma_compact(
        content: DictionaryContent<T::T>,
        read_offset: usize,
        values_read: usize,
        levels_read: usize,
        rows: Seq<bool>,
    ) {
    }

    fn null_slots() -> (r: bool) {
        true
    }

    fn with_capacity(capacity: usize) -> (r: Self) {
        let r = PrimitiveDictionaryBuffer::Values(Vec::with_capacity(capacity));
        proof {
            assert(r@->Values_0 =~= Seq::<T::T>::empty());
        }
        r
    }

    fn pad_nulls(
        &mut self,
        read_offset: usize,
        values_read: usize,
        levels_read: usize,
        valid_mask: &[u8],
    ) {
        match self {
            PrimitiveDictionaryBuffer::Dict { keys, .. } => {
                space_out(keys, 0, read_offset, values_read, levels_read, valid_mask)
            },
            PrimitiveDictionaryBuffer::Values(values) => {
                space_out(
                    values,
                    T::unset_value(),
                    read_offset,
                    values_read,
                    levels_read,
                    valid_mask,
                )
            },
        }
    }
}

/// Where the keys or the values of a data page come from.
pub enum MaybeDictionaryDecoder<F> {
    /// Indices into the dictionary, of which at most `max_remaining_values` belong to the page.
    Dict { decoder: RleDecoder, max_remaining_values: usize },
    /// The values themselves.
    Fallback(F),
}

/// Decodes a column into dictionary keys.
pub struct PrimitiveDictionaryDecoder<T: DataType, F> {
    column_desc: ColumnDescPtr,
    dictionary: Option<SharedDictionary<T::T>>,
    decoder: Option<MaybeDictionaryDecoder<F>>,
}

impl<T: DataType, F> PrimitiveDictionaryDecoder<T, F> {
    /// The column that is decoded.
    pub closed spec fn column(self) -> ColumnDescriptor {
        *self.column_desc
    }

    /// The dictionary.
    pub closed spec fn values(self) -> Option<Dictionary<T::T>> {
        match self.dictionary {
            Some(values) => Some(values@),
            None => None,
        }
    }

    /// The data page that is being read.
    pub closed spec fn page(self) -> Option<MaybeDictionaryDecoder<F>> {
        self.decoder
    }
}

/// The indices that a read of `len` gives fit in a key and point into a dictionary of `count`
/// values.
pub open spec fn keys_point_into_values(decoder: RleDecoder, len: nat, count: nat) -> bool {
    &&& decoder.points_into(len, count)
    &&& decoder.points_into(len, 0x8000_0000)
}

impl<T, F> ColumnValueDecoder for PrimitiveDictionaryDecoder<T, F> where
    T: DataType,
    F: ColumnValueDecoder<Buffer = Vec<T::T>>,
 {
    type Buffer = PrimitiveDictionaryBuffer<T>;

    open spec fn wf(&self) -> bool {
        match self.page() {
            Some(MaybeDictionaryDecoder::Dict { decoder, .. }) => decoder.wf(),
            Some(MaybeDictionaryDecoder::Fallback(fallback)) => fallback.wf(),
            None => true,
        }
    }

    open spec fn starts(column_desc: ColumnDescriptor, r: Self) -> bool {
        &&& r.column() == column_desc
        &&& r.values() is None
        &&& r.page() is None
    }

    open spec fn sets_dict(
        before: Self,
        buf: Bytes,
        num_values: u32,
        encoding: Encoding,
        after: Self,
        r: Result<(), ParquetError>,
    ) -> bool {
        &&& after.column() == before.column()
        &&& after.page() == before.page()
        &&& if !encoding.encodes_dictionary() {
            &&& after.values() == before.values()
            &&& r == Err::<(), ParquetError>(
                ParquetError::NYI(Reason::DictionaryEncoding(encoding)),
            )
        } else if bytes_content(buf).len() < num_values * T::width() {
            &&& after.values() == before.values()
            &&& r == Err::<(), ParquetError>(ParquetError::EOF(Reason::PlainData))
        } else {
            &&& after.values() matches Some(dictionary)
            &&& dictionary.values == plain_values::<T>(bytes_content(buf), num_values as nat)
            &&& r == Ok::<(), ParquetError>(())
        }
    }

    /// A page of indices starts with the number of bits that an index takes.
    open spec fn takes_data(encoding: Encoding, data: Bytes) -> bool {
        if encoding.holds_indices() {
            &&& bytes_content(data).len() > 0
            &&& bytes_content(data)[0] <= 32
        } else {
            F::takes_data(encoding, data)
        }
    }

    open spec fn sets_data(
        before: Self,
        encoding: Encoding,
        data: Bytes,
        num_levels: usize,
        num_values: Option<usize>,
        after: Self,
        r: Result<(), ParquetError>,
    ) -> bool {
        &&& after.column() == before.column()
        &&& after.values() == before.values()
        &&& if encoding.holds_indices() {
            let width = bytes_content(data)[0] as nat;
            let rest = bytes_content(data).skip(1);
            if bad_run(rest, width) {
                &&& after.page() == before.page()
                &&& r == Err::<(), ParquetError>(ParquetError::General(Reason::IndexData))
            } else {
                &&& r == Ok::<(), ParquetError>(())
                &&& after.page() matches Some(
                    MaybeDictionaryDecoder::Dict { decoder, max_remaining_values },
                )
                &&& decoder.width() == width
                &&& decoder.pending() == indices(rest, width)
                &&& decoder.is_cut() == ends_badly(rest, width)
                &&& max_remaining_values == match num_values {
                    Some(n) => n,
                    None => num_levels,
                }
            }
        } else {
            exists|blank: F, fallback: F|
                {
                    &&& #[trigger] F::starts(before.column(), blank)
                    &&& #[trigger] F::sets_data(
                        blank,
                        encoding,
                        data,
                        num_levels,
                        num_values,
                        fallback,
                        r,
                    )
                    &&& after.page() == if r is Ok {
                        Some(MaybeDictionaryDecoder::Fallback(fallback))
                    } else {
                        before.page()
                    }
                }
        }
    }

    open spec fn has_data(&self) -> bool {
        match self.page() {
            Some(MaybeDictionaryDecoder::Dict { .. }) => true,
            Some(MaybeDictionaryDecoder::Fallback(fallback)) => fallback.has_data(),
            None => false,
        }
    }

    /// Keys and indices have to point to values where values take the place of keys.
    open spec fn can_read(&self, out: DictionaryContent<T::T>, num_values: usize) -> bool {
        match self.page() {
            Some(MaybeDictionaryDecoder::Dict { decoder, max_remaining_values }) => {
                let len = least(num_values, max_remaining_values);
                self.values() matches Some(dictionary) ==> {
                    &&& out.len() + len <= usize::MAX
                    &&& out.keys_for(dictionary) is None ==> out.keys_in_range()
                        && keys_point_into_values(decoder, len as nat, dictionary.values.len())
                }
            },
            Some(MaybeDictionaryDecoder::Fallback(fallback)) => out.keys_in_range()
                && fallback.can_read(out.rows(), num_values),
            None => false,
        }
    }

    open spec fn reads(
        before: Self,
        out_before: DictionaryContent<T::T>,
        num_values: usize,
        after: Self,
        out_after: DictionaryContent<T::T>,
        r: Result<usize, ParquetError>,
    ) -> bool {
        &&& after.column() == before.column()
        &&& after.values() == before.values()
        &&& match before.page() {
            Some(MaybeDictionaryDecoder::Dict { decoder, max_remaining_values }) => {
                let len = least(num_values, max_remaining_values);
                match before.values() {
                    None => {
                        &&& after.page() == before.page()
                        &&& out_after == out_before
                        &&& r == Err::<usize, ParquetError>(
                            ParquetError::General(Reason::MissingDictionaryPage),
                        )
                    },
                    Some(dictionary) => {
                        let k = decoder.reach(len as nat);
                        let read = decoder.pending().take(k as int);
                        &&& r == decoder.outcome(len as nat)
                        &&& after.page() matches Some(
                            MaybeDictionaryDecoder::Dict {
                                decoder: next,
                                max_remaining_values: remaining,
                            },
                        )
                        &&& decoder.moved(len as nat, next)
                        &&& remaining == if r is Ok {
                            max_remaining_values - k
                        } else {
                            max_remaining_values as int
                        }
                        &&& out_after == appended(
                            out_before,
                            dictionary,
                            read,
                            (len - k) as nat,
                            r is Ok,
                        )
                    },
                }
            },
            Some(MaybeDictionaryDecoder::Fallback(fallback)) => exists|
                next: F,
                rows: Seq<T::T>,
            |
                {
                    &&& #[trigger] F::reads(fallback, out_before.rows(), num_values, next, rows, r)
                    &&& after.page() == Some(MaybeDictionaryDecoder::Fallback(next))
                    &&& out_after == DictionaryContent::Values(rows)
                },
            None => false,
        }
    }

    open spec fn skips(
        before: Self,
        num_values: usize,
        after: Self,
        r: Result<usize, ParquetError>,
    ) -> bool {
        &&& after.column() == before.column()
        &&& after.values() == before.values()
        &&& match before.page() {
            Some(MaybeDictionaryDecoder::Dict { decoder, max_remaining_values }) => {
                let len = least(num_values, max_remaining_values);
                &&& r == decoder.outcome(len as nat)
                &&& after.page() matches Some(
                    MaybeDictionaryDecoder::Dict {
                        decoder: next,
                        max_remaining_values: remaining,
                    },
                )
                &&& decoder.moved(len as nat, next)
                &&& remaining == if r is Ok {
                    max_remaining_values - decoder.reach(len as nat)
                } else {
                    max_remaining_values as int
                }
            },
            Some(MaybeDictionaryDecoder::Fallback(fallback)) => exists|next: F|
                {
                    &&& #[trigger] F::skips(fallback, num_values, next, r)
                    &&& after.page() == Some(MaybeDictionaryDecoder::Fallback(next))
                },
            None => false,
        }
    }

    proof fn lemma_reads(
        before: Self,
        out_before: DictionaryContent<T::T>,
        num_values: usize,
        after: Self,
        out_after: DictionaryContent<T::T>,
        r: Result<usize, ParquetError>,
    ) {
        if let Some(MaybeDictionaryDecoder::Fallback(fallback)) = before.page() {
            let (next, rows) = choose|next: F, rows: Seq<T::T>|
                {
                    &&& #[trigger] F::reads(fallback, out_before.rows(), num_values, next, rows, r)
                    &&& out_after == DictionaryContent::Values(rows)
                };
            F::lemma_reads(fallback, out_before.rows(), num_values, next, rows, r);
        }
    }

    fn new(column_desc: &ColumnDescPtr) -> (r: Self) {
        PrimitiveDictionaryDecoder {
            column_desc: Arc::clone(column_desc),
            dictionary: None,
            decoder: None,
        }
    }

    fn set_dict(&mut self, buf: Bytes, num_values: u32, encoding: Encoding, is_sorted: bool) -> (r:
        Result<(), ParquetError>) {
        if !(matches!(
            encoding,
            Encoding::PLAIN | Encoding::RLE_DICTIONARY | Encoding::PLAIN_DICTIONARY
        )) {
            return Err(ParquetError::NYI(Reason::DictionaryEncoding(encoding)));
        }
        match decode_dictionary::<T>(buf, num_values, self.column_desc.type_length) {
            Ok(values) => {
                self.dictionary = Some(SharedDictionary::new(values));
                Ok(())
            },
            Err(e) => Err(e),
        }
    }

    fn check_data(encoding: Encoding, data: &Bytes) -> (r: bool) {
        match encoding {
            Encoding::RLE_DICTIONARY | Encoding::PLAIN_DICTIONARY => {
                let bytes = as_slice(data);
                bytes.len() > 0 && bytes[0] <= 32
            },
            _ => F::check_data(encoding, data),
        }
    }

    fn set_data(
        &mut self,
        encoding: Encoding,
        data: Bytes,
        num_levels: usize,
        num_values: Option<usize>,
    ) -> (r: Result<(), ParquetError>) {
        match encoding {
            Encoding::RLE_DICTIONARY | Encoding::PLAIN_DICTIONARY => {
                let bit_width: u8 = as_slice(&data)[0];
                let mut decoder = RleDecoder::new(bit_width);
                match decoder.set_data(slice_from(&data, 1)) {
                    Ok(_) => {
                        self.decoder = Some(
                            MaybeDictionaryDecoder::Dict {
                                decoder,
                                max_remaining_values: match num_values {
                                    Some(n) => n,
                                    None => num_levels,
                                },
                            },
                        );
                        Ok(())
                    },
                    Err(e) => Err(e),
                }
            },
            _ => {
                let mut decoder = F::new(&self.column_desc);
                let ghost blank = decoder;
                let r = decoder.set_data(encoding, data, num_levels, num_values);
                proof {
                    assert(F::starts(self.column(), blank));
                    assert(F::sets_data(
                        blank,
                        encoding,
                        data,
                        num_levels,
                        num_values,
                        decoder,
                        r,
                    ));
                }
                if r.is_ok() {
                    self.decoder = Some(MaybeDictionaryDecoder::Fallback(decoder));
                }
                r
            },
        }
    }

    fn is_ready(&self) -> (r: bool) {
        match &self.decoder {
            Some(MaybeDictionaryDecoder::Dict { .. }) => true,
            Some(MaybeDictionaryDecoder::Fallback(fallback)) => fallback.is_ready(),
            None => false,
        }
    }

    fn check_read(&self, out: &PrimitiveDictionaryBuffer<T>, num_values: usize) -> (r: bool) {
        match &self.decoder {
            Some(MaybeDictionaryDecoder::Dict { decoder, max_remaining_values }) => {
                let len: usize = if num_values <= *max_remaining_values {
                    num_values
                } else {
                    *max_remaining_values
                };
                match &self.dictionary {
                    Some(dictionary) => {
                        let rows: usize = out.num_held();
                        len <= usize::MAX - rows && (rows == 0 || out.shares(dictionary)
                            || out.check_keys() && decoder.check_indices(
                            len,
                            dictionary.values().len(),
                        ) && decoder.check_indices(len, 0x8000_0000))
                    },
                    None => true,
                }
            },
            Some(MaybeDictionaryDecoder::Fallback(fallback)) => {
                if !out.check_keys() {
                    return false;
                }
                match out {
                    PrimitiveDictionaryBuffer::Dict { keys, values } => {
                        let values = values.values();
                        proof {
                            let content: DictionaryContent<T::T> = out@;
                            assert(forall|i: int|
                                #![trigger keys@[i]]
                                content->keys[i] == keys@[i]);
                            assert(content->dictionary.values.len() == values@.len());
                        }
                        let expanded = expand(keys, values);
                        fallback.check_read(&expanded, num_values)
                    },
                    PrimitiveDictionaryBuffer::Values(values) => fallback.check_read(
                        values,
                        num_values,
                    ),
                }
            },
            None => false,
        }
    }

    fn read(&mut self, out: &mut PrimitiveDictionaryBuffer<T>, num_values: usize) -> (r: Result<
        usize,
        ParquetError,
    >) {
        let ghost content: DictionaryContent<T::T> = out@;
        let r = match &mut self.decoder {
            Some(MaybeDictionaryDecoder::Dict { decoder, max_remaining_values }) => {
                let len: usize = if num_values <= *max_remaining_values {
                    num_values
                } else {
                    *max_remaining_values
                };
                match &self.dictionary {
                    None => Err(ParquetError::General(Reason::MissingDictionaryPage)),
                    Some(dictionary) => {
                        let r = out.read_indices(dictionary, decoder, len);
                        if let Ok(read) = r {
                            *max_remaining_values = *max_remaining_values - read;
                        }
                        r
                    },
                }
            },
            Some(MaybeDictionaryDecoder::Fallback(decoder)) => {
                let ghost fallback = *decoder;
                let values = out.spill_values();
                let r = decoder.read(values, num_values);
                proof {
                    assert(F::reads(fallback, content.rows(), num_values, *decoder, values@, r));
                }
                r
            },
            None => Ok(0),
        };
        proof {
            let after: DictionaryContent<T::T> = out@;
            let page = old(self).page()->0;
            if page is Dict && old(self).values() is Some {
                let len = least(num_values, page->max_remaining_values);
                let k = page->decoder.reach(len as nat);
                assert(after == appended(
                    content,
                    old(self).values()->0,
                    page->decoder.pending().take(k as int),
                    (len - k) as nat,
                    r is Ok,
                ));
            }
        }
        r
    }

    fn skip_values(&mut self, num_values: usize) -> (r: Result<usize, ParquetError>) {
        match &mut self.decoder {
            Some(MaybeDictionaryDecoder::Dict { decoder, max_remaining_values }) => {
                let len: usize = if num_values <= *max_remaining_values {
                    num_values
                } else {
                    *max_remaining_values
                };
                match decoder.skip(len) {
                    Ok(skipped) => {
                        *max_remaining_values = *max_remaining_values - skipped;
                        Ok(skipped)
                    },
                    Err(e) => Err(e),
                }
            },
            Some(MaybeDictionaryDecoder::Fallback(decoder)) => decoder.skip_values(num_values),
            None => Ok(0),
        }
    }
}

/// Appends the dictionary values of the first `read` keys to `values`.
fn append_looked_up<A: Copy>(values: &mut Vec<A>, keys: &Vec<i32>, read: usize, dict: &Vec<A>)
    requires
        read <= keys@.len(),
        forall|i: int| 0 <= i < read ==> 0 <= #[trigger] keys@[i] < dict@.len(),
    ensures
        final(values)@ == old(values)@ + keys@.take(read as int).map_values(
            |k: i32| dict@[k as int],
        ),
{
    let ghost before = values@;
    let ghost goal = keys@.take(read as int).map_values(|k: i32| dict@[k as int]);
    let mut i: usize = 0;
    while i < read
        invariant
            i <= read <= keys@.len(),
            forall|i: int| 0 <= i < read ==> 0 <= #[trigger] keys@[i] < dict@.len(),
            goal == keys@.take(read as int).map_values(|k: i32| dict@[k as int]),
            values@ == before + goal.take(i as int),
        decreases read - i,
    {
        let key: i32 = keys[i];
        values.push(dict[key as usize]);
        proof {
            assert(values@ =~= before + goal.take(i + 1));
        }
        i = i + 1;
    }
    proof {
        assert(values@ =~= before + goal);
    }
}

/// What reading the indices `read` of a dictionary makes of a buffer. Keys are appended where that
/// can be done; otherwise the values of the rows are kept, and those that were read are appended to
/// them. A read that fails leaves zero keys for the indices that are `unread`, or no values.
pub open spec fn appended<A>(
    content: DictionaryContent<A>,
    dictionary: Dictionary<A>,
    read: Seq<u32>,
    unread: nat,
    ok: bool,
) -> DictionaryContent<A> {
    match content.keys_for(dictionary) {
        Some(keys) => DictionaryContent::Dict {
            keys: if ok {
                keys + keys_of(read)
            } else {
                keys + keys_of(read) + Seq::new(unread, |i: int| 0i32)
            },
            dictionary,
        },
        None => DictionaryContent::Values(
            if ok {
                content.rows() + looked_up(read, dictionary.values)
            } else {
                content.rows()
            },
        ),
    }
}

} // verus!
