//! Decoding a column into the answers of a predicate.
//!
//! The predicate is asked once for each dictionary. The pages that refer to the dictionary are
//! decoded by looking the answers up; the values of the other pages are handed to the predicate,
//! once for each read.
use arrow_array::BooleanArray;
use arrow_schema::{ArrowError, DataType as ArrowType};
use bytes::Bytes;
use std::marker::PhantomData;
use std::sync::Arc;
use vstd::prelude::*;

use crate::arrow::{
    as_slice, boolean_array_values, boolean_slots, bytes_content, compute_error,
    compute_error_message, slice_from, ArrowArray,
};
use crate::asked::Asked;
use crate::column::{ColumnDescPtr, ColumnValueDecoder, DecodeBuffer, ValuesBuffer};
use crate::errors::{Encoding, ParquetError, Reason};
use crate::plain::{decode_dictionary, plain_values};
use crate::rle::{bad_run, ends_badly, indices, looked_up, RleDecoder};
use crate::types::{ColumnDescriptor, DataType};

verus! {

/// A predicate over primitive values.
pub trait PrimitiveDictionaryPredicate: Sized {
    /// `r` may be the answer of the predicate to the question which of `values` it holds for. Any
    /// answer may be, unless an implementation says more.
    open spec fn answers(&self, values: ArrowArray, r: Result<BooleanArray, ArrowError>) -> bool {
        true
    }

    fn evaluate(&self, values: ArrowArray) -> (r: Result<BooleanArray, ArrowError>)
        ensures
            self.answers(values, r),
    ;
}

/// Stands in where no predicate has been given.
#[derive(Debug)]
pub struct UnconfiguredPrimitivePredicate;

impl PrimitiveDictionaryPredicate for UnconfiguredPrimitivePredicate {
    open spec fn answers(&self, values: ArrowArray, r: Result<BooleanArray, ArrowError>) -> bool {
        &&& r matches Err(e)
        &&& compute_error_message(e) == Some("primitive predicate decoder was not configured"@)
    }

    fn evaluate(&self, values: ArrowArray) -> (r: Result<BooleanArray, ArrowError>) {
        Err(compute_error("primitive predicate decoder was not configured"))
    }
}

/// A predicate that may not have been given yet.
pub enum PredicateSlot<P> {
    Unconfigured(UnconfiguredPrimitivePredicate),
    Configured(Arc<P>),
}

impl<P: PrimitiveDictionaryPredicate> PrimitiveDictionaryPredicate for PredicateSlot<P> {
    open spec fn answers(&self, values: ArrowArray, r: Result<BooleanArray, ArrowError>) -> bool {
        match self {
            PredicateSlot::Unconfigured(p) => p.answers(values, r),
            PredicateSlot::Configured(p) => p.answers(values, r),
        }
    }

    fn evaluate(&self, values: ArrowArray) -> (r: Result<BooleanArray, ArrowError>) {
        match self {
            PredicateSlot::Unconfigured(p) => p.evaluate(values),
            PredicateSlot::Configured(p) => p.evaluate(values),
        }
    }
}

/// One byte per answer: one where the predicate holds, zero where it does not or where the answer
/// is null.
pub open spec fn mask_of(slots: Seq<Option<bool>>) -> Seq<u8> {
    slots.map_values(
        |slot: Option<bool>|
            if slot == Some(true) {
                1u8
            } else {
                0u8
            },
    )
}

/// Every byte is zero or one.
pub open spec fn is_mask(bytes: Seq<u8>) -> bool {
    forall|i: int| 0 <= i < bytes.len() ==> #[trigger] bytes[i] <= 1
}

/// The answers for the rows that hold a value, one byte each.
pub struct PrimitivePredicateBuffer {
    values: Vec<u8>,
}

impl View for PrimitivePredicateBuffer {
    type V = Seq<u8>;

    closed spec fn view(&self) -> Seq<u8> {
        self.values@
    }
}

impl PrimitivePredicateBuffer {
    /// The answers.
    pub fn into_values(self) -> (r: Vec<u8>)
        ensures
            r@ == self@,
    {
        self.values
    }
}

impl DecodeBuffer for PrimitivePredicateBuffer {
    open spec fn wf(content: Seq<u8>) -> bool {
        is_mask(content)
    }

    open spec fn held(content: Seq<u8>) -> nat {
        content.len()
    }

    fn num_held(&self) -> (r: usize) {
        self.values.len()
    }
}

impl ValuesBuffer for PrimitivePredicateBuffer {
    open spec fn is_blank(content: Seq<u8>) -> bool {
        content.len() == 0
    }

    open spec fn has_null_slots() -> bool {
        false
    }

    open spec fn can_pad(
        content: Seq<u8>,
        read_offset: usize,
        values_read: usize,
        levels_read: usize,
        rows: Seq<bool>,
    ) -> bool {
        true
    }

    /// The answers stay compact: they are spread over the rows when a batch is consumed.
    open spec fn padded(
        content: Seq<u8>,
        read_offset: usize,
        values_read: usize,
        levels_read: usize,
        rows: Seq<bool>,
    ) -> Seq<u8> {
        content
    }

    proof fn lemma_padded(
        content: Seq<u8>,
        read_offset: usize,
        values_read: usize,
        levels_read: usize,
        rows: Seq<bool>,
    ) {
    }

    proof fn lemma_compact(
        content: Seq<u8>,
        read_offset: usize,
        values_read: usize,
        levels_read: usize,
        rows: Seq<bool>,
    ) {
    }

    fn null_slots() -> (r: bool) {
        false
    }

    fn with_capacity(capacity: usize) -> (r: Self) {
        PrimitivePredicateBuffer { values: Vec::with_capacity(capacity) }
    }

    fn pad_nulls(
        &mut self,
        read_offset: usize,
        values_read: usize,
        levels_read: usize,
        valid_mask: &[u8],
    ) {
    }
}

/// Appends the mask of `answer` to `out`.
fn append_mask(out: &mut Vec<u8>, answer: &BooleanArray)
    ensures
        final(out)@ == old(out)@ + mask_of(boolean_array_values(*answer)),
{
    let slots = boolean_slots(answer);
    let ghost before = out@;
    let ghost mask = mask_of(slots@);
    let mut i: usize = 0;
    while i < slots.len()
        invariant
            i <= slots@.len(),
            mask == mask_of(slots@),
            out@ == before + mask.take(i as int),
        decreases slots@.len() - i,
    {
        let byte: u8 = match slots[i] {
            Some(true) => 1,
            _ => 0,
        };
        out.push(byte);
        proof {
            assert(out@ =~= before + mask.take(i + 1));
        }
        i = i + 1;
    }
    proof {
        assert(out@ =~= before + mask);
    }
}

/// Where the answers of a data page come from.
pub enum PrimitivePredicateValueDecoder<F> {
    /// Indices into the dictionary, of which at most `max_remaining_values` belong to the page.
    Dict { decoder: RleDecoder, max_remaining_values: usize },
    /// The values themselves.
    Fallback(F),
}

/// Decodes a column into the answers of a predicate.
pub struct PrimitivePredicateDecoder<T, P, F> {
    column_desc: ColumnDescPtr,
    value_type: ArrowType,
    predicate: Asked<P>,
    dictionary_filter: Option<Vec<u8>>,
    decoder: Option<PrimitivePredicateValueDecoder<F>>,
    marker: PhantomData<T>,
}

/// An error of the predicate, as an error of the decoder.
pub open spec fn external<A>(r: Result<A, ArrowError>) -> Result<A, ParquetError> {
    match r {
        Ok(a) => Ok(a),
        Err(e) => Err(ParquetError::External(e)),
    }
}

/// The smaller of two numbers.
pub open spec fn least(a: usize, b: usize) -> usize {
    if a <= b {
        a
    } else {
        b
    }
}

impl<T: DataType, P: PrimitiveDictionaryPredicate, F> PrimitivePredicateDecoder<T, P, F> {
    /// The column that is decoded.
    pub closed spec fn column(self) -> ColumnDescriptor {
        *self.column_desc
    }

    /// The type that the predicate gets the values in.
    pub closed spec fn values_type(self) -> ArrowType {
        self.value_type
    }

    /// The predicate.
    pub closed spec fn slot(self) -> PredicateSlot<P> {
        self.predicate.slot()
    }

    /// The arrays that the predicate has been asked about, in order.
    pub closed spec fn asked(self) -> Seq<ArrowArray> {
        self.predicate.log()
    }

    /// The answers for the values of the dictionary.
    pub closed spec fn mask(self) -> Option<Seq<u8>> {
        match self.dictionary_filter {
            Some(filter) => Some(filter@),
            None => None,
        }
    }

    /// The data page that is being read.
    pub closed spec fn page(self) -> Option<PrimitivePredicateValueDecoder<F>> {
        self.decoder
    }

    /// Everything but the dictionary and the data page is as in `other`.
    pub open spec fn same_setup(self, other: Self) -> bool {
        &&& self.column() == other.column()
        &&& self.values_type() == other.values_type()
        &&& self.slot() == other.slot()
    }

    /// `r` is what the predicate says of `values`. It is asked once, about the array that it gets
    /// them in; where that array cannot be made it is not asked, and `r` is the reason. `log` is
    /// what it has been asked afterwards.
    pub open spec fn asks(
        self,
        values: Seq<T::T>,
        r: Result<BooleanArray, ParquetError>,
        log: Seq<ArrowArray>,
    ) -> bool {
        exists|made: Result<ArrowArray, ParquetError>| #[trigger]
            T::makes(values, self.values_type(), None, made) && match made {
                Ok(array) => {
                    &&& log == self.asked().push(array)
                    &&& exists|answer: Result<BooleanArray, ArrowError>| #[trigger]
                        self.slot().answers(array, answer) && r == external(answer)
                },
                Err(e) => {
                    &&& log == self.asked()
                    &&& r == Err::<BooleanArray, ParquetError>(e)
                },
            }
    }

    proof fn lemma_same_question(
        self,
        other: Self,
        values: Seq<T::T>,
        r: Result<BooleanArray, ParquetError>,
        log: Seq<ArrowArray>,
    )
        requires
            self.same_setup(other),
            self.asked() == other.asked(),
            self.asks(values, r, log),
        ensures
            other.asks(values, r, log),
    {
        let made = choose|made: Result<ArrowArray, ParquetError>| #[trigger]
            T::makes(values, self.values_type(), None, made) && match made {
                Ok(array) => {
                    &&& log == self.asked().push(array)
                    &&& exists|answer: Result<BooleanArray, ArrowError>| #[trigger]
                        self.slot().answers(array, answer) && r == external(answer)
                },
                Err(e) => {
                    &&& log == self.asked()
                    &&& r == Err::<BooleanArray, ParquetError>(e)
                },
            };
        assert(T::makes(values, other.values_type(), None, made));
    }

    /// A decoder for a column, with the type and the predicate that its values are handed to.
    pub fn with_predicate(
        column_desc: ColumnDescPtr,
        value_type: ArrowType,
        predicate: Arc<P>,
    ) -> (r: Self)
        ensures
            r.column() == *column_desc,
            r.values_type() == value_type,
            r.slot() == PredicateSlot::Configured(predicate),
            r.asked() == Seq::<ArrowArray>::empty(),
            r.mask() is None,
            r.page() is None,
    {
        Self::with_asked(column_desc, value_type, Asked::new(predicate))
    }

    /// A decoder for a column, with the type and the predicate that its values are handed to.
    pub fn with_asked(
        column_desc: ColumnDescPtr,
        value_type: ArrowType,
        predicate: Asked<P>,
    ) -> (r: Self)
        ensures
            r.column() == *column_desc,
            r.values_type() == value_type,
            r.slot() == predicate.slot(),
            r.asked() == predicate.log(),
            r.mask() is None,
            r.page() is None,
    {
        PrimitivePredicateDecoder {
            column_desc,
            value_type,
            predicate,
            dictionary_filter: None,
            decoder: None,
            marker: PhantomData,
        }
    }

    /// Asks the predicate about `values`.
    pub fn evaluate_values(&mut self, values: Vec<T::T>) -> (r: Result<BooleanArray, ParquetError>)
        ensures
            old(self).asks(values@, r, final(self).asked()),
            final(self).same_setup(*old(self)),
            final(self).mask() == old(self).mask(),
            final(self).page() == old(self).page(),
    {
        let made = T::array_from_values(values, &self.value_type, None);
        let ghost m = made;
        proof {
            assert(T::makes(values@, self.values_type(), None, m));
        }
        match made {
            Ok(array) => {
                let answer = self.predicate.ask(array);
                proof {
                    assert(old(self).slot().answers(array, answer));
                }
                match answer {
                    Ok(answer) => Ok(answer),
                    Err(e) => Err(ParquetError::External(e)),
                }
            },
            Err(e) => Err(e),
        }
    }

    /// What the answer to the `decoded` values of a dictionary comes to.
    pub open spec fn dictionary_outcome(
        answer: Result<BooleanArray, ParquetError>,
        decoded: nat,
    ) -> Result<Seq<u8>, ParquetError> {
        match answer {
            Ok(a) => if boolean_array_values(a).len() == decoded {
                Ok(mask_of(boolean_array_values(a)))
            } else {
                Err(
                    ParquetError::General(
                        Reason::DictionaryPredicateLength {
                            returned: boolean_array_values(a).len() as usize,
                            expected: decoded as usize,
                        },
                    ),
                )
            },
            Err(e) => Err(e),
        }
    }

    /// `after` holds the mask of a dictionary that was accepted; one that was not leaves the mask
    /// as it was.
    pub open spec fn keeps_mask(
        self,
        outcome: Result<Seq<u8>, ParquetError>,
        after: Self,
        r: Result<(), ParquetError>,
    ) -> bool {
        &&& after.same_setup(self)
        &&& after.page() == self.page()
        &&& match outcome {
            Ok(mask) => after.mask() == Some(mask) && r == Ok::<(), ParquetError>(()),
            Err(e) => after.mask() == self.mask() && r == Err::<(), ParquetError>(e),
        }
    }

    /// Takes the answer to the `decoded` values of a dictionary.
    pub fn take_dictionary_answer(
        &mut self,
        answer: Result<BooleanArray, ParquetError>,
        decoded: usize,
    ) -> (r: Result<(), ParquetError>)
        ensures
            old(self).keeps_mask(
                Self::dictionary_outcome(answer, decoded as nat),
                *final(self),
                r,
            ),
            final(self).asked() == old(self).asked(),
    {
        match answer {
            Ok(filter) => {
                if filter.len() != decoded {
                    return Err(
                        ParquetError::General(
                            Reason::DictionaryPredicateLength {
                                returned: filter.len(),
                                expected: decoded,
                            },
                        ),
                    );
                }
                let mut mask: Vec<u8> = Vec::new();
                append_mask(&mut mask, &filter);
                proof {
                    assert(mask@ =~= mask_of(boolean_array_values(filter)));
                }
                self.dictionary_filter = Some(mask);
                Ok(())
            },
            Err(e) => Err(e),
        }
    }
}

/// What the answer to `read` values comes to: their mask, or an error.
pub open spec fn values_outcome(answer: Result<BooleanArray, ParquetError>, read: nat) -> Result<
    Seq<u8>,
    ParquetError,
> {
    match answer {
        Ok(a) => if boolean_array_values(a).len() == read {
            Ok(mask_of(boolean_array_values(a)))
        } else {
            Err(
                ParquetError::General(
                    Reason::PredicateLength {
                        returned: boolean_array_values(a).len() as usize,
                        expected: read as usize,
                    },
                ),
            )
        },
        Err(e) => Err(e),
    }
}

impl PrimitivePredicateBuffer {
    /// Appends the answer to `read` values.
    pub fn append_answer(&mut self, answer: Result<BooleanArray, ParquetError>, read: usize) -> (r:
        Result<usize, ParquetError>)
        ensures
            match values_outcome(answer, read as nat) {
                Ok(mask) => final(self)@ == old(self)@ + mask && r == Ok::<usize, ParquetError>(
                    read,
                ),
                Err(e) => final(self)@ == old(self)@ && r == Err::<usize, ParquetError>(e),
            },
    {
        match answer {
            Ok(filter) => {
                if filter.len() != read {
                    return Err(
                        ParquetError::General(
                            Reason::PredicateLength { returned: filter.len(), expected: read },
                        ),
                    );
                }
                append_mask(&mut self.values, &filter);
                Ok(read)
            },
            Err(e) => Err(e),
        }
    }
}

impl<T, P, F> ColumnValueDecoder for PrimitivePredicateDecoder<T, P, F> where
    T: DataType,
    P: PrimitiveDictionaryPredicate,
    F: ColumnValueDecoder<Buffer = Vec<T::T>>,
 {
    type Buffer = PrimitivePredicateBuffer;

    open spec fn wf(&self) -> bool {
        &&& self.mask() matches Some(mask) ==> is_mask(mask)
        &&& match self.page() {
            Some(PrimitivePredicateValueDecoder::Dict { decoder, .. }) => decoder.wf(),
            Some(PrimitivePredicateValueDecoder::Fallback(fallback)) => fallback.wf(),
            None => true,
        }
    }

    /// No predicate has been given, and no type for its values.
    open spec fn starts(column_desc: ColumnDescriptor, r: Self) -> bool {
        &&& r.column() == column_desc
        &&& r.values_type() == ArrowType::Null
        &&& r.slot() is Unconfigured
        &&& r.asked() == Seq::<ArrowArray>::empty()
        &&& r.mask() is None
        &&& r.page() is None
    }

    /// The predicate is asked once, about the values of the dictionary. It is not asked about a
    /// dictionary that cannot be decoded.
    open spec fn sets_dict(
        before: Self,
        buf: Bytes,
        num_values: u32,
        encoding: Encoding,
        after: Self,
        r: Result<(), ParquetError>,
    ) -> bool {
        if !encoding.encodes_dictionary() {
            &&& after.asked() == before.asked()
            &&& before.keeps_mask(
                Err(ParquetError::NYI(Reason::DictionaryEncoding(encoding))),
                after,
                r,
            )
        } else if bytes_content(buf).len() < num_values * T::width() {
            &&& after.asked() == before.asked()
            &&& before.keeps_mask(Err(ParquetError::EOF(Reason::PlainData)), after, r)
        } else {
            exists|answer: Result<BooleanArray, ParquetError>| #[trigger]
                before.asks(
                    plain_values::<T>(bytes_content(buf), num_values as nat),
                    answer,
                    after.asked(),
                ) && before.keeps_mask(
                    Self::dictionary_outcome(answer, num_values as nat),
                    after,
                    r,
                )
        }
    }

    /// A page of indices starts with the number of bits that an index takes.
    open spec fn takes_data(encoding: Encoding, data: Bytes) -> bool {
        if encoding.holds_indices() {
            &&& bytes_content(data).len() > 0
            &&& bytes_content(data)[0] <= 32
        } else {
            F::takes_data(encoding, data)
        }
    }

    open spec fn sets_data(
        before: Self,
        encoding: Encoding,
        data: Bytes,
        num_levels: usize,
        num_values: Option<usize>,
        after: Self,
        r: Result<(), ParquetError>,
    ) -> bool {
        &&& after.same_setup(before)
        &&& after.asked() == before.asked()
        &&& after.mask() == before.mask()
        &&& if encoding.holds_indices() {
            let width = bytes_content(data)[0] as nat;
            let rest = bytes_content(data).skip(1);
            if bad_run(rest, width) {
                &&& after.page() == before.page()
                &&& r == Err::<(), ParquetError>(ParquetError::General(Reason::IndexData))
            } else {
                &&& r == Ok::<(), ParquetError>(())
                &&& after.page() matches Some(
                    PrimitivePredicateValueDecoder::Dict { decoder, max_remaining_values },
                )
                &&& decoder.width() == width
                &&& decoder.pending() == indices(rest, width)
                &&& decoder.is_cut() == ends_badly(rest, width)
                &&& max_remaining_values == match num_values {
                    Some(n) => n,
                    None => num_levels,
                }
            }
        } else {
            exists|blank: F, fallback: F|
                {
                    &&& #[trigger] F::starts(before.column(), blank)
                    &&& #[trigger] F::sets_data(
                        blank,
                        encoding,
                        data,
                        num_levels,
                        num_values,
                        fallback,
                        r,
                    )
                    &&& after.page() == if r is Ok {
                        Some(PrimitivePredicateValueDecoder::Fallback(fallback))
                    } else {
                        before.page()
                    }
                }
        }
    }

    open spec fn has_data(&self) -> bool {
        match self.page() {
            Some(PrimitivePredicateValueDecoder::Dict { .. }) => true,
            Some(PrimitivePredicateValueDecoder::Fallback(fallback)) => fallback.has_data(),
            None => false,
        }
    }

    open spec fn can_read(&self, out: Seq<u8>, num_values: usize) -> bool {
        match self.page() {
            Some(PrimitivePredicateValueDecoder::Dict { decoder, max_remaining_values }) => {
                let len = least(num_values, max_remaining_values);
                self.mask() matches Some(mask) ==> {
                    &&& out.len() + len <= usize::MAX
                    &&& decoder.points_into(len as nat, mask.len())
                }
            },
            Some(PrimitivePredicateValueDecoder::Fallback(fallback)) => fallback.can_read(
                Seq::empty(),
                num_values,
            ),
            None => false,
        }
    }

    open spec fn reads(
        before: Self,
        out_before: Seq<u8>,
        num_values: usize,
        after: Self,
        out_after: Seq<u8>,
        r: Result<usize, ParquetError>,
    ) -> bool {
        &&& after.same_setup(before)
        &&& after.mask() == before.mask()
        &&& match before.page() {
            Some(PrimitivePredicateValueDecoder::Dict { decoder, max_remaining_values }) => {
                let len = least(num_values, max_remaining_values);
                &&& after.asked() == before.asked()
                &&& match before.mask() {
                    None => {
                        &&& after.page() == before.page()
                        &&& out_after == out_before
                        &&& r == Err::<usize, ParquetError>(
                            ParquetError::General(Reason::MissingPredicateMask),
                        )
                    },
                    Some(mask) => {
                        let k = decoder.reach(len as nat);
                        let answers = looked_up(decoder.pending().take(k as int), mask);
                        &&& r == decoder.outcome(len as nat)
                        &&& after.page() matches Some(
                            PrimitivePredicateValueDecoder::Dict {
                                decoder: next,
                                max_remaining_values: remaining,
                            },
                        )
                        &&& decoder.moved(len as nat, next)
                        &&& if r is Ok {
                            &&& remaining == max_remaining_values - k
                            &&& out_after == out_before + answers
                        } else {
                            &&& remaining == max_remaining_values
                            &&& out_after == out_before + answers + Seq::new(
                                (len - k) as nat,
                                |i: int| 0u8,
                            )
                        }
                    },
                }
            },
            Some(PrimitivePredicateValueDecoder::Fallback(fallback)) => exists|
                next: F,
                values: Seq<T::T>,
                read: Result<usize, ParquetError>,
            |
                {
                    &&& #[trigger] F::reads(fallback, Seq::empty(), num_values, next, values, read)
                    &&& after.page() == Some(PrimitivePredicateValueDecoder::Fallback(next))
                    &&& match read {
                        Err(e) => {
                            &&& after.asked() == before.asked()
                            &&& out_after == out_before
                            &&& r == Err::<usize, ParquetError>(e)
                        },
                        Ok(n) => exists|answer: Result<BooleanArray, ParquetError>| #[trigger]
                            before.asks(values, answer, after.asked()) && match values_outcome(
                                answer,
                                n as nat,
                            ) {
                                Ok(mask) => out_after == out_before + mask && r == Ok::<
                                    usize,
                                    ParquetError,
                                >(n),
                                Err(e) => out_after == out_before && r == Err::<
                                    usize,
                                    ParquetError,
                                >(e),
                            },
                    }
                },
            None => false,
        }
    }

    open spec fn skips(
        before: Self,
        num_values: usize,
        after: Self,
        r: Result<usize, ParquetError>,
    ) -> bool {
        &&& after.same_setup(before)
        &&& after.asked() == before.asked()
        &&& after.mask() == before.mask()
        &&& match before.page() {
            Some(PrimitivePredicateValueDecoder::Dict { decoder, max_remaining_values }) => {
                let len = least(num_values, max_remaining_values);
                &&& r == decoder.outcome(len as nat)
                &&& after.page() matches Some(
                    PrimitivePredicateValueDecoder::Dict {
                        decoder: next,
                        max_remaining_values: remaining,
                    },
                )
                &&& decoder.moved(len as nat, next)
                &&& remaining == if r is Ok {
                    max_remaining_values - decoder.reach(len as nat)
                } else {
                    max_remaining_values as int
                }
            },
            Some(PrimitivePredicateValueDecoder::Fallback(fallback)) => exists|next: F|
                {
                    &&& #[trigger] F::skips(fallback, num_values, next, r)
                    &&& after.page() == Some(PrimitivePredicateValueDecoder::Fallback(next))
                },
            None => false,
        }
    }

    proof fn lemma_reads(
        before: Self,
        out_before: Seq<u8>,
        num_values: usize,
        after: Self,
        out_after: Seq<u8>,
        r: Result<usize, ParquetError>,
    ) {
        if let Some(PrimitivePredicateValueDecoder::Fallback(fallback)) = before.page() {
            let (next, values, read) = choose|
                next: F,
                values: Seq<T::T>,
                read: Result<usize, ParquetError>,
            |
                {
                    &&& #[trigger] F::reads(fallback, Seq::empty(), num_values, next, values, read)
                    &&& read is Ok && read->Ok_0 == r->Ok_0
                    &&& out_after.len() == out_before.len() + r->Ok_0
                };
            F::lemma_reads(fallback, Seq::empty(), num_values, next, values, read);
        }
    }

    fn new(column_desc: &ColumnDescPtr) -> (r: Self) {
        PrimitivePredicateDecoder {
            column_desc: Arc::clone(column_desc),
            value_type: ArrowType::Null,
            predicate: Asked::nobody(),
            dictionary_filter: None,
            decoder: None,
            marker: PhantomData,
        }
    }

    fn set_dict(&mut self, buf: Bytes, num_values: u32, encoding: Encoding, is_sorted: bool) -> (r:
        Result<(), ParquetError>) {
        if !(matches!(
            encoding,
            Encoding::PLAIN | Encoding::RLE_DICTIONARY | Encoding::PLAIN_DICTIONARY
        )) {
            return Err(ParquetError::NYI(Reason::DictionaryEncoding(encoding)));
        }
        match decode_dictionary::<T>(buf, num_values, self.column_desc.type_length) {
            Ok(values) => {
                let decoded: usize = values.len();
                let answer = self.evaluate_values(values);
                self.take_dictionary_answer(answer, decoded)
            },
            Err(e) => Err(e),
        }
    }

    fn check_data(encoding: Encoding, data: &Bytes) -> (r: bool) {
        match encoding {
            Encoding::RLE_DICTIONARY | Encoding::PLAIN_DICTIONARY => {
                let bytes = as_slice(data);
                bytes.len() > 0 && bytes[0] <= 32
            },
            _ => F::check_data(encoding, data),
        }
    }

    fn set_data(
        &mut self,
        encoding: Encoding,
        data: Bytes,
        num_levels: usize,
        num_values: Option<usize>,
    ) -> (r: Result<(), ParquetError>) {
        match encoding {
            Encoding::RLE_DICTIONARY | Encoding::PLAIN_DICTIONARY => {
                let bit_width: u8 = as_slice(&data)[0];
                let mut decoder = RleDecoder::new(bit_width);
                match decoder.set_data(slice_from(&data, 1)) {
                    Ok(_) => {
                        self.decoder = Some(
                            PrimitivePredicateValueDecoder::Dict {
                                decoder,
                                max_remaining_values: match num_values {
                                    Some(n) => n,
                                    None => num_levels,
                                },
                            },
                        );
                        Ok(())
                    },
                    Err(e) => Err(e),
                }
            },
            _ => {
                let mut decoder = F::new(&self.column_desc);
                let ghost blank = decoder;
                let r = decoder.set_data(encoding, data, num_levels, num_values);
                proof {
                    assert(F::starts(self.column(), blank));
                    assert(F::sets_data(
                        blank,
                        encoding,
                        data,
                        num_levels,
                        num_values,
                        decoder,
                        r,
                    ));
                }
                if r.is_ok() {
                    self.decoder = Some(PrimitivePredicateValueDecoder::Fallback(decoder));
                }
                r
            },
        }
    }

    fn is_ready(&self) -> (r: bool) {
        match &self.decoder {
            Some(PrimitivePredicateValueDecoder::Dict { .. }) => true,
            Some(PrimitivePredicateValueDecoder::Fallback(fallback)) => fallback.is_ready(),
            None => false,
        }
    }

    fn check_read(&self, out: &PrimitivePredicateBuffer, num_values: usize) -> (r: bool) {
        match &self.decoder {
            Some(PrimitivePredicateValueDecoder::Dict { decoder, max_remaining_values }) => {
                let len: usize = if num_values <= *max_remaining_values {
                    num_values
                } else {
                    *max_remaining_values
                };
                match &self.dictionary_filter {
                    Some(filter) => len <= usize::MAX - out.values.len() && decoder.check_indices(
                        len,
                        filter.len(),
                    ),
                    None => true,
                }
            },
            Some(PrimitivePredicateValueDecoder::Fallback(fallback)) => {
                let values: Vec<T::T> = Vec::new();
                fallback.check_read(&values, num_values)
            },
            None => false,
        }
    }

    fn read(&mut self, out: &mut PrimitivePredicateBuffer, num_values: usize) -> (r: Result<
        usize,
        ParquetError,
    >) {
        match &mut self.decoder {
            Some(PrimitivePredicateValueDecoder::Dict { decoder, max_remaining_values }) => {
                let len: usize = if num_values <= *max_remaining_values {
                    num_values
                } else {
                    *max_remaining_values
                };
                match &self.dictionary_filter {
                    None => Err(ParquetError::General(Reason::MissingPredicateMask)),
                    Some(filter) => {
                        let offset: usize = out.values.len();
                        let ghost answers = looked_up(
                            decoder.pending().take(decoder.reach(len as nat) as int),
                            filter@,
                        );
                        out.values.resize(offset + len, 0);
                        proof {
                            assert(out.values@ =~= old(out)@ + Seq::new(len as nat, |i: int| 0u8));
                            assert(out.values@.take(offset as int) =~= old(out)@);
                        }
                        let got = decoder.get_batch_with_dict(
                            filter,
                            &mut out.values,
                            offset,
                            len,
                        );
                        proof {
                            assert(out.values@ =~= old(out)@ + answers + Seq::new(
                                (len - answers.len()) as nat,
                                |i: int| 0u8,
                            ));
                        }
                        match got {
                            Ok(read) => {
                                out.values.truncate(offset + read);
                                proof {
                                    assert(out.values@ =~= old(out)@ + answers);
                                }
                                *max_remaining_values = *max_remaining_values - read;
                                Ok(read)
                            },
                            Err(e) => Err(e),
                        }
                    },
                }
            },
            Some(PrimitivePredicateValueDecoder::Fallback(decoder)) => {
                let mut values: Vec<T::T> = Vec::with_capacity(num_values);
                let ghost fallback = *decoder;
                let got = decoder.read(&mut values, num_values);
                let ghost next = *decoder;
                proof {
                    assert(F::reads(fallback, Seq::empty(), num_values, next, values@, got));
                }
                match got {
                    Ok(read) => {
                        let ghost before = *self;
                        let answer = self.evaluate_values(values);
                        proof {
                            before.lemma_same_question(
                                *old(self),
                                values@,
                                answer,
                                self.asked(),
                            );
                        }
                        out.append_answer(answer, read)
                    },
                    Err(e) => Err(e),
                }
            },
            None => Ok(0),
        }
    }

    fn skip_values(&mut self, num_values: usize) -> (r: Result<usize, ParquetError>) {
        match &mut self.decoder {
            Some(PrimitivePredicateValueDecoder::Dict { decoder, max_remaining_values }) => {
                let len: usize = if num_values <= *max_remaining_values {
                    num_values
                } else {
                    *max_remaining_values
                };
                match decoder.skip(len) {
                    Ok(skipped) => {
                        *max_remaining_values = *max_remaining_values - skipped;
                        Ok(skipped)
                    },
                    Err(e) => Err(e),
                }
            },
            Some(PrimitivePredicateValueDecoder::Fallback(decoder)) => decoder.skip_values(
                num_values,
            ),
            None => Ok(0),
        }
    }
}

} // verus!
