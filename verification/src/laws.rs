//! What holds of the decoders and the readers as a whole.
use arrow_array::BooleanArray;
use arrow_buffer::NullBuffer;
use arrow_schema::{ArrowError, DataType as ArrowType};
use bytes::Bytes;
use vstd::prelude::*;

use crate::arrow::{
    array_len, boolean_array_values, bytes_content, dictionary_keys, dictionary_values,
    integer_values, ArrowArray,
};
use crate::bits::{
    lemma_all_set, lemma_rank_bounds, lemma_rank_extended, lemma_rank_full_run, lemma_rank_prefix,
    rank, scattered, set_count,
};
use crate::column::{names_rows, spaced_out, ColumnValueDecoder, ValuesBuffer};
use crate::dictionary::{
    appended, DictionaryContent, MaybeDictionaryDecoder, PrimitiveDictionaryBuffer,
    PrimitiveDictionaryDecoder,
};
use crate::errors::{Encoding, ParquetError};
use crate::pack::{distinct, lemma_distinct, packed_keys};
use crate::plain::{plain_values, ColumnValueDecoderImpl, PlainDecoder};
use crate::predicate::{
    external, least, mask_of, values_outcome, PredicateSlot, PrimitiveDictionaryPredicate,
    PrimitivePredicateDecoder, PrimitivePredicateValueDecoder,
};
use crate::reader::{
    batch_validity, is_batch_of, keys_with_values, packs_rows, valid_slots, validity_of,
    DictionaryRecords, DictionaryState, PredicateRecords, PredicateState,
    PrimitiveDictionaryReader, PrimitivePredicateReader,
};
use crate::record_reader::{given_validity, num_valid, Levels, RecordState};
use crate::rle::looked_up;
use crate::shared::Dictionary;
use crate::types::{ColumnDescriptor, DataType, Int32Type, Int64Type};

verus! {

/// The predicate looks at one value at a time: it answers `holds(v)` for each value `v` that it
/// gets, and never fails.
pub open spec fn decides<T: DataType, P: PrimitiveDictionaryPredicate>(
    predicate: PredicateSlot<P>,
    value_type: ArrowType,
    holds: spec_fn(T::T) -> Option<bool>,
) -> bool {
    &&& forall|values: Seq<T::T>, made: Result<ArrowArray, ParquetError>| #[trigger]
        T::makes(values, value_type, None, made) ==> made is Ok
    &&& forall|
        values: Seq<T::T>,
        made: Result<ArrowArray, ParquetError>,
        answer: Result<BooleanArray, ArrowError>,
    |
        #![trigger T::makes(values, value_type, None, made), predicate.answers(made->Ok_0, answer)]
        T::makes(values, value_type, None, made) && predicate.answers(made->Ok_0, answer)
            ==> answer is Ok && boolean_array_values(answer->Ok_0) == values.map_values(holds)
}

/// The answers for values, one byte each.
pub open spec fn answers_to<A>(values: Seq<A>, holds: spec_fn(A) -> Option<bool>) -> Seq<u8> {
    mask_of(values.map_values(holds))
}

proof fn lemma_asked<T, P, F>(
    decoder: PrimitivePredicateDecoder<T, P, F>,
    values: Seq<T::T>,
    r: Result<BooleanArray, ParquetError>,
    log: Seq<ArrowArray>,
    holds: spec_fn(T::T) -> Option<bool>,
) where T: DataType, P: PrimitiveDictionaryPredicate
    requires
        decides::<T, P>(decoder.slot(), decoder.values_type(), holds),
        decoder.asks(values, r, log),
    ensures
        r is Ok,
        boolean_array_values(r->Ok_0) == values.map_values(holds),
        log.len() == decoder.asked().len() + 1,
{
    let made = choose|made: Result<ArrowArray, ParquetError>| #[trigger]
        T::makes(values, decoder.values_type(), None, made) && match made {
            Ok(array) => {
                &&& log == decoder.asked().push(array)
                &&& exists|answer: Result<BooleanArray, ArrowError>| #[trigger]
                    decoder.slot().answers(array, answer) && r == external(answer)
            },
            Err(e) => {
                &&& log == decoder.asked()
                &&& r == Err::<BooleanArray, ParquetError>(e)
            },
        };
    assert(made is Ok);
    let answer = choose|answer: Result<BooleanArray, ArrowError>| #[trigger]
        decoder.slot().answers(made->Ok_0, answer) && r == external(answer);
    assert(answer is Ok);
}

/// A dictionary that holds all its bytes is accepted, the predicate is asked once about it, and the
/// answers that are kept are the predicate's answers for its values.
pub proof fn law_dictionary_is_answered<T, P, F>(
    before: PrimitivePredicateDecoder<T, P, F>,
    buf: Bytes,
    num_values: u32,
    encoding: Encoding,
    after: PrimitivePredicateDecoder<T, P, F>,
    r: Result<(), ParquetError>,
    holds: spec_fn(T::T) -> Option<bool>,
) where
    T: DataType,
    P: PrimitiveDictionaryPredicate,
    F: ColumnValueDecoder<Buffer = Vec<T::T>>,

    requires
        decides::<T, P>(before.slot(), before.values_type(), holds),
        encoding.encodes_dictionary(),
        bytes_content(buf).len() >= num_values * T::width(),
        PrimitivePredicateDecoder::<T, P, F>::sets_dict(
            before,
            buf,
            num_values,
            encoding,
            after,
            r,
        ),
    ensures
        r is Ok,
        after.mask() == Some(
            answers_to(plain_values::<T>(bytes_content(buf), num_values as nat), holds),
        ),
        after.asked().len() == before.asked().len() + 1,
{
    let values = plain_values::<T>(bytes_content(buf), num_values as nat);
    let answer = choose|answer: Result<BooleanArray, ParquetError>| #[trigger]
        before.asks(values, answer, after.asked()) && before.keeps_mask(
            PrimitivePredicateDecoder::<T, P, F>::dictionary_outcome(answer, num_values as nat),
            after,
            r,
        );
    lemma_asked(before, values, answer, after.asked(), holds);
}

/// Looking answers up is asking about the values: a read of indices of a dictionary appends the
/// predicate's answers for the values that the indices stand for.
pub proof fn law_looked_up_answers<A>(
    indices: Seq<u32>,
    dictionary: Seq<A>,
    holds: spec_fn(A) -> Option<bool>,
)
    requires
        forall|i: int| 0 <= i < indices.len() ==> #[trigger] indices[i] < dictionary.len(),
    ensures
        looked_up(indices, answers_to(dictionary, holds)) == answers_to(
            looked_up(indices, dictionary),
            holds,
        ),
{
    assert(looked_up(indices, answers_to(dictionary, holds)) =~= answers_to(
        looked_up(indices, dictionary),
        holds,
    ));
}

/// A read of a page of indices appends the predicate's answers for the values that they stand for.
pub proof fn law_indexed_page_is_answered<T, P, F>(
    before: PrimitivePredicateDecoder<T, P, F>,
    dictionary: Seq<T::T>,
    values: Seq<T::T>,
    out: Seq<u8>,
    num_values: usize,
    after: PrimitivePredicateDecoder<T, P, F>,
    out_after: Seq<u8>,
    r: Result<usize, ParquetError>,
    holds: spec_fn(T::T) -> Option<bool>,
) where
    T: DataType,
    P: PrimitiveDictionaryPredicate,
    F: ColumnValueDecoder<Buffer = Vec<T::T>>,

    requires
        before.mask() == Some(answers_to(dictionary, holds)),
        stands_for(before, dictionary, num_values, values),
        before.can_read(out, num_values),
        PrimitivePredicateDecoder::<T, P, F>::reads(before, out, num_values, after, out_after, r),
        r is Ok,
    ensures
        out_after == out + answers_to(values, holds),
        r == Ok::<usize, ParquetError>(values.len() as usize),
{
    let page = before.page()->0;
    let len = least(num_values, page->max_remaining_values);
    let decoder = page->decoder;
    let read = decoder.pending().take(decoder.reach(len as nat) as int);
    assert forall|i: int| 0 <= i < read.len() implies #[trigger] read[i] < dictionary.len() by {
        assert(decoder.pending()[i] < answers_to(dictionary, holds).len());
    }
    law_looked_up_answers(read, dictionary, holds);
}

/// A read of `num_values` of a page of indices comes to these values of the dictionary.
pub open spec fn stands_for<T, P, F>(
    decoder: PrimitivePredicateDecoder<T, P, F>,
    dictionary: Seq<T::T>,
    num_values: usize,
    values: Seq<T::T>,
) -> bool where T: DataType, P: PrimitiveDictionaryPredicate {
    &&& decoder.page() matches Some(
        PrimitivePredicateValueDecoder::Dict { decoder: indices, max_remaining_values },
    )
    &&& values == looked_up(
        indices.pending().take(
            indices.reach(least(num_values, max_remaining_values) as nat) as int,
        ),
        dictionary,
    )
}

/// A read of `num_values` of a page of plain values comes to these values.
pub open spec fn plainly_holds<T, P>(
    decoder: PrimitivePredicateDecoder<T, P, ColumnValueDecoderImpl<T>>,
    num_values: usize,
    values: Seq<T::T>,
) -> bool where T: DataType, P: PrimitiveDictionaryPredicate {
    &&& decoder.page() matches Some(PrimitivePredicateValueDecoder::Fallback(fallback))
    &&& fallback.page() matches Some(plain)
    &&& plain.has_bytes(num_values as nat)
    &&& values == plain.given(num_values as nat)
}

/// A read of a page of plain values appends the predicate's answers for them.
pub proof fn law_plain_page_is_answered<T, P>(
    before: PrimitivePredicateDecoder<T, P, ColumnValueDecoderImpl<T>>,
    values: Seq<T::T>,
    out: Seq<u8>,
    num_values: usize,
    after: PrimitivePredicateDecoder<T, P, ColumnValueDecoderImpl<T>>,
    out_after: Seq<u8>,
    r: Result<usize, ParquetError>,
    holds: spec_fn(T::T) -> Option<bool>,
) where T: DataType, P: PrimitiveDictionaryPredicate
    requires
        decides::<T, P>(before.slot(), before.values_type(), holds),
        plainly_holds(before, num_values, values),
        PrimitivePredicateDecoder::<T, P, ColumnValueDecoderImpl<T>>::reads(
            before,
            out,
            num_values,
            after,
            out_after,
            r,
        ),
    ensures
        out_after == out + answers_to(values, holds),
        r == Ok::<usize, ParquetError>(values.len() as usize),
{
    let fallback = before.page()->0->Fallback_0;
    let none = Seq::<T::T>::empty();
    let (next, read, got) = choose|
        next: ColumnValueDecoderImpl<T>,
        read: Seq<T::T>,
        got: Result<usize, ParquetError>,
    |
        {
            &&& #[trigger] ColumnValueDecoderImpl::<T>::reads(
                fallback,
                none,
                num_values,
                next,
                read,
                got,
            )
            &&& match got {
                Err(e) => false,
                Ok(n) => exists|answer: Result<BooleanArray, ParquetError>| #[trigger]
                    before.asks(read, answer, after.asked()) && match values_outcome(
                        answer,
                        n as nat,
                    ) {
                        Ok(mask) => out_after == out + mask && r == Ok::<usize, ParquetError>(n),
                        Err(e) => out_after == out && r == Err::<usize, ParquetError>(e),
                    },
            }
        };
    assert(read =~= values);
    let answer = choose|answer: Result<BooleanArray, ParquetError>| #[trigger]
        before.asks(read, answer, after.asked()) && match values_outcome(answer, values.len()) {
            Ok(mask) => out_after == out + mask && r == Ok::<usize, ParquetError>(
                values.len() as usize,
            ),
            Err(e) => out_after == out && r == Err::<usize, ParquetError>(e),
        };
    lemma_asked(before, values, answer, after.asked(), holds);
}

/// A page of indices and a page of plain values that stand for the same values get the same
/// answers.
pub proof fn law_pages_agree<T, P>(
    indexed: PrimitivePredicateDecoder<T, P, ColumnValueDecoderImpl<T>>,
    plain: PrimitivePredicateDecoder<T, P, ColumnValueDecoderImpl<T>>,
    dictionary: Seq<T::T>,
    values: Seq<T::T>,
    out: Seq<u8>,
    num_values: usize,
    indexed_after: PrimitivePredicateDecoder<T, P, ColumnValueDecoderImpl<T>>,
    indexed_out: Seq<u8>,
    indexed_r: Result<usize, ParquetError>,
    plain_after: PrimitivePredicateDecoder<T, P, ColumnValueDecoderImpl<T>>,
    plain_out: Seq<u8>,
    plain_r: Result<usize, ParquetError>,
    holds: spec_fn(T::T) -> Option<bool>,
) where T: DataType, P: PrimitiveDictionaryPredicate
    requires
        indexed.mask() == Some(answers_to(dictionary, holds)),
        stands_for(indexed, dictionary, num_values, values),
        indexed.can_read(out, num_values),
        decides::<T, P>(plain.slot(), plain.values_type(), holds),
        plainly_holds(plain, num_values, values),
        PrimitivePredicateDecoder::<T, P, ColumnValueDecoderImpl<T>>::reads(
            indexed,
            out,
            num_values,
            indexed_after,
            indexed_out,
            indexed_r,
        ),
        indexed_r is Ok,
        PrimitivePredicateDecoder::<T, P, ColumnValueDecoderImpl<T>>::reads(
            plain,
            out,
            num_values,
            plain_after,
            plain_out,
            plain_r,
        ),
    ensures
        plain_out == indexed_out,
        plain_r == indexed_r,
{
    law_indexed_page_is_answered(
        indexed,
        dictionary,
        values,
        out,
        num_values,
        indexed_after,
        indexed_out,
        indexed_r,
        holds,
    );
    law_plain_page_is_answered(
        plain,
        values,
        out,
        num_values,
        plain_after,
        plain_out,
        plain_r,
        holds,
    );
}

/// A decoder without a predicate refuses every dictionary and never appends an answer.
pub proof fn law_no_predicate_no_answer<T, P, F>(
    column: ColumnDescriptor,
    new: PrimitivePredicateDecoder<T, P, F>,
    buf: Bytes,
    num_dictionary_values: u32,
    encoding: Encoding,
    after_dict: PrimitivePredicateDecoder<T, P, F>,
    dict_r: Result<(), ParquetError>,
    data: Bytes,
    data_encoding: Encoding,
    num_levels: usize,
    num_page_values: Option<usize>,
    after_data: PrimitivePredicateDecoder<T, P, F>,
    data_r: Result<(), ParquetError>,
    out: Seq<u8>,
    num_values: usize,
    after: PrimitivePredicateDecoder<T, P, F>,
    out_after: Seq<u8>,
    r: Result<usize, ParquetError>,
) where
    T: DataType,
    P: PrimitiveDictionaryPredicate,
    F: ColumnValueDecoder<Buffer = Vec<T::T>>,

    requires
        PrimitivePredicateDecoder::<T, P, F>::starts(column, new),
        PrimitivePredicateDecoder::<T, P, F>::sets_dict(
            new,
            buf,
            num_dictionary_values,
            encoding,
            after_dict,
            dict_r,
        ),
        PrimitivePredicateDecoder::<T, P, F>::sets_data(
            after_dict,
            data_encoding,
            data,
            num_levels,
            num_page_values,
            after_data,
            data_r,
        ),
        after_data.can_read(out, num_values),
        PrimitivePredicateDecoder::<T, P, F>::reads(
            after_data,
            out,
            num_values,
            after,
            out_after,
            r,
        ),
    ensures
        dict_r is Err,
        r is Err,
        out_after == out,
{
    assert(new.slot() is Unconfigured);
    assert(after_dict.slot() is Unconfigured);
    assert(after_data.slot() is Unconfigured);
    assert forall|values: Seq<T::T>, answer: Result<BooleanArray, ParquetError>| #[trigger]
        new.asks(values, answer, after_dict.asked()) implies answer is Err by {}
    assert forall|values: Seq<T::T>, answer: Result<BooleanArray, ParquetError>| #[trigger]
        after_data.asks(values, answer, after.asked()) implies answer is Err by {}
    assert(after_dict.mask() is None);
    assert(after_data.mask() is None);
}

/// A dictionary that is refused changes nothing.
pub proof fn law_refused_dictionary<T, P, F>(
    before: PrimitivePredicateDecoder<T, P, F>,
    buf: Bytes,
    num_values: u32,
    encoding: Encoding,
    after: PrimitivePredicateDecoder<T, P, F>,
    r: Result<(), ParquetError>,
) where
    T: DataType,
    P: PrimitiveDictionaryPredicate,
    F: ColumnValueDecoder<Buffer = Vec<T::T>>,

    requires
        PrimitivePredicateDecoder::<T, P, F>::sets_dict(
            before,
            buf,
            num_values,
            encoding,
            after,
            r,
        ),
        r is Err,
    ensures
        after.same_setup(before),
        after.mask() == before.mask(),
        after.page() == before.page(),
{
}

/// A page hands out no more values than it has: reads and skips count against what remains.
pub proof fn law_page_is_bounded<T, P, F>(
    before: PrimitivePredicateDecoder<T, P, F>,
    out: Seq<u8>,
    num_values: usize,
    after: PrimitivePredicateDecoder<T, P, F>,
    out_after: Seq<u8>,
    r: Result<usize, ParquetError>,
    remaining: usize,
) where
    T: DataType,
    P: PrimitiveDictionaryPredicate,
    F: ColumnValueDecoder<Buffer = Vec<T::T>>,

    requires
        before.page() matches Some(
            PrimitivePredicateValueDecoder::Dict { max_remaining_values, .. },
        ) && max_remaining_values == remaining,
        PrimitivePredicateDecoder::<T, P, F>::reads(before, out, num_values, after, out_after, r)
            || PrimitivePredicateDecoder::<T, P, F>::skips(before, num_values, after, r),
        r is Ok,
    ensures
        r->Ok_0 <= remaining,
        r->Ok_0 <= num_values,
        after.page() matches Some(
            PrimitivePredicateValueDecoder::Dict { max_remaining_values, .. },
        ) && max_remaining_values == remaining - r->Ok_0,
{
}

/// Reading a page of indices in two parts gives what reading it at once gives, and leaves as much.
pub proof fn law_reads_in_parts<T, P, F>(
    first: PrimitivePredicateDecoder<T, P, F>,
    out: Seq<u8>,
    n: usize,
    second: PrimitivePredicateDecoder<T, P, F>,
    out_first: Seq<u8>,
    r_first: Result<usize, ParquetError>,
    m: usize,
    last: PrimitivePredicateDecoder<T, P, F>,
    out_second: Seq<u8>,
    r_second: Result<usize, ParquetError>,
    total: usize,
    at_once: PrimitivePredicateDecoder<T, P, F>,
    out_at_once: Seq<u8>,
    r_at_once: Result<usize, ParquetError>,
) where
    T: DataType,
    P: PrimitiveDictionaryPredicate,
    F: ColumnValueDecoder<Buffer = Vec<T::T>>,

    requires
        first.page() matches Some(PrimitivePredicateValueDecoder::Dict { .. }),
        total == n + m,
        PrimitivePredicateDecoder::<T, P, F>::reads(first, out, n, second, out_first, r_first),
        r_first is Ok,
        PrimitivePredicateDecoder::<T, P, F>::reads(
            second,
            out_first,
            m,
            last,
            out_second,
            r_second,
        ),
        r_second is Ok,
        PrimitivePredicateDecoder::<T, P, F>::reads(
            first,
            out,
            total,
            at_once,
            out_at_once,
            r_at_once,
        ),
    ensures
        r_at_once == Ok::<usize, ParquetError>((r_first->Ok_0 + r_second->Ok_0) as usize),
        out_at_once == out_second,
        at_once.page()->0->max_remaining_values == last.page()->0->max_remaining_values,
        at_once.page()->0->decoder.pending() == last.page()->0->decoder.pending(),
{
    let all = first.page()->0->decoder.pending();
    let (j, k) = (r_first->Ok_0 as int, r_second->Ok_0 as int);
    let mask = first.mask()->0;
    let rest = second.page()->0->decoder.pending();
    assert(rest == all.skip(j));
    assert(all.take(j) + rest.take(k) =~= all.take(j + k));
    assert(rest.skip(k) =~= all.skip(j + k));
    assert(looked_up(all.take(j + k), mask) =~= looked_up(all.take(j), mask) + looked_up(
        rest.take(k),
        mask,
    ));
    assert(out_at_once =~= out_second);
}

/// Passing over values and reading on gives the end of what reading all of them gives.
pub proof fn law_skip_then_read<T, P, F>(
    first: PrimitivePredicateDecoder<T, P, F>,
    n: usize,
    second: PrimitivePredicateDecoder<T, P, F>,
    r_first: Result<usize, ParquetError>,
    out: Seq<u8>,
    m: usize,
    last: PrimitivePredicateDecoder<T, P, F>,
    out_second: Seq<u8>,
    r_second: Result<usize, ParquetError>,
    total: usize,
    at_once: PrimitivePredicateDecoder<T, P, F>,
    out_at_once: Seq<u8>,
    r_at_once: Result<usize, ParquetError>,
) where
    T: DataType,
    P: PrimitiveDictionaryPredicate,
    F: ColumnValueDecoder<Buffer = Vec<T::T>>,

    requires
        first.page() matches Some(PrimitivePredicateValueDecoder::Dict { .. }),
        first.mask() is Some,
        total == n + m,
        PrimitivePredicateDecoder::<T, P, F>::skips(first, n, second, r_first),
        r_first is Ok,
        PrimitivePredicateDecoder::<T, P, F>::reads(second, out, m, last, out_second, r_second),
        r_second is Ok,
        PrimitivePredicateDecoder::<T, P, F>::reads(
            first,
            out,
            total,
            at_once,
            out_at_once,
            r_at_once,
        ),
    ensures
        r_at_once == Ok::<usize, ParquetError>((r_first->Ok_0 + r_second->Ok_0) as usize),
        out_second.skip(out.len() as int) == out_at_once.skip(out.len() + r_first->Ok_0),
        at_once.page()->0->max_remaining_values == last.page()->0->max_remaining_values,
        at_once.page()->0->decoder.pending() == last.page()->0->decoder.pending(),
{
    let all = first.page()->0->decoder.pending();
    let (j, k) = (r_first->Ok_0 as int, r_second->Ok_0 as int);
    let mask = first.mask()->0;
    let rest = second.page()->0->decoder.pending();
    assert(rest == all.skip(j));
    assert(all.take(j) + rest.take(k) =~= all.take(j + k));
    assert(rest.skip(k) =~= all.skip(j + k));
    assert(looked_up(all.take(j + k), mask) =~= looked_up(all.take(j), mask) + looked_up(
        rest.take(k),
        mask,
    ));
    assert(out_second.skip(out.len() as int) =~= looked_up(rest.take(k), mask));
    assert(out_at_once.skip(out.len() + j) =~= looked_up(rest.take(k), mask));
}

/// Reading a page of plain values in two parts gives what reading it at once gives, and leaves as
/// much.
pub proof fn law_plain_in_parts<T: DataType>(
    first: ColumnValueDecoderImpl<T>,
    out: Seq<T::T>,
    n: usize,
    second: ColumnValueDecoderImpl<T>,
    out_first: Seq<T::T>,
    r_first: Result<usize, ParquetError>,
    m: usize,
    last: ColumnValueDecoderImpl<T>,
    out_second: Seq<T::T>,
    r_second: Result<usize, ParquetError>,
    total: usize,
    at_once: ColumnValueDecoderImpl<T>,
    out_at_once: Seq<T::T>,
    r_at_once: Result<usize, ParquetError>,
)
    requires
        total == n + m,
        ColumnValueDecoderImpl::<T>::reads(first, out, n, second, out_first, r_first),
        r_first is Ok,
        ColumnValueDecoderImpl::<T>::reads(second, out_first, m, last, out_second, r_second),
        r_second is Ok,
        ColumnValueDecoderImpl::<T>::reads(first, out, total, at_once, out_at_once, r_at_once),
    ensures
        r_at_once == Ok::<usize, ParquetError>((r_first->Ok_0 + r_second->Ok_0) as usize),
        out_at_once == out_second,
        at_once.page()->0.count() == last.page()->0.count(),
        at_once.page()->0.bytes() == last.page()->0.bytes(),
{
    lemma_plain_parts(first.page()->0, n as nat, second.page()->0, m as nat);
    assert(out_at_once =~= out_second);
}

/// Plain values that are read or skipped in two parts are those that are read at once.
pub proof fn lemma_plain_parts<T: DataType>(
    d: PlainDecoder<T>,
    n: nat,
    e: PlainDecoder<T>,
    m: nat,
)
    requires
        d.has_bytes(n),
        d.moved(n, e),
        e.has_bytes(m),
    ensures
        d.has_bytes(n + m),
        d.reach(n + m) == d.reach(n) + e.reach(m),
        d.given(n + m) == d.given(n) + e.given(m),
        d.given(n).len() == d.reach(n),
        d.bytes().skip((d.reach(n + m) * T::width()) as int) == e.bytes().skip(
            (e.reach(m) * T::width()) as int,
        ),
{
    let w = T::width() as int;
    let (j, k) = (d.reach(n) as int, e.reach(m) as int);
    assert((j + k) * w == j * w + k * w) by (nonlinear_arith);
    assert(e.bytes() == d.bytes().skip(j * w));
    assert(0 <= j * w && 0 <= k * w) by (nonlinear_arith)
        requires
            0 <= j,
            0 <= k,
            0 <= w,
    ;
    assert(d.bytes().skip(j * w).skip(k * w) =~= d.bytes().skip((j + k) * w));
    let whole = plain_values::<T>(d.bytes(), (j + k) as nat);
    let parts = plain_values::<T>(d.bytes(), j as nat) + plain_values::<T>(e.bytes(), k as nat);
    assert forall|i: int| 0 <= i < j + k implies whole[i] == parts[i] by {
        if i >= j {
            let a = i - j;
            assert((j + a) * w == j * w + a * w && (j + a + 1) * w == j * w + (a + 1) * w)
                by (nonlinear_arith);
            assert(0 <= a * w <= (a + 1) * w <= k * w) by (nonlinear_arith)
                requires
                    0 <= a < k,
                    0 <= w,
            ;
            assert(d.bytes().subrange(i * w, (i + 1) * w) =~= e.bytes().subrange(
                a * w,
                (a + 1) * w,
            ));
        }
    }
    assert(whole =~= parts);
}

/// Passing over plain values and reading on gives the end of what reading all of them gives.
pub proof fn law_plain_skip_then_read<T: DataType>(
    first: ColumnValueDecoderImpl<T>,
    n: usize,
    second: ColumnValueDecoderImpl<T>,
    r_first: Result<usize, ParquetError>,
    out: Seq<T::T>,
    m: usize,
    last: ColumnValueDecoderImpl<T>,
    out_second: Seq<T::T>,
    r_second: Result<usize, ParquetError>,
    total: usize,
    at_once: ColumnValueDecoderImpl<T>,
    out_at_once: Seq<T::T>,
    r_at_once: Result<usize, ParquetError>,
)
    requires
        total == n + m,
        ColumnValueDecoderImpl::<T>::skips(first, n, second, r_first),
        r_first is Ok,
        ColumnValueDecoderImpl::<T>::reads(second, out, m, last, out_second, r_second),
        r_second is Ok,
        ColumnValueDecoderImpl::<T>::reads(first, out, total, at_once, out_at_once, r_at_once),
    ensures
        r_at_once == Ok::<usize, ParquetError>((r_first->Ok_0 + r_second->Ok_0) as usize),
        out_second.skip(out.len() as int) == out_at_once.skip(out.len() + r_first->Ok_0),
        at_once.page()->0.count() == last.page()->0.count(),
        at_once.page()->0.bytes() == last.page()->0.bytes(),
{
    let d = first.page()->0;
    let e = second.page()->0;
    lemma_plain_parts(d, n as nat, e, m as nat);
    assert(out_second.skip(out.len() as int) =~= e.given(m as nat));
    assert(out_at_once.skip(out.len() + r_first->Ok_0) =~= e.given(m as nat));
}

/// What a successful read of a page of plain values does: it gives the page that is left.
pub proof fn lemma_plain_read<T, P>(
    before: PrimitivePredicateDecoder<T, P, ColumnValueDecoderImpl<T>>,
    out: Seq<u8>,
    n: usize,
    after: PrimitivePredicateDecoder<T, P, ColumnValueDecoderImpl<T>>,
    out_after: Seq<u8>,
    r: Result<usize, ParquetError>,
    holds: spec_fn(T::T) -> Option<bool>,
) -> (next: ColumnValueDecoderImpl<T>) where T: DataType, P: PrimitiveDictionaryPredicate
    requires
        decides::<T, P>(before.slot(), before.values_type(), holds),
        is_plain(before),
        PrimitivePredicateDecoder::<T, P, ColumnValueDecoderImpl<T>>::reads(
            before,
            out,
            n,
            after,
            out_after,
            r,
        ),
        r is Ok,
    ensures
        after.page() == Some(PrimitivePredicateValueDecoder::Fallback(next)),
        next.page() is Some,
        ({
            let d = before.page()->0->Fallback_0.page()->0;
            &&& d.has_bytes(n as nat)
            &&& d.moved(n as nat, next.page()->0)
            &&& out_after == out + answers_to(d.given(n as nat), holds)
            &&& r == Ok::<usize, ParquetError>(d.reach(n as nat) as usize)
        }),
{
    let fallback = before.page()->0->Fallback_0;
    let none = Seq::<T::T>::empty();
    let (next, read, got) = choose|
        next: ColumnValueDecoderImpl<T>,
        read: Seq<T::T>,
        got: Result<usize, ParquetError>,
    |
        {
            &&& #[trigger] ColumnValueDecoderImpl::<T>::reads(fallback, none, n, next, read, got)
            &&& after.page() == Some(PrimitivePredicateValueDecoder::Fallback(next))
            &&& got is Ok
        };
    law_plain_page_is_answered(
        before,
        fallback.page()->0.given(n as nat),
        out,
        n,
        after,
        out_after,
        r,
        holds,
    );
    next
}

/// The decoder reads a page of plain values.
pub open spec fn is_plain<T, P>(
    decoder: PrimitivePredicateDecoder<T, P, ColumnValueDecoderImpl<T>>,
) -> bool where T: DataType, P: PrimitiveDictionaryPredicate {
    &&& decoder.page() matches Some(PrimitivePredicateValueDecoder::Fallback(fallback))
    &&& fallback.page() is Some
}

/// Reading a page of plain values in two parts gives the answers that reading it at once gives.
pub proof fn law_plain_answers_in_parts<T, P>(
    first: PrimitivePredicateDecoder<T, P, ColumnValueDecoderImpl<T>>,
    out: Seq<u8>,
    n: usize,
    second: PrimitivePredicateDecoder<T, P, ColumnValueDecoderImpl<T>>,
    out_first: Seq<u8>,
    r_first: Result<usize, ParquetError>,
    m: usize,
    last: PrimitivePredicateDecoder<T, P, ColumnValueDecoderImpl<T>>,
    out_second: Seq<u8>,
    r_second: Result<usize, ParquetError>,
    total: usize,
    at_once: PrimitivePredicateDecoder<T, P, ColumnValueDecoderImpl<T>>,
    out_at_once: Seq<u8>,
    r_at_once: Result<usize, ParquetError>,
    holds: spec_fn(T::T) -> Option<bool>,
) where T: DataType, P: PrimitiveDictionaryPredicate
    requires
        decides::<T, P>(first.slot(), first.values_type(), holds),
        is_plain(first),
        total == n + m,
        PrimitivePredicateDecoder::<T, P, ColumnValueDecoderImpl<T>>::reads(
            first,
            out,
            n,
            second,
            out_first,
            r_first,
        ),
        r_first is Ok,
        PrimitivePredicateDecoder::<T, P, ColumnValueDecoderImpl<T>>::reads(
            second,
            out_first,
            m,
            last,
            out_second,
            r_second,
        ),
        r_second is Ok,
        PrimitivePredicateDecoder::<T, P, ColumnValueDecoderImpl<T>>::reads(
            first,
            out,
            total,
            at_once,
            out_at_once,
            r_at_once,
        ),
    ensures
        r_at_once == Ok::<usize, ParquetError>((r_first->Ok_0 + r_second->Ok_0) as usize),
        out_at_once == out_second,
{
    let d = first.page()->0->Fallback_0.page()->0;
    let next = lemma_plain_read(first, out, n, second, out_first, r_first, holds);
    let e = next.page()->0;
    lemma_plain_read(second, out_first, m, last, out_second, r_second, holds);
    lemma_plain_parts(d, n as nat, e, m as nat);
    law_plain_page_is_answered(
        first,
        d.given(total as nat),
        out,
        total,
        at_once,
        out_at_once,
        r_at_once,
        holds,
    );
    assert(out_at_once =~= out_second);
}

/// Passing over plain values and reading on gives the end of the answers that reading all of them
/// gives.
pub proof fn law_plain_skip_then_answers<T, P>(
    first: PrimitivePredicateDecoder<T, P, ColumnValueDecoderImpl<T>>,
    n: usize,
    second: PrimitivePredicateDecoder<T, P, ColumnValueDecoderImpl<T>>,
    r_first: Result<usize, ParquetError>,
    out: Seq<u8>,
    m: usize,
    last: PrimitivePredicateDecoder<T, P, ColumnValueDecoderImpl<T>>,
    out_second: Seq<u8>,
    r_second: Result<usize, ParquetError>,
    total: usize,
    at_once: PrimitivePredicateDecoder<T, P, ColumnValueDecoderImpl<T>>,
    out_at_once: Seq<u8>,
    r_at_once: Result<usize, ParquetError>,
    holds: spec_fn(T::T) -> Option<bool>,
) where T: DataType, P: PrimitiveDictionaryPredicate
    requires
        decides::<T, P>(first.slot(), first.values_type(), holds),
        is_plain(first),
        total == n + m,
        PrimitivePredicateDecoder::<T, P, ColumnValueDecoderImpl<T>>::skips(
            first,
            n,
            second,
            r_first,
        ),
        r_first is Ok,
        PrimitivePredicateDecoder::<T, P, ColumnValueDecoderImpl<T>>::reads(
            second,
            out,
            m,
            last,
            out_second,
            r_second,
        ),
        r_second is Ok,
        PrimitivePredicateDecoder::<T, P, ColumnValueDecoderImpl<T>>::reads(
            first,
            out,
            total,
            at_once,
            out_at_once,
            r_at_once,
        ),
    ensures
        r_at_once == Ok::<usize, ParquetError>((r_first->Ok_0 + r_second->Ok_0) as usize),
        out_second.skip(out.len() as int) == out_at_once.skip(out.len() + r_first->Ok_0),
        second.asked() == first.asked(),
{
    let d = first.page()->0->Fallback_0.page()->0;
    let e = second.page()->0->Fallback_0.page()->0;
    lemma_plain_read(second, out, m, last, out_second, r_second, holds);
    lemma_plain_parts(d, n as nat, e, m as nat);
    law_plain_page_is_answered(
        first,
        d.given(total as nat),
        out,
        total,
        at_once,
        out_at_once,
        r_at_once,
        holds,
    );
    let tail = answers_to(e.given(m as nat), holds);
    assert(out_second.skip(out.len() as int) =~= tail);
    assert(out_at_once.skip(out.len() + r_first->Ok_0) =~= tail);
}

/// As long as no read failed there is an answer for every row that holds a value, so that consuming
/// a batch succeeds. Only where the innermost field may not be null and a row holds no value all
/// the same is there no answer for the row, and consuming fails. A batch has a slot for each row,
/// none of them null.
pub proof fn law_complete_batch<T, P, F>(
    before: PredicateState<T, P, F>,
    after: PredicateState<T, P, F>,
    r: Result<BooleanArray, ParquetError>,
) where
    T: DataType,
    P: PrimitiveDictionaryPredicate,
    F: ColumnValueDecoder<Buffer = Vec<T::T>>,

    requires
        PredicateRecords::<T, P, F>::is_complete(before),
        PrimitivePredicateReader::<T, P, F>::gives_batch(before, after, r),
    ensures
        r is Ok <==> before.column.is_optional || num_valid(before) == before.num_values,
        r matches Ok(batch) ==> {
            &&& boolean_array_values(batch).len() == before.num_values
            &&& forall|i: int|
                0 <= i < before.num_values ==> (#[trigger] boolean_array_values(batch)[i]) is Some
        },
{
    match given_validity(before) {
        Some(valid) => assert(valid =~= before.valid->0),
        None => lemma_rank_full_run(batch_validity(before), before.num_values as int),
    }
}

/// In a batch a null row is `false`, and another row is what the predicate said of it: the answers
/// come in the order of the rows that are not null.
pub proof fn law_batch_rows<T, P, F>(
    before: PredicateState<T, P, F>,
    after: PredicateState<T, P, F>,
    r: Result<BooleanArray, ParquetError>,
    row: int,
) where
    T: DataType,
    P: PrimitiveDictionaryPredicate,
    F: ColumnValueDecoder<Buffer = Vec<T::T>>,

    requires
        PrimitivePredicateReader::<T, P, F>::gives_batch(before, after, r),
        r is Ok,
        0 <= row < before.num_values,
    ensures
        ({
            let valid = batch_validity(before);
            let slot = boolean_array_values(r->Ok_0)[row];
            if valid[row] {
                &&& rank(valid, row) < before.content.len()
                &&& slot == Some(before.content[rank(valid, row) as int] == 1)
            } else {
                slot == Some(false)
            }
        }),
{
    lemma_rank_bounds(batch_validity(before), row + 1, before.num_values as int);
}

/// Rows that are consumed in two batches give the slots that they give in one.
pub proof fn law_batches_join(
    valid_first: Seq<bool>,
    answers_first: Seq<u8>,
    valid_second: Seq<bool>,
    answers_second: Seq<u8>,
)
    requires
        answers_first.len() == set_count(valid_first),
        answers_second.len() == set_count(valid_second),
    ensures
        scattered(valid_first + valid_second, answers_first + answers_second) == scattered(
            valid_first,
            answers_first,
        ) + scattered(valid_second, answers_second),
{
    let valid = valid_first + valid_second;
    let n = valid_first.len() as int;
    let joined = scattered(valid_first, answers_first) + scattered(valid_second, answers_second);
    let whole = scattered(valid, answers_first + answers_second);
    assert forall|i: int| 0 <= i < valid.len() implies whole[i] == joined[i] by {
        if i < n {
            lemma_rank_prefix(valid, valid_first, i);
            lemma_rank_bounds(valid_first, i + 1, n);
        } else {
            lemma_rank_extended(valid_first, valid_second, i - n);
            lemma_rank_bounds(valid_second, i - n + 1, valid_second.len() as int);
            assert(valid[i] == valid_second[i - n]);
        }
    }
    assert(whole =~= joined);
}

/// A batch is consumed once: what was consumed is gone, and the next batch is empty.
pub proof fn law_consumed_once<T, P, F>(
    before: PredicateState<T, P, F>,
    between: PredicateState<T, P, F>,
    first: Result<BooleanArray, ParquetError>,
    after: PredicateState<T, P, F>,
    second: Result<BooleanArray, ParquetError>,
) where
    T: DataType,
    P: PrimitiveDictionaryPredicate,
    F: ColumnValueDecoder<Buffer = Vec<T::T>>,

    requires
        PrimitivePredicateReader::<T, P, F>::gives_batch(before, between, first),
        first is Ok,
        PrimitivePredicateReader::<T, P, F>::gives_batch(between, after, second),
    ensures
        between.num_values == 0,
        between.decoder == before.decoder,
        second is Ok,
        boolean_array_values(second->Ok_0).len() == 0,
{
    let valid = batch_validity(between);
    assert(valid.len() == 0);
    assert(set_count(valid) == 0);
}

/// Whatever a buffer holds, a read of indices appends the values that they stand for to its rows.
/// Whether they are kept as keys makes no difference.
pub proof fn law_rows_are_appended<A>(
    content: DictionaryContent<A>,
    dictionary: Dictionary<A>,
    read: Seq<u32>,
    unread: nat,
)
    requires
        forall|i: int| 0 <= i < read.len() ==> #[trigger] read[i] < 0x8000_0000,
    ensures
        appended(content, dictionary, read, unread, true).rows() == content.rows() + looked_up(
            read,
            dictionary.values,
        ),
        content.keys_in_range() && (forall|i: int|
            0 <= i < read.len() ==> #[trigger] read[i] < dictionary.values.len()) ==> appended(
            content,
            dictionary,
            read,
            unread,
            true,
        ).keys_in_range(),
{
    let values = dictionary.values;
    let after = appended(content, dictionary, read, unread, true);
    assert(after.rows() =~= content.rows() + looked_up(read, values));
    if content.keys_in_range() && after is Dict {
        assert forall|i: int| 0 <= i < after->keys.len() && (forall|i: int|
            0 <= i < read.len() ==> #[trigger] read[i] < values.len()) implies 0
            <= #[trigger] after->keys[i] < values.len() by {
            let kept = content.keys_for(dictionary)->0;
            if i < kept.len() {
                assert(content->keys[i] == kept[i]);
            } else {
                assert(read[i - kept.len()] < values.len());
            }
        }
    }
}

/// Handing out keys for a dictionary does not change the rows that are held so far.
pub proof fn law_keys_hold_the_same_rows<A>(
    content: DictionaryContent<A>,
    dictionary: Dictionary<A>,
)
    requires
        content.keys_for(dictionary) is Some,
    ensures
        (DictionaryContent::Dict {
            keys: content.keys_for(dictionary)->0,
            dictionary,
        }).rows() == content.rows(),
{
    let after = DictionaryContent::Dict { keys: content.keys_for(dictionary)->0, dictionary };
    assert(after.rows() =~= content.rows());
}

/// The values of the valid rows from `from` on, in order.
pub open spec fn gathered<A>(values: Seq<A>, rows: Seq<bool>, from: int, to: int) -> Seq<A>
    decreases to - from,
{
    if to <= from {
        Seq::empty()
    } else if rows[to - 1] {
        gathered(values, rows, from, to - 1).push(values[to - 1])
    } else {
        gathered(values, rows, from, to - 1)
    }
}

/// Padding moves the values to their rows and loses none: the valid rows hold the values that were
/// read, in order, and the rows before them are as they were.
pub proof fn law_padding_keeps_values<A>(
    values: Seq<A>,
    unset: A,
    read_offset: int,
    values_read: int,
    levels_read: int,
    rows: Seq<bool>,
)
    requires
        names_rows(read_offset, values_read, levels_read, rows),
        values.len() == read_offset + values_read,
    ensures
        ({
            let padded = spaced_out(values, unset, read_offset, levels_read, rows);
            &&& padded.len() == read_offset + levels_read
            &&& padded.take(read_offset) == values.take(read_offset)
            &&& gathered(padded, rows, read_offset, read_offset + levels_read) == values.skip(
                read_offset,
            )
        }),
{
    let padded = spaced_out(values, unset, read_offset, levels_read, rows);
    lemma_rank_bounds(rows, read_offset, read_offset + levels_read);
    assert(padded.take(read_offset) =~= values.take(read_offset));
    lemma_gathered(values, unset, read_offset, values_read, levels_read, rows, read_offset
        + levels_read);
    assert(values.skip(read_offset).take(values_read) =~= values.skip(read_offset));
}

proof fn lemma_gathered<A>(
    values: Seq<A>,
    unset: A,
    read_offset: int,
    values_read: int,
    levels_read: int,
    rows: Seq<bool>,
    to: int,
)
    requires
        names_rows(read_offset, values_read, levels_read, rows),
        values.len() == read_offset + values_read,
        read_offset <= to <= read_offset + levels_read,
    ensures
        gathered(
            spaced_out(values, unset, read_offset, levels_read, rows),
            rows,
            read_offset,
            to,
        ) == values.skip(read_offset).take(rank(rows, to) - rank(rows, read_offset)),
    decreases to,
{
    let padded = spaced_out(values, unset, read_offset, levels_read, rows);
    let tail = values.skip(read_offset);
    let base = rank(rows, read_offset) as int;
    if to > read_offset {
        lemma_gathered(values, unset, read_offset, values_read, levels_read, rows, to - 1);
        lemma_rank_bounds(rows, read_offset, to - 1);
        lemma_rank_bounds(rows, to, read_offset + levels_read);
        if rows[to - 1] {
            let k = rank(rows, to - 1) - base;
            assert(padded[to - 1] == tail[k]);
            assert(tail.take(k).push(tail[k]) =~= tail.take(k + 1));
        }
    } else {
        assert(tail.take(0) =~= Seq::empty());
    }
}

/// The rows of a dictionary array are `slots`: a key points to the value of its row, and a row
/// without a key is null. The values are those that its array of values was made of.
pub open spec fn batch_holds<T: DataType>(
    batch: ArrowArray,
    value_type: ArrowType,
    slots: Seq<Option<T::T>>,
) -> bool {
    &&& array_len(batch) == slots.len()
    &&& exists|values: Seq<T::T>| #[trigger]
        T::makes(values, value_type, None, Ok(dictionary_values(batch))) && keys_find(
            dictionary_keys(batch),
            values,
            slots,
        )
}

/// Each key finds the value of its row.
pub open spec fn keys_find<A>(
    keys: Seq<Option<i32>>,
    values: Seq<A>,
    slots: Seq<Option<A>>,
) -> bool {
    &&& keys.len() == slots.len()
    &&& forall|i: int|
        0 <= i < keys.len() ==> match #[trigger] keys[i] {
            Some(key) => 0 <= key < values.len() && slots[i] == Some(values[key as int]),
            None => slots[i] is None,
        }
}

/// The rows of a batch are the rows that were read, whether they were kept as keys or not.
pub proof fn law_batch_holds_its_rows<T: DataType>(
    content: DictionaryContent<T::T>,
    value_type: ArrowType,
    valid: Option<Seq<bool>>,
    batch: ArrowArray,
)
    requires
        is_batch_of::<T>(content, value_type, valid, Ok(batch)),
    ensures
        batch_holds::<T>(batch, value_type, valid_slots(content.rows(), valid)),
{
    let r = Ok::<ArrowArray, ParquetError>(batch);
    let slots = valid_slots(content.rows(), valid);
    match content {
        DictionaryContent::Dict { keys, dictionary } => {
            let values = dictionary.values;
            let made = choose|made: Result<ArrowArray, ParquetError>| #[trigger]
                T::makes(values, value_type, None, made) && keys_with_values(
                    valid_slots(keys, valid),
                    made,
                    r,
                );
            T::lemma_makes(values, value_type, None, made);
            assert(T::makes(values, value_type, None, Ok(dictionary_values(batch))));
            assert(keys_find(dictionary_keys(batch), values, slots));
        },
        DictionaryContent::Values(rows) => {
            let values = distinct(slots);
            let (nulls, whole) = choose|
                nulls: Option<NullBuffer>,
                whole: Result<ArrowArray, ParquetError>,
            | #[trigger]
                T::makes(rows, value_type, nulls, whole) && validity_of(nulls) == valid
                    && packs_rows::<T>(rows, value_type, valid, whole, r);
            let made = choose|made: Result<ArrowArray, ParquetError>| #[trigger]
                T::makes(values, value_type, None, made) && keys_with_values(
                    packed_keys(slots),
                    made,
                    r,
                );
            T::lemma_makes(values, value_type, None, made);
            lemma_packed(slots);
            assert(T::makes(values, value_type, None, Ok(dictionary_values(batch))));
            assert(keys_find(dictionary_keys(batch), values, slots));
        },
    }
}

/// The value of a row of a dictionary array of integers, `None` where the row is null.
pub open spec fn row_of(batch: ArrowArray, row: int) -> Option<int> {
    match dictionary_keys(batch)[row] {
        Some(key) => integer_values(dictionary_values(batch))[key as int],
        None => None,
    }
}

/// The rows of a dictionary array of 64-bit integers, as numbers.
pub proof fn law_int64_batch_rows(
    batch: ArrowArray,
    value_type: ArrowType,
    slots: Seq<Option<i64>>,
)
    requires
        batch_holds::<Int64Type>(batch, value_type, slots),
    ensures
        forall|i: int|
            0 <= i < slots.len() ==> #[trigger] row_of(batch, i) == match slots[i] {
                Some(value) => Some(value as int),
                None => None,
            },
{
    let values = choose|values: Seq<i64>| #[trigger]
        Int64Type::makes(values, value_type, None, Ok(dictionary_values(batch))) && keys_find(
            dictionary_keys(batch),
            values,
            slots,
        );
    assert forall|i: int| 0 <= i < slots.len() implies #[trigger] row_of(batch, i)
        == match slots[i] {
        Some(value) => Some(value as int),
        None => None,
    } by {
        assert(dictionary_keys(batch)[i] is Some ==> slots[i] is Some);
    }
}

/// The rows of a dictionary array of 32-bit integers, as numbers.
pub proof fn law_int32_batch_rows(
    batch: ArrowArray,
    value_type: ArrowType,
    slots: Seq<Option<i32>>,
)
    requires
        batch_holds::<Int32Type>(batch, value_type, slots),
    ensures
        forall|i: int|
            0 <= i < slots.len() ==> #[trigger] row_of(batch, i) == match slots[i] {
                Some(value) => Some(value as int),
                None => None,
            },
{
    let values = choose|values: Seq<i32>| #[trigger]
        Int32Type::makes(values, value_type, None, Ok(dictionary_values(batch))) && keys_find(
            dictionary_keys(batch),
            values,
            slots,
        );
    assert forall|i: int| 0 <= i < slots.len() implies #[trigger] row_of(batch, i)
        == match slots[i] {
        Some(value) => Some(value as int),
        None => None,
    } by {
        assert(dictionary_keys(batch)[i] is Some ==> slots[i] is Some);
    }
}

/// A row that was packed is found again under its key.
pub proof fn lemma_packed<A>(rows: Seq<Option<A>>)
    requires
        distinct(rows).len() <= 0x8000_0000,
    ensures
        packed_keys(rows).len() == rows.len(),
        forall|i: int|
            0 <= i < rows.len() ==> match #[trigger] packed_keys(rows)[i] {
                Some(key) => 0 <= key < distinct(rows).len() && rows[i] == Some(
                    distinct(rows)[key as int],
                ),
                None => rows[i] is None,
            },
{
    lemma_distinct(rows);
    assert forall|i: int| 0 <= i < rows.len() implies match #[trigger] packed_keys(rows)[i] {
        Some(key) => 0 <= key < distinct(rows).len() && rows[i] == Some(
            distinct(rows)[key as int],
        ),
        None => rows[i] is None,
    } by {
        if let Some(value) = rows[i] {
            let k = distinct(rows).index_of(value);
            assert(distinct(rows).contains(value));
            assert(0 <= k < distinct(rows).len() && distinct(rows)[k] == value);
        }
    }
}

/// Rows of 64-bit integers are packed into a dictionary that always fits: consuming them succeeds
/// unless there are more distinct values than keys, and the dictionary holds no value twice.
pub proof fn law_packed_int64_batch_succeeds(
    rows: Seq<i64>,
    value_type: ArrowType,
    valid: Option<Seq<bool>>,
    r: Result<ArrowArray, ParquetError>,
)
    requires
        value_type == ArrowType::Int64,
        distinct(valid_slots(rows, valid)).len() <= 0x8000_0000,
        is_batch_of::<Int64Type>(DictionaryContent::Values(rows), value_type, valid, r),
    ensures
        r is Ok,
        forall|i: int, j: int|
            0 <= i < j < array_len(dictionary_values(r->Ok_0)) ==> #[trigger] integer_values(
                dictionary_values(r->Ok_0),
            )[i] != #[trigger] integer_values(dictionary_values(r->Ok_0))[j],
{
    let packed = valid_slots(rows, valid);
    let (nulls, whole) = choose|
        nulls: Option<NullBuffer>,
        whole: Result<ArrowArray, ParquetError>,
    | #[trigger]
        Int64Type::makes(rows, value_type, nulls, whole) && validity_of(nulls) == valid
            && packs_rows::<Int64Type>(rows, value_type, valid, whole, r);
    let made = choose|made: Result<ArrowArray, ParquetError>| #[trigger]
        Int64Type::makes(distinct(packed), value_type, None, made) && keys_with_values(
            packed_keys(packed),
            made,
            r,
        );
    lemma_packed(packed);
    lemma_distinct(packed);
}

/// Rows of 32-bit integers are packed into a dictionary that always fits: consuming them succeeds
/// unless there are more distinct values than keys, and the dictionary holds no value twice.
pub proof fn law_packed_int32_batch_succeeds(
    rows: Seq<i32>,
    value_type: ArrowType,
    valid: Option<Seq<bool>>,
    r: Result<ArrowArray, ParquetError>,
)
    requires
        value_type == ArrowType::Int32,
        distinct(valid_slots(rows, valid)).len() <= 0x8000_0000,
        is_batch_of::<Int32Type>(DictionaryContent::Values(rows), value_type, valid, r),
    ensures
        r is Ok,
        forall|i: int, j: int|
            0 <= i < j < array_len(dictionary_values(r->Ok_0)) ==> #[trigger] integer_values(
                dictionary_values(r->Ok_0),
            )[i] != #[trigger] integer_values(dictionary_values(r->Ok_0))[j],
{
    let packed = valid_slots(rows, valid);
    let (nulls, whole) = choose|
        nulls: Option<NullBuffer>,
        whole: Result<ArrowArray, ParquetError>,
    | #[trigger]
        Int32Type::makes(rows, value_type, nulls, whole) && validity_of(nulls) == valid
            && packs_rows::<Int32Type>(rows, value_type, valid, whole, r);
    let made = choose|made: Result<ArrowArray, ParquetError>| #[trigger]
        Int32Type::makes(distinct(packed), value_type, None, made) && keys_with_values(
            packed_keys(packed),
            made,
            r,
        );
    lemma_packed(packed);
    lemma_distinct(packed);
}

/// A batch of dictionary rows is consumed once: what was consumed is gone, and the next batch is
/// empty.
pub proof fn law_dictionary_consumed_once<T, F>(
    data_type: ArrowType,
    before: DictionaryState<T, F>,
    between: DictionaryState<T, F>,
    first: Result<ArrowArray, ParquetError>,
    after: DictionaryState<T, F>,
    second: Result<ArrowArray, ParquetError>,
) where T: DataType, F: ColumnValueDecoder<Buffer = Vec<T::T>>
    requires
        PrimitiveDictionaryReader::<T, F>::gives_batch(data_type, before, between, first),
        first is Ok,
        PrimitiveDictionaryReader::<T, F>::gives_batch(data_type, between, after, second),
    ensures
        between.num_values == 0,
        between.decoder == before.decoder,
        second is Ok,
        array_len(second->Ok_0) == 0,
{
}

/// A dictionary page that is refused changes nothing.
pub proof fn law_refused_dictionary_page<T, F>(
    before: PrimitiveDictionaryDecoder<T, F>,
    buf: Bytes,
    num_values: u32,
    encoding: Encoding,
    after: PrimitiveDictionaryDecoder<T, F>,
    r: Result<(), ParquetError>,
) where T: DataType, F: ColumnValueDecoder<Buffer = Vec<T::T>>
    requires
        PrimitiveDictionaryDecoder::<T, F>::sets_dict(
            before,
            buf,
            num_values,
            encoding,
            after,
            r,
        ),
        r is Err,
    ensures
        after.column() == before.column(),
        after.values() == before.values(),
        after.page() == before.page(),
{
}

/// A read of indices appends the values that they stand for to the rows of the buffer, and counts
/// against what remains of the page.
pub proof fn law_dictionary_read<T, F>(
    before: PrimitiveDictionaryDecoder<T, F>,
    out: DictionaryContent<T::T>,
    num_values: usize,
    after: PrimitiveDictionaryDecoder<T, F>,
    out_after: DictionaryContent<T::T>,
    r: Result<usize, ParquetError>,
) where T: DataType, F: ColumnValueDecoder<Buffer = Vec<T::T>>
    requires
        before.page() matches Some(
            MaybeDictionaryDecoder::Dict { decoder, max_remaining_values },
        ) && decoder.points_into(
            least(num_values, max_remaining_values) as nat,
            0x8000_0000,
        ),
        PrimitiveDictionaryDecoder::<T, F>::reads(before, out, num_values, after, out_after, r),
        r is Ok,
    ensures
        ({
            let page = before.page()->0;
            &&& r->Ok_0 <= num_values
            &&& r->Ok_0 <= page->max_remaining_values
            &&& after.page() matches Some(
                MaybeDictionaryDecoder::Dict { max_remaining_values, .. },
            )
            &&& max_remaining_values == page->max_remaining_values - r->Ok_0
            &&& out_after.rows() == out.rows() + looked_up(
                page->decoder.pending().take(r->Ok_0 as int),
                before.values()->0.values,
            )
        }),
{
    let page = before.page()->0;
    let len = least(num_values, page->max_remaining_values);
    let values = before.values()->0;
    let k = page->decoder.reach(len as nat);
    let read = page->decoder.pending().take(k as int);
    assert forall|i: int| 0 <= i < read.len() implies #[trigger] read[i] < 0x8000_0000 by {
        assert(page->decoder.pending()[i] < 0x8000_0000);
    }
    law_rows_are_appended(out, values, read, (len - k) as nat);
}

/// Padding moves the values of a buffer to their rows, whether it holds keys or values.
proof fn lemma_padded_rows<T: DataType>(
    content: DictionaryContent<T::T>,
    read_offset: usize,
    values_read: usize,
    levels_read: usize,
    rows: Seq<bool>,
)
    requires
        names_rows(read_offset as int, values_read as int, levels_read as int, rows),
        content.len() == read_offset + values_read,
    ensures
        ({
            let padded = PrimitiveDictionaryBuffer::<T>::padded(
                content,
                read_offset,
                values_read,
                levels_read,
                rows,
            );
            let base = rank(rows, read_offset as int);
            &&& padded.rows().len() == read_offset + levels_read
            &&& padded.rows().take(read_offset as int) == content.rows().take(read_offset as int)
            &&& forall|j: int|
                read_offset <= j < read_offset + levels_read && rows[j]
                    ==> #[trigger] padded.rows()[j] == content.rows()[read_offset + rank(rows, j)
                    - base]
        }),
{
    let padded = PrimitiveDictionaryBuffer::<T>::padded(
        content,
        read_offset,
        values_read,
        levels_read,
        rows,
    );
    let end = read_offset + levels_read;
    lemma_rank_bounds(rows, read_offset as int, end);
    assert(padded.rows().take(read_offset as int) =~= content.rows().take(read_offset as int));
    assert forall|j: int| read_offset <= j < end && rows[j] implies #[trigger] padded.rows()[j]
        == content.rows()[read_offset + rank(rows, j) - rank(rows, read_offset as int)] by {
        lemma_rank_bounds(rows, read_offset as int, j);
        lemma_rank_bounds(rows, j + 1, end);
    }
}

/// The rows of `levels` stand behind the rows of `before`: a row that holds a value has the next of
/// `values`.
pub open spec fn rows_follow<T: DataType, D>(
    before: RecordState<DictionaryContent<T::T>, D>,
    levels: Levels,
    values: Seq<T::T>,
    after: RecordState<DictionaryContent<T::T>, D>,
) -> bool {
    let validity = levels.validity(before.column);
    let n = before.num_values as int;
    &&& after.num_values == n + levels.count
    &&& after.content.rows().len() == n + levels.count
    &&& after.content.rows().take(n) == before.content.rows()
    &&& forall|i: int|
        0 <= i < levels.count && validity[i] ==> #[trigger] after.content.rows()[n + i]
            == values[rank(validity, i) as int]
}

pub proof fn lemma_rows_follow<T, F>(
    before: DictionaryState<T, F>,
    levels: Levels,
    next: PrimitiveDictionaryDecoder<T, F>,
    content: DictionaryContent<T::T>,
    values: Seq<T::T>,
) where T: DataType, F: ColumnValueDecoder<Buffer = Vec<T::T>>
    requires
        DictionaryRecords::<T, F>::in_step(before),
        DictionaryRecords::<T, F>::can_read_rows(before, levels),
        values.len() == set_count(levels.validity(before.column)),
        content.rows() == before.content.rows() + values,
    ensures
        rows_follow::<T, _>(
            before,
            levels,
            values,
            DictionaryRecords::<T, F>::with_rows(before, levels, next, content),
        ),
{
    let validity = levels.validity(before.column);
    let n = before.num_values as int;
    let after = DictionaryRecords::<T, F>::with_rows(before, levels, next, content);
    let kept: DictionaryContent<T::T> = before.content;
    let made: DictionaryContent<T::T> = after.content;
    assert(content.len() == content.rows().len());
    assert(kept.len() == kept.rows().len() == n);
    lemma_rank_bounds(validity, 0, levels.count as int);
    if values.len() < levels.count {
        if before.valid is None {
            lemma_rank_full_run(validity, levels.count as int);
        }
        let earlier = before.valid->0;
        let rows = earlier + validity;
        lemma_rank_extended(earlier, validity, levels.count as int);
        lemma_rank_extended(earlier, validity, 0);
        lemma_padded_rows::<T>(
            content,
            before.num_values as usize,
            values.len() as usize,
            levels.count,
            rows,
        );
        assert(content.rows().take(n) =~= kept.rows());
        assert forall|i: int| 0 <= i < levels.count && validity[i] implies #[trigger] made.rows()[n
            + i] == values[rank(validity, i) as int] by {
            lemma_rank_extended(earlier, validity, i);
            lemma_rank_bounds(validity, i + 1, levels.count as int);
            assert(rows[n + i] == validity[i]);
        }
    } else {
        lemma_all_set(validity);
        assert(made.rows().take(n) =~= kept.rows());
        assert forall|i: int| 0 <= i < levels.count && validity[i] implies #[trigger] made.rows()[n
            + i] == values[rank(validity, i) as int] by {
            lemma_rank_full_run(validity, i);
        }
    }
}

/// Reading rows from a page of indices appends rows with the values that the indices stand for,
/// whatever was read before, and leaves the earlier rows as they were.
pub proof fn law_indexed_rows_are_kept<T, F>(
    before: DictionaryState<T, F>,
    levels: Levels,
    after: DictionaryState<T, F>,
    r: Result<usize, ParquetError>,
) where T: DataType, F: ColumnValueDecoder<Buffer = Vec<T::T>>
    requires
        DictionaryRecords::<T, F>::in_step(before),
        DictionaryRecords::<T, F>::can_read_rows(before, levels),
        before.decoder->0.page() matches Some(
            MaybeDictionaryDecoder::Dict { decoder, .. },
        ) && decoder.points_into(set_count(levels.validity(before.column)), 0x8000_0000),
        DictionaryRecords::<T, F>::reads_rows(before, levels, after, r),
        r is Ok,
    ensures
        ({
            let want = set_count(levels.validity(before.column));
            let decoder = before.decoder->0;
            rows_follow::<T, _>(
                before,
                levels,
                looked_up(
                    decoder.page()->0->decoder.pending().take(want as int),
                    decoder.values()->0.values,
                ),
                after,
            )
        }),
{
    let validity = levels.validity(before.column);
    lemma_rank_bounds(validity, 0, levels.count as int);
    let want = set_count(validity) as usize;
    let decoder = before.decoder->0;
    let page = decoder.page()->0;
    let (next, content, got) = choose|
        next: PrimitiveDictionaryDecoder<T, F>,
        content: DictionaryContent<T::T>,
        got: Result<usize, ParquetError>,
    |
        {
            &&& #[trigger] PrimitiveDictionaryDecoder::<T, F>::reads(
                decoder,
                before.content,
                want,
                next,
                content,
                got,
            )
            &&& got == Ok::<usize, ParquetError>(want)
            &&& after == DictionaryRecords::<T, F>::with_rows(before, levels, next, content)
        };
    let len = least(want, page->max_remaining_values);
    assert forall|i: int|
        0 <= i < page->decoder.reach(
            len as nat,
        ) implies #[trigger] page->decoder.pending()[i] < 0x8000_0000 by {
        assert(i < page->decoder.reach(want as nat));
    }
    law_dictionary_read(decoder, before.content, want, next, content, got);
    let values = looked_up(
        page->decoder.pending().take(want as int),
        decoder.values()->0.values,
    );
    lemma_rows_follow(before, levels, next, content, values);
}

/// Reading rows from a page of plain values appends rows with these values, whatever was read
/// before, and leaves the earlier rows as they were.
pub proof fn law_plain_rows_are_kept<T: DataType>(
    before: DictionaryState<T, ColumnValueDecoderImpl<T>>,
    levels: Levels,
    after: DictionaryState<T, ColumnValueDecoderImpl<T>>,
    r: Result<usize, ParquetError>,
)
    requires
        DictionaryRecords::<T, ColumnValueDecoderImpl<T>>::in_step(before),
        DictionaryRecords::<T, ColumnValueDecoderImpl<T>>::can_read_rows(before, levels),
        before.decoder->0.page() matches Some(MaybeDictionaryDecoder::Fallback(_)),
        DictionaryRecords::<T, ColumnValueDecoderImpl<T>>::reads_rows(before, levels, after, r),
        r is Ok,
    ensures
        ({
            let want = set_count(levels.validity(before.column));
            let plain = before.decoder->0.page()->0->Fallback_0.page()->0;
            rows_follow::<T, _>(before, levels, plain.given(want), after)
        }),
{
    let validity = levels.validity(before.column);
    lemma_rank_bounds(validity, 0, levels.count as int);
    let want = set_count(validity) as usize;
    let decoder = before.decoder->0;
    let fallback = decoder.page()->0->Fallback_0;
    let plain = fallback.page()->0;
    let (next, content, got) = choose|
        next: PrimitiveDictionaryDecoder<T, ColumnValueDecoderImpl<T>>,
        content: DictionaryContent<T::T>,
        got: Result<usize, ParquetError>,
    |
        {
            &&& #[trigger] PrimitiveDictionaryDecoder::<T, ColumnValueDecoderImpl<T>>::reads(
                decoder,
                before.content,
                want,
                next,
                content,
                got,
            )
            &&& got == Ok::<usize, ParquetError>(want)
            &&& after == DictionaryRecords::<T, ColumnValueDecoderImpl<T>>::with_rows(
                before,
                levels,
                next,
                content,
            )
        };
    let kept: DictionaryContent<T::T> = before.content;
    let (last, rows) = choose|last: ColumnValueDecoderImpl<T>, rows: Seq<T::T>|
        {
            &&& #[trigger] ColumnValueDecoderImpl::<T>::reads(
                fallback,
                kept.rows(),
                want,
                last,
                rows,
                got,
            )
            &&& content == DictionaryContent::Values(rows)
        };
    assert(rows =~= kept.rows() + plain.given(want as nat));
    lemma_rows_follow(before, levels, next, content, plain.given(want as nat));
}

} // verus!
